//! Backups of the database: a backup is a `backup-<stamp>` folder under the
//! data folder's `backups/`, holding `tack.db` and the attachments. Which
//! folders count, their order (newest first), which ones a rotation removes,
//! the listing shown to users and the names a request may touch.
use vstd::prelude::*;
use crate::notetext::{strip_prefixes, strip_prefixes_exec};
use crate::order::{descending, sort_names};
use crate::text::{chars_of, contains_char, find_sub_exec, find_sub, has_prefix, push_str, string_from_chars, views};

verus! {

/// One backup as users see it.
pub struct BackupInfo {
    pub name: String,
    pub created_at: String,
    pub size_bytes: u64,
}

/// One entry of the `backups/` folder: its name, whether it is a folder,
/// whether that folder holds `tack.db`, and the bytes under it.
pub struct BackupEntry {
    pub name: String,
    pub is_dir: bool,
    pub has_db: bool,
    pub size_bytes: u64,
}

/// Backup folders are named `backup-<stamp>`.
pub open spec fn is_backup_name(n: Seq<char>) -> bool {
    "backup-"@.is_prefix_of(n)
}

/// Whether an entry is a backup folder, and with `need_db` also holds a database.
pub open spec fn counts(e: BackupEntry, need_db: bool) -> bool {
    e.is_dir && is_backup_name(e.name@) && (!need_db || e.has_db)
}

/// The names of the entries that count, in the order of `es`.
pub open spec fn backup_names(es: Seq<BackupEntry>, need_db: bool) -> Seq<Seq<char>>
    decreases es.len(),
{
    if es.len() == 0 {
        seq![]
    } else {
        let rest = backup_names(es.drop_last(), need_db);
        if counts(es.last(), need_db) {
            rest.push(es.last().name@)
        } else {
            rest
        }
    }
}

/// The backup folders, newest first: stamps sort by time, so the name order
/// from last to first.
pub open spec fn newest_first(es: Seq<BackupEntry>, need_db: bool) -> Seq<Seq<char>> {
    backup_names(es, need_db).sort_by(descending())
}

fn collect_names(entries: &[BackupEntry], need_db: bool) -> (r: Vec<Vec<char>>)
    ensures
        views(r@) == backup_names(entries@, need_db),
{
    let prefix = chars_of("backup-");
    let mut out: Vec<Vec<char>> = Vec::new();
    let mut i: usize = 0;
    assert(entries@.take(0) =~= Seq::<BackupEntry>::empty());
    assert(views(out@) =~= Seq::<Seq<char>>::empty());
    while i < entries.len()
        invariant
            i <= entries@.len(),
            prefix@ == "backup-"@,
            views(out@) == backup_names(entries@.take(i as int), need_db),
        decreases entries@.len() - i,
    {
        let e = &entries[i];
        let name = chars_of(e.name.as_str());
        assert(entries@.take(i + 1).drop_last() =~= entries@.take(i as int));
        if e.is_dir && has_prefix(name.as_slice(), prefix.as_slice()) && (!need_db || e.has_db) {
            let ghost before = views(out@);
            out.push(name);
            assert(views(out@) =~= before.push(e.name@));
        }
        i = i + 1;
    }
    assert(entries@.take(entries@.len() as int) =~= entries@);
    out
}

fn strings_of(v: &Vec<Vec<char>>) -> (r: Vec<String>)
    ensures
        r@.len() == v@.len(),
        forall|k: int| 0 <= k < r@.len() ==> #[trigger] r@[k]@ == v@[k]@,
{
    let mut out: Vec<String> = Vec::new();
    let mut k: usize = 0;
    while k < v.len()
        invariant
            k <= v@.len(),
            out@.len() == k,
            forall|m: int| 0 <= m < k ==> #[trigger] out@[m]@ == v@[m]@,
        decreases v@.len() - k,
    {
        out.push(string_from_chars(v[k].as_slice()));
        k = k + 1;
    }
    out
}

/// The backup folders among `entries`, newest first.
pub fn backup_dirs(entries: &[BackupEntry]) -> (r: Vec<String>)
    ensures
        r@.len() == newest_first(entries@, false).len(),
        forall|k: int| 0 <= k < r@.len() ==> #[trigger] r@[k]@ == newest_first(entries@, false)[k],
{
    proof {
        reveal_strlit("backup-");
    }
    let names = sort_names(collect_names(entries, false), true);
    strings_of(&names)
}

/// The backup folders a rotation that keeps `keep` backups removes: all but
/// the `keep` newest; none when `keep` is 0.
pub open spec fn rotation_spec(es: Seq<BackupEntry>, keep: nat) -> Seq<Seq<char>> {
    let all = newest_first(es, false);
    if keep == 0 || keep >= all.len() {
        seq![]
    } else {
        all.skip(keep as int)
    }
}

/// The folders to delete so that only the `keep` newest backups remain.
pub fn rotation_victims(entries: &[BackupEntry], keep: usize) -> (r: Vec<String>)
    ensures
        r@.len() == rotation_spec(entries@, keep as nat).len(),
        forall|k: int| 0 <= k < r@.len() ==> #[trigger] r@[k]@ == rotation_spec(entries@, keep as nat)[k],
{
    proof {
        reveal_strlit("backup-");
    }
    let mut out: Vec<String> = Vec::new();
    if keep == 0 {
        return out;
    }
    let names = sort_names(collect_names(entries, false), true);
    let ghost all = newest_first(entries@, false);
    assert(views(names@) == all);
    let mut k: usize = keep;
    while k < names.len()
        invariant
            keep >= 1,
            keep <= k,
            views(names@) == all,
            k >= names@.len() ==> out@.len() == (if keep >= names@.len() { 0 } else { names@.len() - keep }),
            k < names@.len() ==> out@.len() == k - keep,
            forall|m: int| 0 <= m < out@.len() ==> #[trigger] out@[m]@ == all[m + keep],
        decreases names@.len() - k,
    {
        out.push(string_from_chars(names[k].as_slice()));
        k = k + 1;
    }
    out
}

/// The RFC 3339 form of the date and time that `text` spells in the
/// strftime-style format `fmt`, taken as UTC; `None` when it does not parse.
pub uninterp spec fn naive_rfc3339(text: Seq<char>, fmt: Seq<char>) -> Option<Seq<char>>;

/// `chrono::NaiveDateTime::parse_from_str`, then `and_utc().to_rfc3339()`.
/// What it claims: the result is `naive_rfc3339` of the text and the format.
#[verifier::external_body]
fn parse_utc_rfc3339(text: &str, fmt: &str) -> (r: Option<String>)
    ensures
        match r {
            Some(t) => naive_rfc3339(text@, fmt@) == Some(t@),
            None => naive_rfc3339(text@, fmt@) is None,
        },
{
    match chrono::NaiveDateTime::parse_from_str(text, fmt) {
        Ok(dt) => Some(dt.and_utc().to_rfc3339()),
        Err(_) => None,
    }
}

/// When a backup was made, from its name: the stamp after `backup-` read
/// with milliseconds or, for older backups, to the second; the stamp itself
/// when neither reads.
pub open spec fn created_at_spec(name: Seq<char>) -> Seq<char> {
    let base = strip_prefixes(name, "backup-"@);
    match naive_rfc3339(base, "%Y%m%d-%H%M%S%.3f"@) {
        Some(t) => t,
        None => match naive_rfc3339(base, "%Y%m%d-%H%M%S"@) {
            Some(t) => t,
            None => base,
        },
    }
}

/// When the backup of this name was made.
pub fn created_at_from_name(name: &str) -> (r: String)
    ensures
        r@ == created_at_spec(name@),
{
    let c = chars_of(name);
    let p = chars_of("backup-");
    let base = string_from_chars(strip_prefixes_exec(c.as_slice(), p.as_slice()).as_slice());
    match parse_utc_rfc3339(base.as_str(), "%Y%m%d-%H%M%S%.3f") {
        Some(t) => t,
        None => match parse_utc_rfc3339(base.as_str(), "%Y%m%d-%H%M%S") {
            Some(t) => t,
            None => base,
        },
    }
}

/// The bytes of the first entry named `n`.
pub open spec fn size_named(es: Seq<BackupEntry>, n: Seq<char>) -> u64
    decreases es.len(),
{
    if es.len() == 0 {
        0
    } else if es[0].name@ == n {
        es[0].size_bytes
    } else {
        size_named(es.drop_first(), n)
    }
}

fn size_of_named(entries: &[BackupEntry], n: &[char]) -> (r: u64)
    ensures
        r == size_named(entries@, n@),
{
    let mut i: usize = 0;
    assert(entries@.skip(0) =~= entries@);
    while i < entries.len()
        invariant
            i <= entries@.len(),
            size_named(entries@, n@) == size_named(entries@.skip(i as int), n@),
        decreases entries@.len() - i,
    {
        let c = chars_of(entries[i].name.as_str());
        if crate::text::chars_eq(c.as_slice(), n) {
            return entries[i].size_bytes;
        }
        assert(entries@.skip(i as int).drop_first() =~= entries@.skip(i + 1));
        i = i + 1;
    }
    0
}

/// The backups that can be restored (folders that hold a database), newest
/// first, with when each was made and its size.
pub fn list_backups(entries: &[BackupEntry]) -> (r: Vec<BackupInfo>)
    ensures
        r@.len() == newest_first(entries@, true).len(),
        forall|k: int| #![trigger r@[k]] 0 <= k < r@.len() ==> {
            let n = newest_first(entries@, true)[k];
            &&& r@[k].name@ == n
            &&& r@[k].created_at@ == created_at_spec(n)
            &&& r@[k].size_bytes == size_named(entries@, n)
        },
{
    proof {
        reveal_strlit("backup-");
    }
    let names = sort_names(collect_names(entries, true), true);
    let ghost all = newest_first(entries@, true);
    let mut out: Vec<BackupInfo> = Vec::new();
    let mut k: usize = 0;
    while k < names.len()
        invariant
            k <= names@.len(),
            views(names@) == all,
            out@.len() == k,
            forall|m: int| #![trigger out@[m]] 0 <= m < k ==> {
                &&& out@[m].name@ == all[m]
                &&& out@[m].created_at@ == created_at_spec(all[m])
                &&& out@[m].size_bytes == size_named(entries@, all[m])
            },
        decreases names@.len() - k,
    {
        let name = string_from_chars(names[k].as_slice());
        let created_at = created_at_from_name(name.as_str());
        let size_bytes = size_of_named(entries, names[k].as_slice());
        out.push(BackupInfo { name, created_at, size_bytes });
        k = k + 1;
    }
    out
}

/// A name a backup request may use: no path separator and no `..`.
pub open spec fn valid_backup_name(n: Seq<char>) -> bool {
    !n.contains('/') && !n.contains('\\') && find_sub(n, ".."@, 0) < 0
}

/// Refuses a backup name that could reach outside the backups folder.
pub fn check_backup_name(name: &str) -> (r: Result<(), String>)
    ensures
        r is Ok <==> valid_backup_name(name@),
        r matches Err(e) ==> e@ == "invalid backup name"@,
{
    let c = chars_of(name);
    let dots = chars_of("..");
    if contains_char(c.as_slice(), '/') || contains_char(c.as_slice(), '\\') || find_sub_exec(c.as_slice(), dots.as_slice(), 0).is_some() {
        return Err(String::from_str("invalid backup name"));
    }
    Ok(())
}

/// The folder name of a backup made at `stamp`.
pub fn new_backup_name(stamp: &str) -> (r: String)
    ensures
        r@ == "backup-"@ + stamp@,
{
    let mut v = chars_of("backup-");
    push_str(&mut v, stamp);
    string_from_chars(v.as_slice())
}

} // verus!
