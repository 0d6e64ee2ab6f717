//! Schema migrations with a tolerant runner: which versions still have to
//! run, which tracking rows of unknown (newer) versions are dropped so an
//! older program opens the database again, which failures are harmless, and
//! the checksum recorded for each applied migration.
use vstd::prelude::*;
use sha2::{Digest, Sha384};
use vstd::utf8::encode_utf8;
use crate::text::{chars_of, find_sub_exec, find_sub, push_chars, push_str, string_from_chars, dec_int, i64_dec};

verus! {

/// The schema versions this program knows, oldest first, with their
/// descriptions (the names the tracking table records).
pub fn known_migrations() -> (r: Vec<(i64, &'static str)>)
    ensures
        r@.len() == 21,
        forall|k: int| 0 <= k < r@.len() ==> (#[trigger] r@[k]).0 == k + 1,
{
    vec![
        (1, "create_tasks_table"),
        (2, "create_projects_table"),
        (3, "create_attachments_table"),
        (4, "create_labels_table"),
        (5, "add_due_date_to_tasks"),
        (6, "add_task_number"),
        (7, "add_project_description"),
        (8, "add_subtasks_activity_log_sort_order"),
        (9, "add_pinned_to_tasks"),
        (10, "create_settings_table"),
        (11, "add_source_to_activity_log"),
        (12, "add_deleted_at_to_tasks"),
        (13, "migrate_attachment_file_path"),
        (14, "create_fts_search_index"),
        (15, "fix_fts_triggers"),
        (16, "add_end_date_to_tasks"),
        (17, "create_notes_fts_index"),
        (18, "create_task_notes_table"),
        (19, "add_task_reminders"),
        (20, "expand_task_search_scope"),
        (21, "create_notes_index_tables"),
    ]
}

/// What the runner does to a database: the tracking rows it deletes and
/// the versions it applies, in this order.
pub struct MigrationPlan {
    pub stale: Vec<i64>,
    pub pending: Vec<i64>,
}

/// The versions counted as applied: those the tracking table records; with
/// no tracking table, all known versions when the app's tables exist (an
/// older runner migrated the database fully), else none.
pub open spec fn applied_versions(known: Seq<i64>, recorded: Option<Seq<i64>>, has_tables: bool) -> Seq<i64> {
    match recorded {
        Some(t) => t,
        None => if has_tables {
            known
        } else {
            seq![]
        },
    }
}

/// The elements of `s` that `other` does not hold, in order.
pub open spec fn without(s: Seq<i64>, other: Seq<i64>) -> Seq<i64>
    decreases s.len(),
{
    if s.len() == 0 {
        seq![]
    } else {
        let rest = without(s.drop_last(), other);
        if other.contains(s.last()) {
            rest
        } else {
            rest.push(s.last())
        }
    }
}

/// The plan: the known versions not yet applied, in order; and, when the
/// database has a tracking table and `drop_unknown` is set, the recorded
/// versions this program does not know.
pub open spec fn plan_spec(known: Seq<i64>, recorded: Option<Seq<i64>>, has_tables: bool, drop_unknown: bool) -> (Seq<i64>, Seq<i64>) {
    let stale = match recorded {
        Some(t) => if drop_unknown {
            without(t, known)
        } else {
            seq![]
        },
        None => seq![],
    };
    (stale, without(known, applied_versions(known, recorded, has_tables)))
}

fn contains_i64(s: &[i64], x: i64) -> (r: bool)
    ensures
        r == s@.contains(x),
{
    let mut i: usize = 0;
    while i < s.len()
        invariant
            i <= s@.len(),
            forall|k: int| 0 <= k < i ==> s@[k] != x,
        decreases s@.len() - i,
    {
        if s[i] == x {
            return true;
        }
        i = i + 1;
    }
    false
}

fn without_exec(s: &[i64], other: &[i64]) -> (r: Vec<i64>)
    ensures
        r@ == without(s@, other@),
{
    let mut out: Vec<i64> = Vec::new();
    let mut i: usize = 0;
    assert(s@.take(0) =~= Seq::<i64>::empty());
    while i < s.len()
        invariant
            i <= s@.len(),
            out@ == without(s@.take(i as int), other@),
        decreases s@.len() - i,
    {
        assert(s@.take(i + 1).drop_last() =~= s@.take(i as int));
        if !contains_i64(other, s[i]) {
            out.push(s[i]);
        }
        i = i + 1;
    }
    assert(s@.take(s@.len() as int) =~= s@);
    out
}

/// Plans a run of the migrations `known` (in order) over a database whose
/// tracking table records `recorded` (`None`: no tracking table) and which
/// has the app's tables or not.
pub fn plan_migrations(known: &[i64], recorded: Option<&[i64]>, has_tables: bool, drop_unknown: bool) -> (r: MigrationPlan)
    ensures
        (r.stale@, r.pending@) == plan_spec(known@, match recorded {
            Some(t) => Some(t@),
            None => None,
        }, has_tables, drop_unknown),
{
    match recorded {
        Some(t) => {
            let stale = if drop_unknown {
                without_exec(t, known)
            } else {
                Vec::new()
            };
            MigrationPlan { stale, pending: without_exec(known, t) }
        },
        None => {
            let e: Vec<i64> = Vec::new();
            if has_tables {
                proof {
                    lemma_without_all(known@);
                }
                MigrationPlan { stale: Vec::new(), pending: Vec::new() }
            } else {
                proof {
                    lemma_without_none(known@);
                }
                MigrationPlan { stale: Vec::new(), pending: without_exec(known, e.as_slice()) }
            }
        },
    }
}

pub proof fn lemma_without_none(s: Seq<i64>)
    ensures
        without(s, seq![]) == s,
    decreases s.len(),
{
    if s.len() > 0 {
        lemma_without_none(s.drop_last());
        assert(s.drop_last().push(s.last()) =~= s);
    }
}

pub proof fn lemma_without_all(s: Seq<i64>)
    ensures
        without(s, s) == Seq::<i64>::empty(),
{
    lemma_without_self(s, s);
}

/// Removing every element of a superset leaves nothing.
pub proof fn lemma_without_self(s: Seq<i64>, other: Seq<i64>)
    requires
        forall|k: int| 0 <= k < s.len() ==> other.contains(#[trigger] s[k]),
    ensures
        without(s, other) == Seq::<i64>::empty(),
    decreases s.len(),
{
    if s.len() > 0 {
        assert(other.contains(s[s.len() - 1]));
        lemma_without_self(s.drop_last(), other);
    }
}

/// A failed migration that only repeats a column already there (an earlier
/// run added it) is harmless.
pub open spec fn tolerated_spec(error: Seq<char>) -> bool {
    find_sub(error, "duplicate column name"@, 0) >= 0
}

/// What the runner does after running migration `version`: `Ok` records it
/// and goes on; an error that is not tolerated stops the run with this
/// message.
pub fn migration_outcome(version: i64, error: Option<&str>) -> (r: Result<(), String>)
    ensures
        match error {
            None => r is Ok,
            Some(e) => if tolerated_spec(e@) {
                r is Ok
            } else {
                r matches Err(m) && m@ == "migration "@ + dec_int(version as int) + " failed: "@ + e@
            },
        },
{
    match error {
        None => Ok(()),
        Some(e) => {
            let c = chars_of(e);
            let pat = chars_of("duplicate column name");
            proof {
                reveal_strlit("duplicate column name");
            }
            if find_sub_exec(c.as_slice(), pat.as_slice(), 0).is_some() {
                Ok(())
            } else {
                let mut m = chars_of("migration ");
                let d = i64_dec(version);
                push_chars(&mut m, d.as_slice());
                push_str(&mut m, " failed: ");
                push_chars(&mut m, c.as_slice());
                proof {
                    reveal_strlit("migration ");
                    reveal_strlit(" failed: ");
                }
                Err(string_from_chars(m.as_slice()))
            }
        },
    }
}

/// The SHA-384 digest of `data`.
pub uninterp spec fn sha384(data: Seq<u8>) -> Seq<u8>;

/// `sha2::Sha384::digest`. What it claims: the digest is `sha384` of the
/// input and has 48 bytes.
#[verifier::external_body]
fn sha384_digest(data: &[u8]) -> (d: Vec<u8>)
    ensures
        d@ == sha384(data@),
        d@.len() == 48,
{
    Sha384::digest(data).to_vec()
}

/// The checksum the tracking table records for a migration: the SHA-384 of
/// its SQL text, as the sqlx-based runner computes it.
pub fn migration_checksum(sql: &str) -> (r: Vec<u8>)
    ensures
        r@ == sha384(encode_utf8(sql@)),
        r@.len() == 48,
{
    sha384_digest(sql.as_bytes())
}

} // verus!
