//! The notes folder as the app shows it: the note list, the details of a
//! note or folder, the pasted-image requests it serves from the vault, and
//! the folder being watched.
use vstd::prelude::*;
use crate::http::{extension, utf8_text, path_extension, pct_decode_from, percent_decode};
use crate::notetext::{strip_prefixes, strip_prefixes_exec};
use crate::order::{by_key_desc, positions, sort_positions_desc};
use crate::route::{path_within, within};
use crate::text::{chars_eq, chars_of, push_chars, str_eq, string_from_chars};

verus! {

/// A note of the list: file name, path, last change (ms since the epoch).
pub struct NoteInfo {
    pub name: String,
    pub path: String,
    pub modified: u64,
}

/// A note with its text, for the search index.
pub struct NoteFull {
    pub path: String,
    pub name: String,
    pub content: String,
}

/// What the "get info" dialog shows of a note or a folder.
pub struct NoteDetails {
    pub kind: String,
    pub name: String,
    pub path: String,
    pub size_bytes: u64,
    pub created: u64,
    pub modified: u64,
    pub word_count: u64,
    pub note_count: u64,
    pub folder_count: u64,
}

/// An entry of the notes folder: its name, path, whether it is a file, and
/// when it last changed.
pub struct FolderEntry {
    pub name: String,
    pub path: String,
    pub is_file: bool,
    pub modified: u64,
}

/// Whether an entry is a note: a file with the `md` extension.
pub open spec fn is_note(e: FolderEntry) -> bool {
    e.is_file && extension(e.path@) == Some("md"@)
}

/// The notes among the entries, in order.
pub open spec fn notes_of(es: Seq<FolderEntry>) -> Seq<FolderEntry>
    decreases es.len(),
{
    if es.len() == 0 {
        seq![]
    } else if is_note(es.last()) {
        notes_of(es.drop_last()).push(es.last())
    } else {
        notes_of(es.drop_last())
    }
}

fn is_md_path(path: &str) -> (r: bool)
    ensures
        r == (extension(path@) == Some("md"@)),
{
    match path_extension(path) {
        Some(e) => {
            let m = chars_of("md");
            chars_eq(e.as_slice(), m.as_slice())
        },
        None => false,
    }
}

/// The note list of a folder: its notes, most recently changed first
/// (notes changed at the same time keep the folder's order).
pub fn list_notes(entries: &[FolderEntry]) -> (r: Vec<NoteInfo>)
    ensures
        ({
            let ns = notes_of(entries@);
            let order = positions(ns.len()).sort_by(by_key_desc(ns.map_values(|e: FolderEntry| e.modified)));
            &&& r@.len() == ns.len()
            &&& forall|k: int| #![trigger r@[k]] 0 <= k < r@.len() ==> {
                &&& r@[k].name@ == ns[order[k]].name@
                &&& r@[k].path@ == ns[order[k]].path@
                &&& r@[k].modified == ns[order[k]].modified
            }
        }),
{
    let ghost es = entries@;
    let mut picked: Vec<usize> = Vec::new();
    let mut i: usize = 0;
    assert(es.take(0) =~= Seq::<FolderEntry>::empty());
    while i < entries.len()
        invariant
            i <= entries@.len(),
            es == entries@,
            picked@.map_values(|k: usize| entries@[k as int]) == notes_of(es.take(i as int)),
            forall|m: int| 0 <= m < picked@.len() ==> (#[trigger] picked@[m]) < i,
        decreases entries@.len() - i,
    {
        assert(es.take(i + 1).drop_last() =~= es.take(i as int));
        assert(es.take(i + 1).last() == entries@[i as int]);
        let ghost before = picked@.map_values(|k: usize| entries@[k as int]);
        if entries[i].is_file && is_md_path(entries[i].path.as_str()) {
            picked.push(i);
            assert(picked@.map_values(|k: usize| entries@[k as int]) =~= before.push(entries@[i as int]));
        }
        i = i + 1;
    }
    assert(es.take(entries@.len() as int) =~= es);
    let ghost ns = notes_of(es);
    let mut keys: Vec<u64> = Vec::new();
    let mut j: usize = 0;
    while j < picked.len()
        invariant
            j <= picked@.len(),
            es == entries@,
            picked@.map_values(|k: usize| entries@[k as int]) == ns,
            forall|m: int| 0 <= m < picked@.len() ==> (#[trigger] picked@[m]) < entries@.len(),
            keys@ =~= ns.map_values(|e: FolderEntry| e.modified).take(j as int),
        decreases picked@.len() - j,
    {
        assert(ns[j as int] == entries@[picked@[j as int] as int]);
        keys.push(entries[picked[j]].modified);
        j = j + 1;
    }
    assert(ns.map_values(|e: FolderEntry| e.modified).take(picked@.len() as int) =~= ns.map_values(|e: FolderEntry| e.modified));
    let order = sort_positions_desc(keys.as_slice());
    let ghost ord = positions(ns.len()).sort_by(by_key_desc(ns.map_values(|e: FolderEntry| e.modified)));
    proof {
        crate::order::lemma_key_order_total(keys@);
        positions(ns.len()).lemma_sort_by_ensures(by_key_desc(keys@));
        vstd::seq_lib::to_multiset_len(positions(ns.len()));
        vstd::seq_lib::to_multiset_len(ord);
        assert forall|k: int| 0 <= k < ord.len() implies 0 <= #[trigger] ord[k] < ns.len() by {
            assert(ord.contains(ord[k]));
            assert(positions(ns.len()).contains(ord[k]));
        }
    }
    let mut out: Vec<NoteInfo> = Vec::new();
    let mut k: usize = 0;
    while k < order.len()
        invariant
            k <= order@.len(),
            es == entries@,
            order@.map_values(|x: usize| x as int) == ord,
            ord.len() == ns.len(),
            forall|q: int| 0 <= q < ord.len() ==> 0 <= #[trigger] ord[q] < ns.len(),
            picked@.map_values(|x: usize| entries@[x as int]) == ns,
            forall|m: int| 0 <= m < picked@.len() ==> (#[trigger] picked@[m]) < entries@.len(),
            out@.len() == k,
            forall|q: int| #![trigger out@[q]] 0 <= q < k ==> {
                &&& out@[q].name@ == ns[ord[q]].name@
                &&& out@[q].path@ == ns[ord[q]].path@
                &&& out@[q].modified == ns[ord[q]].modified
            },
        decreases order@.len() - k,
    {
        let pos = order[k];
        assert(ord[k as int] == pos as int);
        let e = &entries[picked[pos]];
        assert(ns[pos as int] == entries@[picked@[pos as int] as int]);
        out.push(NoteInfo { name: e.name.clone(), path: e.path.clone(), modified: e.modified });
        k = k + 1;
    }
    out
}

/// The details of a note: its size, times and word count.
pub fn note_details(name: String, path: String, size_bytes: u64, created: u64, modified: u64, word_count: u64) -> (r: NoteDetails)
    ensures
        r.kind@ == "note"@,
        r.name == name,
        r.path == path,
        r.size_bytes == size_bytes,
        r.created == created,
        r.modified == modified,
        r.word_count == word_count,
        r.note_count == 0,
        r.folder_count == 0,
{
    NoteDetails {
        kind: String::from_str("note"),
        name,
        path,
        size_bytes,
        created,
        modified,
        word_count,
        note_count: 0,
        folder_count: 0,
    }
}

/// The running totals of a folder's details: bytes and words of its notes,
/// the number of notes and of folders below it.
pub struct FolderTotals {
    pub size_bytes: u64,
    pub word_count: u64,
    pub note_count: u64,
    pub folder_count: u64,
}

impl FolderTotals {
    /// Totals of an empty folder.
    pub fn new() -> (r: FolderTotals)
        ensures
            r.size_bytes == 0 && r.word_count == 0 && r.note_count == 0 && r.folder_count == 0,
    {
        FolderTotals { size_bytes: 0, word_count: 0, note_count: 0, folder_count: 0 }
    }

    /// Counts a subfolder.
    pub fn add_folder(&mut self)
        requires
            old(self).folder_count < u64::MAX,
        ensures
            final(self).folder_count == old(self).folder_count + 1,
            final(self).size_bytes == old(self).size_bytes,
            final(self).word_count == old(self).word_count,
            final(self).note_count == old(self).note_count,
    {
        self.folder_count = self.folder_count + 1;
    }

    /// Counts a note of `size` bytes; its words when its text could be read.
    pub fn add_note(&mut self, size: u64, words: Option<u64>)
        requires
            old(self).note_count < u64::MAX,
            old(self).size_bytes + size <= u64::MAX,
            words matches Some(w) ==> old(self).word_count + w <= u64::MAX,
        ensures
            final(self).note_count == old(self).note_count + 1,
            final(self).size_bytes == old(self).size_bytes + size,
            final(self).word_count == old(self).word_count + match words {
                Some(w) => w,
                None => 0,
            },
            final(self).folder_count == old(self).folder_count,
    {
        self.note_count = self.note_count + 1;
        self.size_bytes = self.size_bytes + size;
        match words {
            Some(w) => {
                self.word_count = self.word_count + w;
            },
            None => {},
        }
    }

    /// The details of the folder these totals describe.
    pub fn details(&self, name: String, path: String, created: u64, modified: u64) -> (r: NoteDetails)
        ensures
            r.kind@ == "folder"@,
            r.name == name,
            r.path == path,
            r.size_bytes == self.size_bytes,
            r.created == created,
            r.modified == modified,
            r.word_count == self.word_count,
            r.note_count == self.note_count,
            r.folder_count == self.folder_count,
    {
        NoteDetails {
            kind: String::from_str("folder"),
            name,
            path,
            size_bytes: self.size_bytes,
            created,
            modified,
            word_count: self.word_count,
            note_count: self.note_count,
            folder_count: self.folder_count,
        }
    }
}

/// The vault folder pasted images are served from.
pub struct AssetRoot {
    pub root: Option<String>,
}

impl AssetRoot {
    /// No vault chosen yet.
    pub fn new() -> (r: AssetRoot)
        ensures
            r.root is None,
    {
        AssetRoot { root: None }
    }

    /// Sets the vault folder (when the app starts watching it).
    pub fn set_root(&mut self, path: &str)
        ensures
            final(self).root matches Some(p) && p@ == path@,
    {
        self.root = Some(String::from_str(path));
    }
}

/// The file an image request asks for: the decoded request path with its
/// leading slashes collapsed into one.
pub open spec fn requested_asset_spec(uri_path: Seq<char>) -> Seq<char> {
    "/"@ + strip_prefixes(utf8_text(pct_decode_from(vstd::utf8::encode_utf8(uri_path), 0)), "/"@)
}

/// The file an image request asks for.
pub fn requested_asset(uri_path: &str) -> (r: String)
    ensures
        r@ == requested_asset_spec(uri_path@),
{
    let d = percent_decode(uri_path);
    let c = chars_of(d.as_str());
    let s = chars_of("/");
    let rest = strip_prefixes_exec(c.as_slice(), s.as_slice());
    let mut v = chars_of("/");
    push_chars(&mut v, rest.as_slice());
    string_from_chars(v.as_slice())
}

/// How an image request is answered.
#[derive(PartialEq, Eq, Structural, Clone, Copy)]
pub enum AssetAnswer {
    /// No vault is set: 403.
    Forbidden,
    /// Outside the vault, or not a file: 404.
    NotFound,
    /// Serve the file.
    Serve,
}

/// The answer to an image request, given the vault root and the requested
/// file, both as the file system resolves them (`None` when they do not
/// resolve), and whether the file is a plain file.
pub open spec fn asset_answer_spec(root: Option<Seq<char>>, target: Option<Seq<char>>, is_file: bool) -> AssetAnswer {
    match root {
        None => AssetAnswer::Forbidden,
        Some(r) => match target {
            Some(t) => if within(r, t) && is_file {
                AssetAnswer::Serve
            } else {
                AssetAnswer::NotFound
            },
            None => AssetAnswer::NotFound,
        },
    }
}

/// Answers an image request.
pub fn asset_answer(root: Option<&str>, target: Option<&str>, is_file: bool) -> (r: AssetAnswer)
    ensures
        r == asset_answer_spec(match root {
            Some(x) => Some(x@),
            None => None,
        }, match target {
            Some(x) => Some(x@),
            None => None,
        }, is_file),
{
    match root {
        None => AssetAnswer::Forbidden,
        Some(r) => match target {
            Some(t) => if path_within(r, t) && is_file {
                AssetAnswer::Serve
            } else {
                AssetAnswer::NotFound
            },
            None => AssetAnswer::NotFound,
        },
    }
}

/// The folder whose changes the app watches.
pub struct NotesWatch {
    pub last: Option<String>,
}

impl NotesWatch {
    /// Nothing watched yet.
    pub fn new() -> (r: NotesWatch)
        ensures
            r.last is None,
    {
        NotesWatch { last: None }
    }

    /// Whether a watch on `path` is to be set up: not when that folder is
    /// already watched (a second watch would double every event). The
    /// folder becomes the watched one either way.
    pub fn begin(&mut self, path: &str) -> (r: bool)
        ensures
            r == !(old(self).last matches Some(p) && p@ == path@),
            final(self).last matches Some(p) && p@ == path@,
    {
        let same = match &self.last {
            Some(p) => str_eq(p.as_str(), path),
            None => false,
        };
        if !same {
            self.last = Some(String::from_str(path));
        }
        !same
    }
}

} // verus!
