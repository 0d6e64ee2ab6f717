//! Request routing of the live server: which handler a request reaches,
//! the password lock in front of the API, the file a static path names,
//! the notes actions and the paths they need, and whether a path lies
//! inside the notes folder.
use vstd::prelude::*;
use crate::auth::{authorized, authorized_spec, header_views, LiveAuth};
use crate::http::{file_stem, utf8_text, path_file_stem, pct_decode_from, percent_decode};
use crate::notetext::{strip_prefixes, strip_prefixes_exec};
use crate::text::{
    chars_of, has_prefix, has_suffix, push_chars, push_str, slice_chars, split_chars, split_on, str_eq,
    string_from_chars, u64_dec, dec, views,
};

verus! {

/// The HTTP methods the server tells apart.
#[derive(PartialEq, Eq, Structural, Clone, Copy)]
pub enum Method {
    Get,
    Head,
    Post,
    Put,
    Delete,
    Other,
}

/// The handler a request reaches.
#[derive(PartialEq, Eq, Structural, Clone, Copy)]
pub enum Route {
    EventsStream,
    Select,
    Execute,
    Events,
    AttachmentGet,
    AttachmentPut,
    AttachmentDelete,
    Backups,
    NotesDeep,
    NotesRoot,
    NotesFolders,
    NotesList,
    NotesFile,
    NotesInfo,
    NotesAsset,
    NotesPost,
    BackupCreate,
    BackupRestore,
    BackupDelete,
    Static,
    NotFound,
}

/// What the server does with a request.
#[derive(PartialEq, Eq, Structural, Clone, Copy)]
pub enum Decision {
    /// The login endpoint, open to everyone.
    Login,
    /// A password is set and the request does not carry the session token.
    Unauthorized,
    /// Hand the request to this handler.
    Serve(Route),
}

/// The path and the query of a request target: split at the first `?`.
pub open spec fn split_target(url: Seq<char>) -> (Seq<char>, Seq<char>) {
    let k = url.index_of_first('?');
    match k {
        Some(i) => (url.subrange(0, i), url.subrange(i + 1, url.len() as int)),
        None => (url, seq![]),
    }
}

/// Splits a request target into its path and its query.
pub fn split_url(url: &str) -> (r: (String, String))
    ensures
        (r.0@, r.1@) == split_target(url@),
{
    let c = chars_of(url);
    let mut i: usize = 0;
    while i < c.len() && c[i] != '?'
        invariant
            i <= c@.len(),
            forall|k: int| 0 <= k < i ==> c@[k] != '?',
        decreases c@.len() - i,
    {
        i = i + 1;
    }
    proof {
        let f = c@.index_of_first('?');
        if i < c@.len() {
            c@.index_of_first_ensures('?');
            assert(f == Some(i as int));
        } else {
            c@.index_of_first_ensures('?');
            assert(c@.subrange(0, c@.len() as int) =~= c@);
            assert(f is None);
        }
    }
    if i < c.len() {
        (string_from_chars(slice_chars(c.as_slice(), 0, i).as_slice()), string_from_chars(slice_chars(c.as_slice(), i + 1, c.len()).as_slice()))
    } else {
        assert(c@.subrange(0, c@.len() as int) =~= c@);
        (String::from_str(url), String::new())
    }
}

/// The handler for a request that passed the lock.
pub open spec fn route_spec(m: Method, path: Seq<char>) -> Route {
    if m == Method::Get && path == "/api/events/stream"@ {
        Route::EventsStream
    } else if m == Method::Post && path == "/api/select"@ {
        Route::Select
    } else if m == Method::Post && path == "/api/execute"@ {
        Route::Execute
    } else if m == Method::Get && path == "/api/events"@ {
        Route::Events
    } else if m == Method::Get && "/api/attachment/"@.is_prefix_of(path) {
        Route::AttachmentGet
    } else if m == Method::Put && "/api/attachment/"@.is_prefix_of(path) {
        Route::AttachmentPut
    } else if m == Method::Delete && "/api/attachment/"@.is_prefix_of(path) {
        Route::AttachmentDelete
    } else if m == Method::Get && path == "/api/backups"@ {
        Route::Backups
    } else if m == Method::Get && path == "/api/notes/deep"@ {
        Route::NotesDeep
    } else if m == Method::Get && path == "/api/notes/root"@ {
        Route::NotesRoot
    } else if m == Method::Get && path == "/api/notes/folders"@ {
        Route::NotesFolders
    } else if m == Method::Get && path == "/api/notes/list"@ {
        Route::NotesList
    } else if m == Method::Get && path == "/api/notes/file"@ {
        Route::NotesFile
    } else if m == Method::Get && path == "/api/notes/info"@ {
        Route::NotesInfo
    } else if m == Method::Get && path == "/api/notes/asset"@ {
        Route::NotesAsset
    } else if m == Method::Post && "/api/notes/"@.is_prefix_of(path) {
        Route::NotesPost
    } else if m == Method::Post && path == "/api/backups"@ {
        Route::BackupCreate
    } else if m == Method::Post && "/api/backups/"@.is_prefix_of(path) && "/restore"@.is_suffix_of(path) {
        Route::BackupRestore
    } else if m == Method::Delete && "/api/backups/"@.is_prefix_of(path) {
        Route::BackupDelete
    } else if m == Method::Get || m == Method::Head {
        Route::Static
    } else {
        Route::NotFound
    }
}

fn starts(path: &[char], p: &str) -> (r: bool)
    ensures
        r == p@.is_prefix_of(path@),
{
    let pc = chars_of(p);
    has_prefix(path, pc.as_slice())
}

fn ends(path: &[char], p: &str) -> (r: bool)
    ensures
        r == p@.is_suffix_of(path@),
{
    let pc = chars_of(p);
    has_suffix(path, pc.as_slice())
}

fn is_text(path: &[char], p: &str) -> (r: bool)
    ensures
        r == (path@ == p@),
{
    let pc = chars_of(p);
    crate::text::chars_eq(path, pc.as_slice())
}

/// The handler a request goes to.
pub fn route(m: Method, path: &str) -> (r: Route)
    ensures
        r == route_spec(m, path@),
{
    let p = chars_of(path);
    let p = p.as_slice();
    if m == Method::Get && is_text(p, "/api/events/stream") {
        Route::EventsStream
    } else if m == Method::Post && is_text(p, "/api/select") {
        Route::Select
    } else if m == Method::Post && is_text(p, "/api/execute") {
        Route::Execute
    } else if m == Method::Get && is_text(p, "/api/events") {
        Route::Events
    } else if m == Method::Get && starts(p, "/api/attachment/") {
        Route::AttachmentGet
    } else if m == Method::Put && starts(p, "/api/attachment/") {
        Route::AttachmentPut
    } else if m == Method::Delete && starts(p, "/api/attachment/") {
        Route::AttachmentDelete
    } else if m == Method::Get && is_text(p, "/api/backups") {
        Route::Backups
    } else if m == Method::Get && is_text(p, "/api/notes/deep") {
        Route::NotesDeep
    } else if m == Method::Get && is_text(p, "/api/notes/root") {
        Route::NotesRoot
    } else if m == Method::Get && is_text(p, "/api/notes/folders") {
        Route::NotesFolders
    } else if m == Method::Get && is_text(p, "/api/notes/list") {
        Route::NotesList
    } else if m == Method::Get && is_text(p, "/api/notes/file") {
        Route::NotesFile
    } else if m == Method::Get && is_text(p, "/api/notes/info") {
        Route::NotesInfo
    } else if m == Method::Get && is_text(p, "/api/notes/asset") {
        Route::NotesAsset
    } else if m == Method::Post && starts(p, "/api/notes/") {
        Route::NotesPost
    } else if m == Method::Post && is_text(p, "/api/backups") {
        Route::BackupCreate
    } else if m == Method::Post && starts(p, "/api/backups/") && ends(p, "/restore") {
        Route::BackupRestore
    } else if m == Method::Delete && starts(p, "/api/backups/") {
        Route::BackupDelete
    } else if m == Method::Get || m == Method::Head {
        Route::Static
    } else {
        Route::NotFound
    }
}

/// Only API paths consult the password settings; static files stay open
/// so the login screen can load.
pub open spec fn guarded(path: Seq<char>) -> bool {
    "/api/"@.is_prefix_of(path)
}

/// Whether a request's path falls behind the password lock.
pub fn is_guarded(path: &str) -> (r: bool)
    ensures
        r == guarded(path@),
{
    let p = chars_of(path);
    starts(p.as_slice(), "/api/")
}

/// What the server does with a request, given the password configuration
/// (`None`: no password, or a path outside the API).
pub open spec fn decision_spec(
    m: Method,
    path: Seq<char>,
    query: Seq<char>,
    headers: Seq<(Seq<char>, Seq<char>)>,
    token: Option<Seq<char>>,
) -> Decision {
    if m == Method::Post && path == "/api/auth"@ {
        Decision::Login
    } else if token is Some && !authorized_spec(headers, query, token->0) {
        Decision::Unauthorized
    } else {
        Decision::Serve(route_spec(m, path))
    }
}

/// Decides what to do with a request.
pub fn decide(m: Method, path: &str, query: &str, headers: &[(String, String)], auth: Option<&LiveAuth>) -> (r: Decision)
    ensures
        r == decision_spec(m, path@, query@, header_views(headers@), match auth {
            Some(a) => Some(a.token@),
            None => None,
        }),
{
    if m == Method::Post && str_eq(path, "/api/auth") {
        return Decision::Login;
    }
    match auth {
        Some(a) => {
            if !authorized(headers, query, a) {
                return Decision::Unauthorized;
            }
        },
        None => {},
    }
    Decision::Serve(route(m, path))
}

/// The file a static request names, relative to the frontend build:
/// the decoded path without its leading slashes, `index.html` for the
/// root; `None` (a refused path) when a segment is `.` or `..`.
pub open spec fn static_target_spec(path: Seq<char>) -> Option<Seq<char>> {
    let decoded = utf8_text(pct_decode_from(vstd::utf8::encode_utf8(strip_prefixes(path, "/"@)), 0));
    if split_on(decoded, '/').contains(".."@) || split_on(decoded, '/').contains("."@) {
        None
    } else if decoded.len() == 0 {
        Some("index.html"@)
    } else {
        Some(decoded)
    }
}

/// The frontend file a static request names.
pub fn static_target(path: &str) -> (r: Option<String>)
    ensures
        match r {
            Some(t) => static_target_spec(path@) == Some(t@),
            None => static_target_spec(path@) is None,
        },
{
    let c = chars_of(path);
    let slash = chars_of("/");
    let rest = string_from_chars(strip_prefixes_exec(c.as_slice(), slash.as_slice()).as_slice());
    let decoded = percent_decode(rest.as_str());
    proof {
        reveal_strlit("/");
    }
    let dc = chars_of(decoded.as_str());
    let segs = split_chars(dc.as_slice(), '/');
    let mut i: usize = 0;
    while i < segs.len()
        invariant
            i <= segs@.len(),
            views(segs@) == split_on(decoded@, '/'),
            decoded@ == utf8_text(pct_decode_from(vstd::utf8::encode_utf8(strip_prefixes(path@, "/"@)), 0)),
            forall|k: int| 0 <= k < i ==> views(segs@)[k] != ".."@ && views(segs@)[k] != "."@,
        decreases segs@.len() - i,
    {
        if is_text(segs[i].as_slice(), "..") || is_text(segs[i].as_slice(), ".") {
            proof {
                assert(views(segs@)[i as int] == segs@[i as int]@);
                let sp = split_on(decoded@, '/');
                assert(sp[i as int] == segs@[i as int]@);
                if segs@[i as int]@ == ".."@ {
                    assert(sp.contains(".."@));
                } else {
                    assert(sp.contains("."@));
                }
            }
            return None;
        }
        i = i + 1;
    }
    if dc.len() == 0 {
        Some(String::from_str("index.html"))
    } else {
        Some(decoded)
    }
}

/// The cache policy of a static file: the hashed build assets under
/// `/_app/` never change, everything else is checked each time.
pub open spec fn cache_control_spec(path: Seq<char>) -> Seq<char> {
    if "/_app/"@.is_prefix_of(path) {
        "public, max-age=31536000, immutable"@
    } else {
        "no-cache"@
    }
}

/// The `Cache-Control` value for a static file.
pub fn cache_control(path: &str) -> (r: &'static str)
    ensures
        r@ == cache_control_spec(path@),
{
    let p = chars_of(path);
    if starts(p.as_slice(), "/_app/") {
        "public, max-age=31536000, immutable"
    } else {
        "no-cache"
    }
}

/// The notes actions a client posts.
#[derive(PartialEq, Eq, Structural, Clone, Copy)]
pub enum NotesAction {
    Write,
    Save,
    Rename,
    Delete,
    Folder,
    FolderDelete,
    Binary,
}

/// The field of a notes request that holds a path.
#[derive(PartialEq, Eq, Structural, Clone, Copy)]
pub enum PathField {
    Path,
    From,
    To,
    Dir,
}

/// The action a notes post names; `None` answers 404.
pub open spec fn notes_action_spec(path: Seq<char>) -> Option<NotesAction> {
    if path == "/api/notes/write"@ {
        Some(NotesAction::Write)
    } else if path == "/api/notes/save"@ {
        Some(NotesAction::Save)
    } else if path == "/api/notes/rename"@ {
        Some(NotesAction::Rename)
    } else if path == "/api/notes/delete"@ {
        Some(NotesAction::Delete)
    } else if path == "/api/notes/folder"@ {
        Some(NotesAction::Folder)
    } else if path == "/api/notes/folder-delete"@ {
        Some(NotesAction::FolderDelete)
    } else if path == "/api/notes/binary"@ {
        Some(NotesAction::Binary)
    } else {
        None
    }
}

/// The action of a notes post.
pub fn notes_action(path: &str) -> (r: Option<NotesAction>)
    ensures
        r == notes_action_spec(path@),
{
    if str_eq(path, "/api/notes/write") {
        Some(NotesAction::Write)
    } else if str_eq(path, "/api/notes/save") {
        Some(NotesAction::Save)
    } else if str_eq(path, "/api/notes/rename") {
        Some(NotesAction::Rename)
    } else if str_eq(path, "/api/notes/delete") {
        Some(NotesAction::Delete)
    } else if str_eq(path, "/api/notes/folder") {
        Some(NotesAction::Folder)
    } else if str_eq(path, "/api/notes/folder-delete") {
        Some(NotesAction::FolderDelete)
    } else if str_eq(path, "/api/notes/binary") {
        Some(NotesAction::Binary)
    } else {
        None
    }
}

/// The path fields an action validates, in order: the source and target
/// of a rename, the parent folder of a new folder, else the one path.
pub open spec fn action_fields_spec(a: NotesAction) -> Seq<PathField> {
    match a {
        NotesAction::Rename => seq![PathField::From, PathField::To],
        NotesAction::Folder => seq![PathField::Dir],
        _ => seq![PathField::Path],
    }
}

/// The path fields an action needs.
pub fn action_fields(a: NotesAction) -> (r: Vec<PathField>)
    ensures
        r@ == action_fields_spec(a),
{
    match a {
        NotesAction::Rename => vec![PathField::From, PathField::To],
        NotesAction::Folder => vec![PathField::Dir],
        _ => vec![PathField::Path],
    }
}

/// The history key of a saved note: the one the client sent, else the
/// stem of the note's file name (empty when it has none).
pub open spec fn save_key_spec(key: Option<Seq<char>>, target: Seq<char>) -> Seq<char> {
    match key {
        Some(k) => k,
        None => match file_stem(target) {
            Some(s) => s,
            None => seq![],
        },
    }
}

/// The history key of a saved note.
pub fn save_key(key: Option<&str>, target: &str) -> (r: String)
    ensures
        r@ == save_key_spec(match key {
            Some(k) => Some(k@),
            None => None,
        }, target@),
{
    match key {
        Some(k) => String::from_str(k),
        None => match path_file_stem(target) {
            Some(s) => string_from_chars(s.as_slice()),
            None => String::new(),
        },
    }
}

/// How many versions of a note its history keeps when the client names no count.
pub fn history_keep(keep: Option<u32>) -> (r: u32)
    ensures
        r == match keep {
            Some(k) => k,
            None => 50,
        },
{
    match keep {
        Some(k) => k,
        None => 50,
    }
}

/// The components of a `/`-separated path as `Path::components` yields
/// them: `/` for the root, `.` for a leading current-folder mark of a
/// relative path, then every segment but empty and `.` ones.
pub open spec fn components(p: Seq<char>) -> Seq<Seq<char>> {
    let segs = split_on(p, '/');
    let rooted = p.len() > 0 && p[0] == '/';
    let dotted = !rooted && segs[0] == "."@;
    let head: Seq<Seq<char>> = if rooted {
        seq!["/"@]
    } else if dotted {
        seq!["."@]
    } else {
        seq![]
    };
    let start: int = if rooted || dotted {
        1
    } else {
        0
    };
    head + segs.subrange(start, segs.len() as int).filter(|s: Seq<char>| s.len() > 0 && s != "."@)
}

/// Whether `target` lies at or under `root`, component by component, as
/// `Path::starts_with` tells it.
pub open spec fn within(root: Seq<char>, target: Seq<char>) -> bool {
    components(root).is_prefix_of(components(target))
}

fn components_of(p: &str) -> (r: Vec<Vec<char>>)
    ensures
        views(r@) == components(p@),
{
    let c = chars_of(p);
    let segs = split_chars(c.as_slice(), '/');
    proof {
        crate::text::lemma_split_on_len(p@, '/');
    }
    let rooted = c.len() > 0 && c[0] == '/';
    let dotted = !rooted && is_text(segs[0].as_slice(), ".");
    let mut out: Vec<Vec<char>> = Vec::new();
    let start: usize = if rooted {
        out.push(chars_of("/"));
        1
    } else if dotted {
        out.push(chars_of("."));
        1
    } else {
        0
    };
    let ghost head = views(out@);
    let ghost f = |s: Seq<char>| s.len() > 0 && s != "."@;
    let ghost sv = views(segs@);
    let mut i: usize = start;
    assert(sv.subrange(start as int, start as int) =~= Seq::<Seq<char>>::empty());
    while i < segs.len()
        invariant
            start <= i <= segs@.len(),
            sv == views(segs@),
            f == (|s: Seq<char>| s.len() > 0 && s != "."@),
            views(out@) == head + sv.subrange(start as int, i as int).filter(f),
        decreases segs@.len() - i,
    {
        let ghost before = views(out@);
        assert(sv.subrange(start as int, i + 1) =~= sv.subrange(start as int, i as int).push(sv[i as int]));
        proof {
            sv.subrange(start as int, i as int).lemma_filter_push(sv[i as int], f);
        }
        if segs[i].len() > 0 && !is_text(segs[i].as_slice(), ".") {
            out.push(segs[i].clone());
            assert(views(out@) =~= before.push(sv[i as int]));
        }
        i = i + 1;
    }
    out
}

/// Whether `target` lies at or under `root`.
pub fn path_within(root: &str, target: &str) -> (r: bool)
    ensures
        r == within(root@, target@),
{
    let a = components_of(root);
    let b = components_of(target);
    if a.len() > b.len() {
        return false;
    }
    let mut i: usize = 0;
    while i < a.len()
        invariant
            i <= a@.len(),
            a@.len() <= b@.len(),
            views(a@) == components(root@),
            views(b@) == components(target@),
            forall|k: int| 0 <= k < i ==> views(a@)[k] == views(b@)[k],
        decreases a@.len() - i,
    {
        if !crate::text::chars_eq(a[i].as_slice(), b[i].as_slice()) {
            assert(views(a@)[i as int] != views(b@)[i as int]);
            assert(views(b@).subrange(0, views(a@).len() as int)[i as int] == views(b@)[i as int]);
            assert(views(a@) != views(b@).subrange(0, views(a@).len() as int));
            return false;
        }
        i = i + 1;
    }
    assert(views(a@) =~= views(b@).subrange(0, views(a@).len() as int));
    true
}

/// The public status of the live server.
pub struct LiveStatus {
    pub port: u16,
    pub url: String,
}

/// The address the live server announces: the machine's network address
/// when one is known, so phones on the same network can join, else the
/// loopback address.
pub open spec fn live_url_spec(ip: Option<Seq<char>>, port: u16) -> Seq<char> {
    let host = match ip {
        Some(a) => a,
        None => "127.0.0.1"@,
    };
    "http://"@ + host + ":"@ + dec(port as nat)
}

/// The address of the live server on `port`.
pub fn live_url(ip: Option<&str>, port: u16) -> (r: String)
    ensures
        r@ == live_url_spec(match ip {
            Some(a) => Some(a@),
            None => None,
        }, port),
{
    let mut v = chars_of("http://");
    match ip {
        Some(a) => push_str(&mut v, a),
        None => push_str(&mut v, "127.0.0.1"),
    }
    push_str(&mut v, ":");
    let d = u64_dec(port as u64);
    push_chars(&mut v, d.as_slice());
    string_from_chars(v.as_slice())
}

/// The status the live server reports on `port`.
pub fn live_status(ip: Option<&str>, port: u16) -> (r: LiveStatus)
    ensures
        r.port == port,
        r.url@ == live_url_spec(match ip {
            Some(a) => Some(a@),
            None => None,
        }, port),
{
    LiveStatus { port, url: live_url(ip, port) }
}

/// What starting the live server on `port` does, given the port of the
/// running server: keep it when the port is the same, else (re)start.
pub fn start_keeps_running(running: Option<u16>, port: u16) -> (r: bool)
    ensures
        r == (running == Some(port)),
{
    match running {
        Some(p) => p == port,
        None => false,
    }
}

} // verus!
