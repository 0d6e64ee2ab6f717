//! Lists of names kept as JSON arrays in the settings table: the saved
//! vaults (notes folders) and the pinned notes of a vault.
use vstd::prelude::*;
use crate::text::{chars_of, push_str, str_eq, string_from_chars};

verus! {

/// The views of a list of strings.
pub open spec fn string_views(v: Seq<String>) -> Seq<Seq<char>> {
    v.map_values(|s: String| s@)
}

/// The strings a JSON array of strings holds, or `None` when `text` is not one.
pub uninterp spec fn json_string_list(text: Seq<char>) -> Option<Seq<Seq<char>>>;

/// `serde_json::from_str::<Vec<String>>`. What it claims: the result is
/// `json_string_list` of the text.
#[verifier::external_body]
fn parse_string_list(text: &str) -> (r: Option<Vec<String>>)
    ensures
        match r {
            Some(v) => json_string_list(text@) == Some(string_views(v@)),
            None => json_string_list(text@) is None,
        },
{
    serde_json::from_str::<Vec<String>>(text).ok()
}

/// The JSON array text of a list of strings.
pub uninterp spec fn json_array_text(items: Seq<Seq<char>>) -> Seq<char>;

/// `serde_json::to_string` of a `Vec<String>`, the empty text should it
/// fail (it does not for strings). What it claims: the result is
/// `json_array_text` of the strings, and `serde_json::from_str` reads the
/// same strings back from it.
#[verifier::external_body]
fn string_list_json(items: &[String]) -> (r: String)
    ensures
        r@ == json_array_text(string_views(items@)),
        json_string_list(r@) == Some(string_views(items@)),
{
    serde_json::to_string(items).unwrap_or_default()
}

/// A stored list: the array the setting holds, empty when the setting is
/// missing or holds no array of strings.
pub open spec fn stored_list(raw: Option<Seq<char>>) -> Seq<Seq<char>> {
    match raw {
        Some(t) => match json_string_list(t) {
            Some(v) => v,
            None => seq![],
        },
        None => seq![],
    }
}

/// Reads a stored list from the setting's value.
pub fn load_list(raw: Option<&str>) -> (r: Vec<String>)
    ensures
        string_views(r@) == stored_list(match raw {
            Some(t) => Some(t@),
            None => None,
        }),
{
    match raw {
        Some(t) => match parse_string_list(t) {
            Some(v) => v,
            None => {
                let e: Vec<String> = Vec::new();
                assert(string_views(e@) =~= Seq::<Seq<char>>::empty());
                e
            },
        },
        None => {
            let e: Vec<String> = Vec::new();
            assert(string_views(e@) =~= Seq::<Seq<char>>::empty());
            e
        },
    }
}

/// The text a list is stored as; reading it back gives the list.
pub fn store_list(items: &[String]) -> (r: String)
    ensures
        r@ == json_array_text(string_views(items@)),
        stored_list(Some(r@)) == string_views(items@),
{
    string_list_json(items)
}

fn position_of(items: &[String], x: &str) -> (r: Option<usize>)
    ensures
        match r {
            Some(i) => i < items@.len() && items@[i as int]@ == x@,
            None => !string_views(items@).contains(x@),
        },
{
    let mut i: usize = 0;
    while i < items.len()
        invariant
            i <= items@.len(),
            forall|k: int| 0 <= k < i ==> items@[k]@ != x@,
        decreases items@.len() - i,
    {
        if str_eq(items[i].as_str(), x) {
            return Some(i);
        }
        i = i + 1;
    }
    proof {
        if string_views(items@).contains(x@) {
            let k = choose|k: int| 0 <= k < string_views(items@).len() && string_views(items@)[k] == x@;
            assert(items@[k]@ == x@);
        }
    }
    None
}

fn copy_list(items: &[String]) -> (r: Vec<String>)
    ensures
        string_views(r@) == string_views(items@),
{
    let mut out: Vec<String> = Vec::new();
    let mut i: usize = 0;
    while i < items.len()
        invariant
            i <= items@.len(),
            string_views(out@) =~= string_views(items@).take(i as int),
        decreases items@.len() - i,
    {
        let ghost before = string_views(out@);
        out.push(items[i].clone());
        assert(string_views(out@) =~= before.push(items@[i as int]@));
        assert(string_views(items@).take(i + 1) =~= string_views(items@).take(i as int).push(items@[i as int]@));
        i = i + 1;
    }
    assert(string_views(items@).take(items@.len() as int) =~= string_views(items@));
    out
}

/// `items` with `x` added at the end, unless it is there already.
pub open spec fn with_item(items: Seq<Seq<char>>, x: Seq<char>) -> Seq<Seq<char>> {
    if items.contains(x) {
        items
    } else {
        items.push(x)
    }
}

/// `items` without every copy of `x`.
pub open spec fn without_item(items: Seq<Seq<char>>, x: Seq<char>) -> Seq<Seq<char>> {
    items.filter(|s: Seq<char>| s != x)
}

/// Adds `x` to a list unless it is there; whether the list changed.
pub fn add_item(items: &[String], x: &str) -> (r: (Vec<String>, bool))
    ensures
        string_views(r.0@) == with_item(string_views(items@), x@),
        r.1 == !string_views(items@).contains(x@),
{
    let mut out = copy_list(items);
    match position_of(items, x) {
        Some(i) => {
            assert(string_views(items@)[i as int] == x@);
            (out, false)
        },
        None => {
            let ghost before = string_views(out@);
            out.push(String::from_str(x));
            assert(string_views(out@) =~= before.push(x@));
            (out, true)
        },
    }
}

/// Removes every copy of `x` from a list.
pub fn remove_item(items: &[String], x: &str) -> (r: Vec<String>)
    ensures
        string_views(r@) == without_item(string_views(items@), x@),
{
    let ghost f = |s: Seq<char>| s != x@;
    let mut out: Vec<String> = Vec::new();
    let mut i: usize = 0;
    assert(string_views(items@).take(0) =~= Seq::<Seq<char>>::empty());
    while i < items.len()
        invariant
            i <= items@.len(),
            f == (|s: Seq<char>| s != x@),
            string_views(out@) == string_views(items@).take(i as int).filter(f),
        decreases items@.len() - i,
    {
        let ghost before = string_views(out@);
        assert(string_views(items@).take(i + 1) =~= string_views(items@).take(i as int).push(items@[i as int]@));
        proof {
            string_views(items@).take(i as int).lemma_filter_push(items@[i as int]@, f);
        }
        if !str_eq(items[i].as_str(), x) {
            out.push(items[i].clone());
            assert(string_views(out@) =~= before.push(items@[i as int]@));
        }
        i = i + 1;
    }
    assert(string_views(items@).take(items@.len() as int) =~= string_views(items@));
    out
}

/// Registers a vault that must not be registered yet.
pub fn register_vault(vaults: &[String], folder: &str) -> (r: Result<Vec<String>, String>)
    ensures
        match r {
            Ok(v) => !string_views(vaults@).contains(folder@) && string_views(v@) == string_views(vaults@).push(folder@),
            Err(e) => string_views(vaults@).contains(folder@) && e@ == "Vault already registered: "@ + folder@,
        },
{
    let (v, added) = add_item(vaults, folder);
    if added {
        Ok(v)
    } else {
        let mut m = chars_of("Vault already registered: ");
        push_str(&mut m, folder);
        Err(string_from_chars(m.as_slice()))
    }
}

/// The rows of the vault table: the active folder first (when one is set),
/// then every saved vault other than it, each with whether it is active.
pub open spec fn vault_rows_spec(current: Seq<char>, vaults: Seq<Seq<char>>) -> Seq<(Seq<char>, bool)> {
    let head: Seq<(Seq<char>, bool)> = if current.len() > 0 {
        seq![(current, true)]
    } else {
        seq![]
    };
    head + vaults.filter(|v: Seq<char>| v != current).map_values(|v: Seq<char>| (v, false))
}

/// The rows of the vault table.
pub fn vault_rows(current: &str, vaults: &[String]) -> (r: Vec<(String, bool)>)
    ensures
        r@.map_values(|p: (String, bool)| (p.0@, p.1)) == vault_rows_spec(current@, string_views(vaults@)),
{
    let others = remove_item(vaults, current);
    let mut out: Vec<(String, bool)> = Vec::new();
    let cur = chars_of(current);
    if cur.len() > 0 {
        out.push((String::from_str(current), true));
    }
    let ghost head = out@.map_values(|p: (String, bool)| (p.0@, p.1));
    assert(head =~= (if current@.len() > 0 {
        seq![(current@, true)]
    } else {
        Seq::<(Seq<char>, bool)>::empty()
    }));
    let mut i: usize = 0;
    while i < others.len()
        invariant
            i <= others@.len(),
            out@.map_values(|p: (String, bool)| (p.0@, p.1)) =~= head + string_views(others@).take(i as int).map_values(|v: Seq<char>| (v, false)),
        decreases others@.len() - i,
    {
        let ghost before = out@.map_values(|p: (String, bool)| (p.0@, p.1));
        out.push((others[i].clone(), false));
        assert(out@.map_values(|p: (String, bool)| (p.0@, p.1)) =~= before.push((others@[i as int]@, false)));
        assert(string_views(others@).take(i + 1) =~= string_views(others@).take(i as int).push(others@[i as int]@));
        assert(string_views(others@).take(i + 1).map_values(|v: Seq<char>| (v, false)) =~= string_views(others@).take(i as int).map_values(|v: Seq<char>| (v, false)).push((others@[i as int]@, false)));
        i = i + 1;
    }
    assert(string_views(others@).take(others@.len() as int) =~= string_views(others@));
    out
}

} // verus!
