//! The app settings the command line reads and writes: their defaults, the
//! check of a new value, the table of effective values, and the decimal
//! integers the checks read (as `str::parse` reads them).
use vstd::prelude::*;
use crate::order::{ascending, sort_names};
use crate::text::{chars_of, push_str, str_eq, string_from_chars, views};

verus! {

/// The value of an ASCII digit.
pub open spec fn digit_value(c: char) -> int {
    (c as int) - ('0' as int)
}

pub open spec fn is_digit(c: char) -> bool {
    '0' <= c && c <= '9'
}

pub open spec fn all_digits(s: Seq<char>) -> bool {
    forall|k: int| 0 <= k < s.len() ==> is_digit(#[trigger] s[k])
}

/// The number a run of decimal digits spells.
pub open spec fn digits_value(s: Seq<char>) -> int
    decreases s.len(),
{
    if s.len() == 0 {
        0
    } else {
        digits_value(s.drop_last()) * 10 + digit_value(s.last())
    }
}

/// The integer `s` spells as `str::parse` reads one: an optional `+` (or,
/// when `signed`, `-`) and at least one decimal digit, nothing else.
pub open spec fn int_text(s: Seq<char>, signed: bool) -> Option<int> {
    if s.len() == 0 {
        None
    } else if s[0] == '+' || (signed && s[0] == '-') {
        let rest = s.drop_first();
        if rest.len() > 0 && all_digits(rest) {
            Some(if s[0] == '-' {
                -digits_value(rest)
            } else {
                digits_value(rest)
            })
        } else {
            None
        }
    } else if all_digits(s) {
        Some(digits_value(s))
    } else {
        None
    }
}

/// What parsing `s` as an integer type with bounds `min..=max` gives.
pub open spec fn parse_in(s: Seq<char>, min: int, max: int) -> Option<int> {
    match int_text(s, min < 0) {
        Some(v) => if min <= v <= max {
            Some(v)
        } else {
            None
        },
        None => None,
    }
}

proof fn lemma_digits_nonneg(s: Seq<char>)
    requires
        all_digits(s),
    ensures
        digits_value(s) >= 0,
    decreases s.len(),
{
    if s.len() > 0 {
        lemma_digits_nonneg(s.drop_last());
    }
}

proof fn lemma_digits_grow(s: Seq<char>, i: int)
    requires
        all_digits(s),
        0 <= i <= s.len(),
    ensures
        digits_value(s.take(i)) <= digits_value(s),
    decreases s.len() - i,
{
    if i < s.len() {
        lemma_digits_grow(s, i + 1);
        assert(s.take(i + 1).drop_last() =~= s.take(i));
        lemma_digits_nonneg(s.take(i));
    } else {
        assert(s.take(i) =~= s);
    }
}

/// Reads the digits `s[from..]`; `None` when one is not a digit, or when
/// the number exceeds `limit`.
fn digits_upto(s: &[char], from: usize, limit: u64) -> (r: Option<u64>)
    requires
        from <= s@.len(),
    ensures
        match r {
            Some(v) => all_digits(s@.skip(from as int)) && v == digits_value(s@.skip(from as int)) && v <= limit,
            None => !all_digits(s@.skip(from as int)) || digits_value(s@.skip(from as int)) > limit,
        },
{
    let ghost t = s@.skip(from as int);
    let mut acc: u128 = 0;
    let mut over = false;
    let mut i: usize = from;
    assert(t.take(0) =~= Seq::<char>::empty());
    while i < s.len()
        invariant
            from <= i <= s@.len(),
            t == s@.skip(from as int),
            all_digits(t.take(i - from)),
            !over ==> acc == digits_value(t.take(i - from)) && acc <= limit,
            over ==> digits_value(t.take(i - from)) > limit,
        decreases s@.len() - i,
    {
        let c = s[i];
        if !('0' <= c && c <= '9') {
            proof {
                assert(t[i - from] == c);
                assert(!is_digit(t[i - from]));
            }
            return None;
        }
        let ghost k = i - from;
        assert(t.take(k + 1).drop_last() =~= t.take(k));
        assert(t.take(k + 1).last() == c);
        proof {
            lemma_digits_nonneg(t.take(k));
        }
        if !over {
            let d = (c as u32 - '0' as u32) as u128;
            assert(acc * 10 <= (limit as u128) * 10) by (nonlinear_arith)
                requires
                    acc <= limit,
            ;
            acc = acc * 10 + d;
            if acc > limit as u128 {
                over = true;
            }
        } else {
            assert(digits_value(t.take(k)) * 10 >= digits_value(t.take(k))) by (nonlinear_arith)
                requires
                    digits_value(t.take(k)) >= 0,
            ;
        }
        i = i + 1;
    }
    assert(t.take(s@.len() - from) =~= t);
    if over {
        None
    } else {
        Some(acc as u64)
    }
}

/// Reads `s` as `str::parse` reads an integer of a type whose values are
/// `min..=max` (signed when `min` is negative).
pub fn parse_int(s: &str, min: i64, max: i64) -> (r: Option<i64>)
    requires
        min <= 0 <= max,
    ensures
        match r {
            Some(v) => parse_in(s@, min as int, max as int) == Some(v as int),
            None => parse_in(s@, min as int, max as int) is None,
        },
{
    let c = chars_of(s);
    if c.len() == 0 {
        return None;
    }
    let neg = c[0] == '-' && min < 0;
    let from: usize = if c[0] == '+' || neg {
        1
    } else {
        0
    };
    if from == 1 && c.len() == 1 {
        return None;
    }
    assert(c@.skip(1) =~= c@.drop_first());
    assert(c@.skip(0) =~= c@);
    let limit: u64 = if neg {
        ((-(min as i128)) as u64)
    } else {
        max as u64
    };
    match digits_upto(c.as_slice(), from, limit) {
        None => {
            proof {
                if all_digits(c@.skip(from as int)) {
                    lemma_digits_nonneg(c@.skip(from as int));
                }
            }
            None
        },
        Some(v) => {
            if neg {
                Some((-(v as i128)) as i64)
            } else {
                Some(v as i64)
            }
        },
    }
}

/// The outcome of reading a value as JSON: not JSON, an array, an object,
/// or another JSON value.
pub enum JsonShape {
    Invalid,
    Array,
    Object,
    Other,
}

/// The shape of the JSON value `text` holds.
pub uninterp spec fn json_shape(text: Seq<char>) -> JsonShape;

/// `serde_json::from_str::<serde_json::Value>`, told apart by the value's
/// kind. What it claims: the result is `json_shape` of the text.
#[verifier::external_body]
fn json_shape_of(text: &str) -> (r: JsonShape)
    ensures
        r == json_shape(text@),
{
    match serde_json::from_str::<serde_json::Value>(text) {
        Ok(serde_json::Value::Array(_)) => JsonShape::Array,
        Ok(serde_json::Value::Object(_)) => JsonShape::Object,
        Ok(_) => JsonShape::Other,
        Err(_) => JsonShape::Invalid,
    }
}

/// The keys the settings page knows, in the order the defaults list them.
pub open spec fn known_keys_text() -> Seq<char> {
    "theme, sidebarCollapsed, defaultViewMode, defaultStatus, defaultPriority, dueSoonThreshold, prefixPadding, backupEnabled, backupIntervalHours, backupKeepCount, liveEnabled, livePort, sidebarItems, shortcuts"@
}

/// Why `value` is refused for setting `key`, or `None` when it is accepted.
pub open spec fn setting_error(key: Seq<char>, value: Seq<char>) -> Option<Seq<char>> {
    if key == "theme"@ {
        if value == "dark"@ || value == "light"@ || value == "system"@ {
            None
        } else {
            Some("theme must be: dark, light, or system"@)
        }
    } else if key == "sidebarCollapsed"@ || key == "backupEnabled"@ || key == "liveEnabled"@ {
        if value == "true"@ || value == "false"@ {
            None
        } else {
            Some(key + " must be true or false"@)
        }
    } else if key == "livePort"@ {
        match parse_in(value, 0, 65535) {
            None => Some("livePort must be a number between 1024 and 65535"@),
            Some(p) => if p >= 1024 {
                None
            } else {
                Some("livePort must be between 1024 and 65535"@)
            },
        }
    } else if key == "defaultViewMode"@ {
        if value == "list"@ || value == "board"@ || value == "calendar"@ {
            None
        } else {
            Some("defaultViewMode must be: list, board, or calendar"@)
        }
    } else if key == "defaultStatus"@ {
        if value == "todo"@ || value == "in_progress"@ {
            None
        } else {
            Some("defaultStatus must be: todo or in_progress"@)
        }
    } else if key == "defaultPriority"@ {
        match parse_in(value, -0x8000_0000, 0x7fff_ffff) {
            Some(p) => if 0 <= p <= 4 {
                None
            } else {
                Some("defaultPriority must be 0-4"@)
            },
            None => Some("defaultPriority must be 0-4"@),
        }
    } else if key == "dueSoonThreshold"@ || key == "prefixPadding"@ || key == "backupIntervalHours"@
        || key == "backupKeepCount"@ {
        match parse_in(value, i64::MIN as int, i64::MAX as int) {
            None => Some(key + " must be a number"@),
            Some(n) => if n < 0 {
                Some(key + " must be 0 or greater"@)
            } else if (key == "backupIntervalHours"@ || key == "backupKeepCount"@) && n == 0 {
                Some(key + " must be greater than 0"@)
            } else {
                None
            },
        }
    } else if key == "sidebarItems"@ {
        match json_shape(value) {
            JsonShape::Invalid => Some("sidebarItems must be a valid JSON array"@),
            JsonShape::Array => None,
            _ => Some("sidebarItems must be a JSON array"@),
        }
    } else if key == "shortcuts"@ {
        match json_shape(value) {
            JsonShape::Invalid => Some("shortcuts must be a valid JSON object"@),
            JsonShape::Object => None,
            _ => Some("shortcuts must be a JSON object"@),
        }
    } else {
        Some("Invalid key '"@ + key + "'. Valid: "@ + known_keys_text())
    }
}

fn with_suffix(key: &str, suffix: &str) -> (r: String)
    ensures
        r@ == key@ + suffix@,
{
    let mut v = chars_of(key);
    push_str(&mut v, suffix);
    string_from_chars(v.as_slice())
}

fn is_one_of3(value: &str, a: &str, b: &str, c: &str) -> (r: bool)
    ensures
        r == (value@ == a@ || value@ == b@ || value@ == c@),
{
    str_eq(value, a) || str_eq(value, b) || str_eq(value, c)
}

/// Checks a new value for a setting the way the settings page does.
pub fn validate_value(key: &str, value: &str) -> (r: Result<(), String>)
    ensures
        match r {
            Ok(()) => setting_error(key@, value@) is None,
            Err(e) => setting_error(key@, value@) == Some(e@),
        },
{
    if str_eq(key, "theme") {
        if is_one_of3(value, "dark", "light", "system") {
            Ok(())
        } else {
            Err(String::from_str("theme must be: dark, light, or system"))
        }
    } else if is_one_of3(key, "sidebarCollapsed", "backupEnabled", "liveEnabled") {
        if str_eq(value, "true") || str_eq(value, "false") {
            Ok(())
        } else {
            Err(with_suffix(key, " must be true or false"))
        }
    } else if str_eq(key, "livePort") {
        match parse_int(value, 0, 65535) {
            None => Err(String::from_str("livePort must be a number between 1024 and 65535")),
            Some(p) => if p >= 1024 {
                Ok(())
            } else {
                Err(String::from_str("livePort must be between 1024 and 65535"))
            },
        }
    } else if str_eq(key, "defaultViewMode") {
        if is_one_of3(value, "list", "board", "calendar") {
            Ok(())
        } else {
            Err(String::from_str("defaultViewMode must be: list, board, or calendar"))
        }
    } else if str_eq(key, "defaultStatus") {
        if str_eq(value, "todo") || str_eq(value, "in_progress") {
            Ok(())
        } else {
            Err(String::from_str("defaultStatus must be: todo or in_progress"))
        }
    } else if str_eq(key, "defaultPriority") {
        match parse_int(value, -0x8000_0000, 0x7fff_ffff) {
            Some(p) => if 0 <= p && p <= 4 {
                Ok(())
            } else {
                Err(String::from_str("defaultPriority must be 0-4"))
            },
            None => Err(String::from_str("defaultPriority must be 0-4")),
        }
    } else if str_eq(key, "dueSoonThreshold") || str_eq(key, "prefixPadding") || str_eq(key, "backupIntervalHours")
        || str_eq(key, "backupKeepCount") {
        match parse_int(value, i64::MIN, i64::MAX) {
            None => Err(with_suffix(key, " must be a number")),
            Some(n) => if n < 0 {
                Err(with_suffix(key, " must be 0 or greater"))
            } else if (str_eq(key, "backupIntervalHours") || str_eq(key, "backupKeepCount")) && n == 0 {
                Err(with_suffix(key, " must be greater than 0"))
            } else {
                Ok(())
            },
        }
    } else if str_eq(key, "sidebarItems") {
        match json_shape_of(value) {
            JsonShape::Invalid => Err(String::from_str("sidebarItems must be a valid JSON array")),
            JsonShape::Array => Ok(()),
            _ => Err(String::from_str("sidebarItems must be a JSON array")),
        }
    } else if str_eq(key, "shortcuts") {
        match json_shape_of(value) {
            JsonShape::Invalid => Err(String::from_str("shortcuts must be a valid JSON object")),
            JsonShape::Object => Ok(()),
            _ => Err(String::from_str("shortcuts must be a JSON object")),
        }
    } else {
        let mut v = chars_of("Invalid key '");
        push_str(&mut v, key);
        push_str(&mut v, "'. Valid: ");
        push_str(&mut v, "theme, sidebarCollapsed, defaultViewMode, defaultStatus, defaultPriority, dueSoonThreshold, prefixPadding, backupEnabled, backupIntervalHours, backupKeepCount, liveEnabled, livePort, sidebarItems, shortcuts");
        Err(string_from_chars(v.as_slice()))
    }
}

/// The settings and their defaults, in the order the settings page lists them.
pub open spec fn defaults_spec() -> Seq<(Seq<char>, Seq<char>)> {
    seq![
        ("theme"@, "dark"@),
        ("sidebarCollapsed"@, "false"@),
        ("defaultViewMode"@, "list"@),
        ("defaultStatus"@, "todo"@),
        ("defaultPriority"@, "0"@),
        ("dueSoonThreshold"@, "1"@),
        ("prefixPadding"@, "0"@),
        ("backupEnabled"@, "true"@),
        ("backupIntervalHours"@, "24"@),
        ("backupKeepCount"@, "7"@),
        ("liveEnabled"@, "false"@),
        ("livePort"@, "17890"@),
        ("sidebarItems"@, SIDEBAR_ITEMS@),
        ("shortcuts"@, SHORTCUTS@),
    ]
}

/// The default order and visibility of the sidebar sections.
pub const SIDEBAR_ITEMS: &'static str = "[{\"id\":\"pinned\",\"visible\":true},{\"id\":\"today\",\"visible\":true},{\"id\":\"upcoming\",\"visible\":true},{\"id\":\"overdue\",\"visible\":true},{\"id\":\"status\",\"visible\":true},{\"id\":\"priority\",\"visible\":true},{\"id\":\"quickStats\",\"visible\":true}]";

/// The default keyboard shortcuts.
pub const SHORTCUTS: &'static str = "{\"command-palette\":[{\"key\":\"k\",\"mod\":\"metaOrCtrl\"}],\"new-task\":[{\"key\":\"c\"}],\"new-project\":[{\"key\":\"n\"}],\"toggle-sidebar\":[{\"key\":\"b\",\"mod\":\"metaOrCtrl\"}],\"toggle-view\":[{\"key\":\"\\\\\",\"mod\":\"metaOrCtrl\"}],\"select-all\":[{\"key\":\"a\",\"mod\":\"metaOrCtrl\"}],\"close\":[{\"key\":\"Escape\"}],\"save-task\":[{\"key\":\"Enter\",\"mod\":\"metaOrCtrl\"}]}";

/// The settings and their defaults.
pub fn setting_defaults() -> (r: Vec<(&'static str, &'static str)>)
    ensures
        r@.len() == defaults_spec().len(),
        forall|k: int| 0 <= k < r@.len() ==> ((#[trigger] r@[k]).0@, r@[k].1@) == defaults_spec()[k],
{
    vec![
        ("theme", "dark"),
        ("sidebarCollapsed", "false"),
        ("defaultViewMode", "list"),
        ("defaultStatus", "todo"),
        ("defaultPriority", "0"),
        ("dueSoonThreshold", "1"),
        ("prefixPadding", "0"),
        ("backupEnabled", "true"),
        ("backupIntervalHours", "24"),
        ("backupKeepCount", "7"),
        ("liveEnabled", "false"),
        ("livePort", "17890"),
        ("sidebarItems", SIDEBAR_ITEMS),
        ("shortcuts", SHORTCUTS),
    ]
}

/// The setting keys, in the order of the defaults.
pub open spec fn default_keys() -> Seq<Seq<char>> {
    defaults_spec().map_values(|p: (Seq<char>, Seq<char>)| p.0)
}

/// The default of `key`: the value of the first default with that key.
pub open spec fn default_of(ds: Seq<(Seq<char>, Seq<char>)>, key: Seq<char>) -> Seq<char>
    decreases ds.len(),
{
    if ds.len() == 0 {
        seq![]
    } else if ds[0].0 == key {
        ds[0].1
    } else {
        default_of(ds.drop_first(), key)
    }
}

/// The stored value of `key`: the last stored pair with that key wins.
pub open spec fn stored_value(stored: Seq<(Seq<char>, Seq<char>)>, key: Seq<char>) -> Option<Seq<char>>
    decreases stored.len(),
{
    if stored.len() == 0 {
        None
    } else if stored.last().0 == key {
        Some(stored.last().1)
    } else {
        stored_value(stored.drop_last(), key)
    }
}

/// What a setting reads as: its stored value, else its default.
pub open spec fn effective_value(stored: Seq<(Seq<char>, Seq<char>)>, key: Seq<char>) -> Seq<char> {
    match stored_value(stored, key) {
        Some(v) => v,
        None => default_of(defaults_spec(), key),
    }
}

/// The views of stored `(key, value)` rows.
pub open spec fn pair_views(rows: Seq<(String, String)>) -> Seq<(Seq<char>, Seq<char>)> {
    rows.map_values(|p: (String, String)| (p.0@, p.1@))
}

fn stored_lookup(stored: &[(String, String)], key: &[char]) -> (r: Option<String>)
    ensures
        match r {
            Some(v) => stored_value(pair_views(stored@), key@) == Some(v@),
            None => stored_value(pair_views(stored@), key@) is None,
        },
{
    let mut i: usize = stored.len();
    assert(pair_views(stored@).take(stored@.len() as int) =~= pair_views(stored@));
    while i > 0
        invariant
            i <= stored@.len(),
            stored_value(pair_views(stored@), key@) == stored_value(pair_views(stored@).take(i as int), key@),
        decreases i,
    {
        let k = chars_of(stored[i - 1].0.as_str());
        assert(pair_views(stored@).take(i as int).drop_last() =~= pair_views(stored@).take(i - 1));
        if crate::text::chars_eq(k.as_slice(), key) {
            return Some(stored[i - 1].1.clone());
        }
        i = i - 1;
    }
    None
}

fn default_lookup(key: &[char]) -> (r: String)
    ensures
        r@ == default_of(defaults_spec(), key@),
{
    let ds = setting_defaults();
    let mut i: usize = 0;
    assert(defaults_spec().skip(0) =~= defaults_spec());
    while i < ds.len()
        invariant
            i <= ds@.len(),
            ds@.len() == defaults_spec().len(),
            forall|k: int| 0 <= k < ds@.len() ==> ((#[trigger] ds@[k]).0@, ds@[k].1@) == defaults_spec()[k],
            default_of(defaults_spec(), key@) == default_of(defaults_spec().skip(i as int), key@),
        decreases ds@.len() - i,
    {
        let k = chars_of(ds[i].0);
        assert(defaults_spec().skip(i as int).drop_first() =~= defaults_spec().skip(i + 1));
        if crate::text::chars_eq(k.as_slice(), key) {
            return String::from_str(ds[i].1);
        }
        i = i + 1;
    }
    String::new()
}

/// Every setting with the value it reads as, sorted by key: the stored
/// value where there is one, else the default; stored keys the settings
/// page does not know are left out.
pub fn effective_settings(stored: &[(String, String)]) -> (r: Vec<(String, String)>)
    ensures
        r@.len() == default_keys().len(),
        forall|k: int| #![trigger r@[k]] 0 <= k < r@.len() ==> {
            let key = default_keys().sort_by(ascending())[k];
            &&& r@[k].0@ == key
            &&& r@[k].1@ == effective_value(pair_views(stored@), key)
        },
{
    let ds = setting_defaults();
    let mut keys: Vec<Vec<char>> = Vec::new();
    let mut i: usize = 0;
    while i < ds.len()
        invariant
            i <= ds@.len(),
            ds@.len() == defaults_spec().len(),
            forall|k: int| 0 <= k < ds@.len() ==> ((#[trigger] ds@[k]).0@, ds@[k].1@) == defaults_spec()[k],
            views(keys@) =~= default_keys().take(i as int),
        decreases ds@.len() - i,
    {
        let ghost before = views(keys@);
        keys.push(chars_of(ds[i].0));
        assert(views(keys@) =~= before.push(ds@[i as int].0@));
        assert(default_keys()[i as int] == defaults_spec()[i as int].0);
        assert(default_keys().take(i + 1) =~= default_keys().take(i as int).push(default_keys()[i as int]));
        i = i + 1;
    }
    assert(default_keys().take(default_keys().len() as int) =~= default_keys());
    let sorted = sort_names(keys, false);
    proof {
        crate::order::lemma_orders_total();
        default_keys().lemma_sort_by_ensures(ascending());
        assert(views(sorted@).len() == default_keys().len()) by {
            vstd::seq_lib::to_multiset_len(default_keys());
            vstd::seq_lib::to_multiset_len(default_keys().sort_by(ascending()));
        }
    }
    let mut out: Vec<(String, String)> = Vec::new();
    let mut k: usize = 0;
    while k < sorted.len()
        invariant
            k <= sorted@.len(),
            views(sorted@) == default_keys().sort_by(ascending()),
            out@.len() == k,
            forall|m: int| #![trigger out@[m]] 0 <= m < k ==> {
                let key = default_keys().sort_by(ascending())[m];
                &&& out@[m].0@ == key
                &&& out@[m].1@ == effective_value(pair_views(stored@), key)
            },
        decreases sorted@.len() - k,
    {
        let key = &sorted[k];
        let value = match stored_lookup(stored, key.as_slice()) {
            Some(v) => v,
            None => default_lookup(key.as_slice()),
        };
        out.push((string_from_chars(key.as_slice()), value));
        k = k + 1;
    }
    out
}

} // verus!
