//! Properties of the library as a whole: what one operation keeps, what
//! another undoes, and what a later read gives back of an earlier write.
use vstd::prelude::*;
use crate::backup::{backup_names, counts, is_backup_name, newest_first, rotation_spec, valid_backup_name, BackupEntry};
use crate::events::{current_port_spec, frame_spec, read_line_spec};
use crate::hub::{conns, count_after, lemma_join_counts, lemma_leave_counts, op_id, op_step, PresenceOp};
use crate::hub::{index_of, lemma_index_of, next_generation, presence_wf, ClientView};
use crate::migrate::{lemma_without_none, lemma_without_self, plan_spec, without};
use crate::notetext::html_escape_spec;
use crate::notefiles::{image_markers, image_starts, images_from, lemma_images_from, remote_target};
use crate::order::{code_le, descending, lemma_orders_total};
use crate::query::{is_digit as sql_digit, lemma_placeholders_pointwise, placeholder_char, classify_spec, placeholders_from, stacked, table_name, target_word, verb_of, writable_table, Statement};
use crate::text::{join, lemma_skip_ws, skip_ws, words};
use crate::tasks::{fts_phrase, fts_query_spec};
use crate::settings::{
    setting_error, all_digits, default_of, defaults_spec, digit_value, digits_value, effective_value, int_text, is_digit, parse_in,
};
use crate::taskedit::{edit_log, edited, ov, FieldsView, TaskEdit};
use crate::text::{lower, lower_seq, upper, upper_seq};
use crate::text::{dec, digit_char, eq_ignore_case, is_ws, strip_end, strip_start, trim, CharClass};
use crate::vaults::{with_item, without_item};
use crate::http::{attachment_id_spec, backup_name_spec, id_char, pct_decode_from, utf8_text};
use crate::route::{decision_spec, route_spec, static_target_spec, Decision, Method, Route};
use crate::auth::{authorized_spec, closed_token};
use crate::auth::{
    query_token, auth_key, auth_mode, before_char, cookie_part_ok, header_ok, pbkdf2_iterations, pbkdf2_spec, session_cookie_spec,
    stores, SettingRead,
};
use crate::text::{lemma_split_without_sep, split_on};
use crate::notetext::{body_tags, frontmatter, note_tags_spec, set_tags_spec};
use crate::notetext::line_block;
use crate::tagtrip::{
    kept_index, lemma_kept_index, lemma_line_in_block, lemma_line_block_concat as lemma_block_concat,
    item_lines, kept_of, lemma_body_tags_after_break, lemma_fm_tags_of_block, lemma_fm_tags_of_kept,
    lemma_frontmatter_of_block, lemma_item_lines_facts, lemma_kept_of_facts, lemma_set_tags_shape, writable_tags,
};
use vstd::utf8::{decode_utf8, encode_utf8, valid_utf8};
use crate::notetext::{hex_upper, uri_encode, uri_unreserved};
use crate::notetext::{mention_token, replace_all, rewrite_from};
use crate::mentionfacts::{lemma_no_find_no_occurrence, lemma_replace_copies, lemma_replace_leaves_none, lemma_token_bracket_led, lemma_tokens_differ, occurs_at};

verus! {

/// A signalled change is always seen: the generation after a change
/// differs from the one before, so `changed_since` of the old one is true.
pub proof fn law_change_is_seen(g: u64)
    ensures
        next_generation(g) != g,
{
}

/// A client that joins and then leaves leaves the presence list as it was:
/// the new entry (one connection, an id nobody else has) is the one found
/// and removed.
pub proof fn law_join_then_leave(before: Seq<ClientView>, pos: int, c: ClientView)
    requires
        presence_wf(before),
        index_of(before, c.id) == -1,
        c.connections == 1,
        0 <= pos <= before.len(),
        presence_wf(before.insert(pos, c)),
    ensures
        index_of(before.insert(pos, c), c.id) == pos,
        before.insert(pos, c)[pos].connections <= 1,
        before.insert(pos, c).remove(pos) == before,
{
    let after = before.insert(pos, c);
    lemma_index_of(after, c.id);
    lemma_index_of(before, c.id);
    let k = index_of(after, c.id);
    assert(after[pos] == c);
    if k != pos {
        if k < 0 {
            assert(after[pos].id != c.id);
        } else if k < pos {
            assert(after[k] == before[k]);
        } else {
            assert(after[k] == before[k - 1]);
        }
    }
    assert(after.remove(pos) =~= before);
}

/// The number a numeral of digits spells is the number it was written from.
pub proof fn lemma_dec_reads_back(n: nat)
    ensures
        all_digits(dec(n)),
        digits_value(dec(n)) == n,
        dec(n).len() >= 1,
        is_digit(dec(n)[0]),
    decreases n,
{
    if n < 10 {
        assert(dec(n) == seq![digit_char(n)]);
        assert(dec(n).drop_last() =~= Seq::<char>::empty());
        assert(digit_value(digit_char(n)) == n);
        assert(digits_value(Seq::<char>::empty()) == 0);
        assert(dec(n).last() == digit_char(n));
        assert(digits_value(dec(n)) == digits_value(dec(n).drop_last()) * 10 + digit_value(dec(n).last()));
    } else {
        lemma_dec_reads_back(n / 10);
        let d = dec(n / 10);
        assert(dec(n) == d + seq![digit_char(n % 10)]);
        assert(dec(n).drop_last() =~= d);
        assert(dec(n).last() == digit_char(n % 10));
        assert(digit_value(digit_char(n % 10)) == n % 10);
        assert forall|k: int| 0 <= k < dec(n).len() implies is_digit(#[trigger] dec(n)[k]) by {
            if k < d.len() {
                assert(dec(n)[k] == d[k]);
            }
        }
        assert(dec(n)[0] == d[0]);
        assert(digits_value(dec(n)) == digits_value(d) * 10 + digit_value(dec(n).last()));
        assert((n / 10) * 10 + n % 10 == n) by (nonlinear_arith);
        assert(digits_value(d) == n / 10);
    }
}

/// The port `live on` stores is the port the live commands read back.
pub proof fn law_port_reads_back(port: u16)
    ensures
        current_port_spec(Some(dec(port as nat))) == port,
{
    lemma_dec_reads_back(port as nat);
    let t = dec(port as nat);
    assert(t[0] != '+' && t[0] != '-');
    assert(int_text(t, false) == Some(port as int));
    assert(parse_in(t, 0, 65535) == Some(port as int));
}

/// With nothing stored, every setting reads as its default.
pub proof fn law_unset_settings_read_defaults(key: Seq<char>)
    ensures
        effective_value(Seq::<(Seq<char>, Seq<char>)>::empty(), key) == default_of(defaults_spec(), key),
{
}

/// Adding a vault (or a pin) twice is adding it once; after adding it the
/// list holds it; removing it afterwards leaves no copy of it.
pub proof fn law_list_add_remove(items: Seq<Seq<char>>, x: Seq<char>)
    ensures
        with_item(with_item(items, x), x) == with_item(items, x),
        with_item(items, x).contains(x),
        !without_item(with_item(items, x), x).contains(x),
{
    if !items.contains(x) {
        assert(items.push(x)[items.len() as int] == x);
    }
    let w = without_item(with_item(items, x), x);
    if w.contains(x) {
        let k = choose|k: int| 0 <= k < w.len() && w[k] == x;
        with_item(items, x).lemma_filter_contains_rev(|s: Seq<char>| s != x, x);
        assert(false) by {
            broadcast use vstd::seq_lib::group_filter_ensures;
            assert((|s: Seq<char>| s != x)(w[k]));
        }
    }
}

/// An edit that gives no field changes nothing and logs nothing.
pub proof fn law_empty_edit(cur: FieldsView, e: TaskEdit)
    requires
        e.title is None,
        e.description is None,
        e.status is None,
        e.priority is None,
        e.due_date is None,
        e.end_date is None,
        e.reminder is None,
    ensures
        edited(cur, e) == cur,
        edit_log(cur, edited(cur, e)) == Seq::<(Seq<char>, Option<Seq<char>>, Option<Seq<char>>, Option<Seq<char>>)>::empty(),
{
    assert(edit_log(cur, cur) =~= Seq::<(Seq<char>, Option<Seq<char>>, Option<Seq<char>>, Option<Seq<char>>)>::empty());
}

/// An edit logs one entry per changed field among status, priority,
/// title and reminder, and a status change comes first.
pub proof fn law_edit_logs_changes(cur: FieldsView, next: FieldsView)
    ensures
        edit_log(cur, next).len() == (if next.status != cur.status { 1int } else { 0int }) + (if next.priority
            != cur.priority {
            1int
        } else {
            0int
        }) + (if next.title != cur.title {
            1int
        } else {
            0int
        }) + (if next.reminder_at != cur.reminder_at {
            1int
        } else {
            0int
        }),
        next.status != cur.status ==> edit_log(cur, next)[0].0 == "status_changed"@,
{
}

/// A rotation that keeps `keep` backups removes exactly the ones after the
/// `keep` newest; keeping 0 removes none.
pub proof fn law_rotation_keeps_newest(es: Seq<BackupEntry>, keep: nat)
    ensures
        keep == 0 ==> rotation_spec(es, keep) == Seq::<Seq<char>>::empty(),
        keep > 0 ==> newest_first(es, false).take(if keep < newest_first(es, false).len() {
            keep as int
        } else {
            newest_first(es, false).len() as int
        }) + rotation_spec(es, keep) == newest_first(es, false),
{
    let all = newest_first(es, false);
    if keep > 0 {
        if keep < all.len() {
            assert(all.take(keep as int) + all.skip(keep as int) =~= all);
        } else {
            assert(all.take(all.len() as int) + Seq::<Seq<char>>::empty() =~= all);
        }
    }
}

/// A database that has never been migrated gets every migration, in
/// order; one whose tracking table records every known version gets none;
/// a dropped tracking row is never of a version this program knows.
pub proof fn law_migration_plan(known: Seq<i64>, recorded: Seq<i64>, drop_unknown: bool)
    ensures
        plan_spec(known, None, false, drop_unknown).1 == known,
        (forall|k: int| 0 <= k < known.len() ==> recorded.contains(#[trigger] known[k])) ==> plan_spec(
            known,
            Some(recorded),
            true,
            drop_unknown,
        ).1 == Seq::<i64>::empty(),
        forall|k: int| 0 <= k < plan_spec(known, Some(recorded), true, drop_unknown).0.len() ==> !known.contains(
            #[trigger] plan_spec(known, Some(recorded), true, drop_unknown).0[k],
        ),
{
    lemma_without_none(known);
    if forall|k: int| 0 <= k < known.len() ==> recorded.contains(#[trigger] known[k]) {
        lemma_without_self(known, recorded);
    }
    if drop_unknown {
        lemma_without_excludes(recorded, known);
    }
}

proof fn lemma_without_excludes(s: Seq<i64>, other: Seq<i64>)
    ensures
        forall|k: int| 0 <= k < without(s, other).len() ==> !other.contains(#[trigger] without(s, other)[k]),
    decreases s.len(),
{
    if s.len() > 0 {
        lemma_without_excludes(s.drop_last(), other);
        let rest = without(s.drop_last(), other);
        assert forall|k: int| 0 <= k < without(s, other).len() implies !other.contains(#[trigger] without(s, other)[k]) by {
            if !other.contains(s.last()) && k == rest.len() {
            } else {
                assert(without(s, other)[k] == rest[k]);
            }
        }
    }
}

/// Trimming `s` behind a leading space gives `s` back when `s` has no
/// whitespace at either end.
proof fn lemma_trim_after_space(s: Seq<char>)
    requires
        s.len() > 0,
        !is_ws(s[0]),
        !is_ws(s.last()),
    ensures
        trim(seq![' '] + s) == s,
{
    let t = seq![' '] + s;
    assert(t.drop_first() =~= s);
    assert(strip_start(t, CharClass::Whitespace) == strip_start(s, CharClass::Whitespace));
    assert(strip_start(s, CharClass::Whitespace) == s);
    assert(strip_end(s, CharClass::Whitespace) == s);
}

/// The command line's reader gives back the events the live server writes:
/// the lines of a `connected` or `db-changed` frame, read by a fresh
/// reader, report that event with the frame's data, and leave the reader
/// fresh again.
pub proof fn law_stream_frames_read_back(name: Seq<char>, generation: u64)
    requires
        name == "connected"@ || name == "db-changed"@,
    ensures
        ({
            let data = "{\"generation\":"@ + dec(generation as nat) + "}"@;
            let l1 = "event: "@ + name;
            let l2 = "data: "@ + data;
            let (e1, d1, o1) = read_line_spec(seq![], seq![], l1);
            let (e2, d2, o2) = read_line_spec(e1, d1, l2);
            let (e3, d3, o3) = read_line_spec(e2, d2, seq![]);
            &&& frame_spec(name, generation) == l1 + "\r\n"@ + l2 + "\r\n\r\n"@
            &&& o1 is None
            &&& o2 is None
            &&& o3 == Some((name, data))
            &&& e3.len() == 0
            &&& d3.len() == 0
        }),
{
    reveal_strlit("connected");
    reveal_strlit("db-changed");
    reveal_strlit("event: ");
    reveal_strlit("data: ");
    reveal_strlit("event:");
    reveal_strlit("data:");
    reveal_strlit("{\"generation\":");
    reveal_strlit("}");
    reveal_strlit("\r\n");
    reveal_strlit("\r\n\r\n");
    reveal_strlit("\r\ndata: {\"generation\":");
    reveal_strlit("}\r\n\r\n");
    let data = "{\"generation\":"@ + dec(generation as nat) + "}"@;
    let l1 = "event: "@ + name;
    let l2 = "data: "@ + data;
    assert(frame_spec(name, generation) =~= l1 + "\r\n"@ + l2 + "\r\n\r\n"@);
    assert("event:"@.is_prefix_of(l1)) by {
        assert(l1.subrange(0, 6) =~= "event:"@);
    }
    assert(l1.subrange(6, l1.len() as int) =~= seq![' '] + name);
    lemma_trim_after_space(name);
    assert(!"event:"@.is_prefix_of(l2)) by {
        assert(l2[0] == 'd');
        assert(l2.subrange(0, 6)[0] == 'd');
        assert("event:"@[0] == 'e');
    }
    assert("data:"@.is_prefix_of(l2)) by {
        assert(l2.subrange(0, 5) =~= "data:"@);
    }
    assert(l2.subrange(5, l2.len() as int) =~= seq![' '] + data);
    assert(data[0] == '{');
    assert(data.last() == '}');
    lemma_trim_after_space(data);
    assert(!"event:"@.is_prefix_of(Seq::<char>::empty()));
    assert(!"data:"@.is_prefix_of(Seq::<char>::empty()));
}

/// Text without `$` goes through the placeholder rewrite unchanged.
pub proof fn law_no_placeholders_unchanged(s: Seq<char>)
    requires
        !s.contains('$'),
    ensures
        placeholders_from(s, 0) == s,
{
    lemma_placeholders_plain(s, 0);
    assert(s.subrange(0, s.len() as int) =~= s);
}

proof fn lemma_placeholders_plain(s: Seq<char>, i: int)
    requires
        !s.contains('$'),
        0 <= i <= s.len(),
    ensures
        placeholders_from(s, i) == s.subrange(i, s.len() as int),
    decreases s.len() - i,
{
    if i < s.len() {
        assert(s[i] != '$');
        lemma_placeholders_plain(s, i + 1);
        assert(s.subrange(i, s.len() as int) =~= seq![s[i]] + s.subrange(i + 1, s.len() as int));
    } else {
        assert(s.subrange(i, s.len() as int) =~= Seq::<char>::empty());
    }
}

/// Bytes without `%` come out of percent-decoding unchanged.
pub proof fn law_no_escapes_unchanged(b: Seq<u8>)
    requires
        !b.contains(0x25),
    ensures
        pct_decode_from(b, 0) == b,
{
    lemma_pct_plain(b, 0);
    assert(b.subrange(0, b.len() as int) =~= b);
}

proof fn lemma_pct_plain(b: Seq<u8>, i: int)
    requires
        !b.contains(0x25),
        0 <= i <= b.len(),
    ensures
        pct_decode_from(b, i) == b.subrange(i, b.len() as int),
    decreases b.len() - i,
{
    if i < b.len() {
        assert(b[i] != 0x25);
        lemma_pct_plain(b, i + 1);
        assert(b.subrange(i, b.len() as int) =~= seq![b[i]] + b.subrange(i + 1, b.len() as int));
    } else {
        assert(b.subrange(i, b.len() as int) =~= Seq::<u8>::empty());
    }
}

/// Escaped text holds no markup: neither `<` nor `>` survive the escape.
pub proof fn law_escaped_has_no_markup(text: Seq<char>)
    ensures
        !html_escape_spec(text).contains('<'),
        !html_escape_spec(text).contains('>'),
    decreases text.len(),
{
    reveal_strlit("&amp;");
    reveal_strlit("&lt;");
    reveal_strlit("&gt;");
    if text.len() > 0 {
        law_escaped_has_no_markup(text.drop_last());
        let prev = html_escape_spec(text.drop_last());
        let c = text.last();
        let piece = if c == '&' {
            "&amp;"@
        } else if c == '<' {
            "&lt;"@
        } else if c == '>' {
            "&gt;"@
        } else {
            seq![c]
        };
        assert(!piece.contains('<') && !piece.contains('>'));
        let all = prev + piece;
        assert(html_escape_spec(text) == all);
        assert forall|k: int| 0 <= k < all.len() implies all[k] != '<' && all[k] != '>' by {
            if k < prev.len() {
                assert(all[k] == prev[k]);
            } else {
                assert(all[k] == piece[k - prev.len()]);
            }
        }
    }
}

/// A password set for the live server opens the lock that is loaded back
/// from what was stored: the configuration reads as a good one, its key is
/// the digest and the salt, and the password checks against it.
pub proof fn law_stored_password_opens_lock(password: Seq<char>, salt: Seq<u8>, hash: String, salt_text: String)
    requires
        stores(password, salt, hash@, salt_text@),
        salt.len() > 0,
    ensures
        auth_mode(SettingRead::Value(hash), SettingRead::Value(salt_text)) == Some(true),
        auth_key(SettingRead::Value(hash), SettingRead::Value(salt_text)) == (
            pbkdf2_spec(encode_utf8(password), salt, pbkdf2_iterations()),
            salt,
        ),
        pbkdf2_spec(
            encode_utf8(password),
            auth_key(SettingRead::Value(hash), SettingRead::Value(salt_text)).1,
            pbkdf2_iterations(),
        ) == auth_key(SettingRead::Value(hash), SettingRead::Value(salt_text)).0,
{
}

proof fn lemma_before_char_concat(a: Seq<char>, b: Seq<char>, c: char)
    requires
        !a.contains(c),
    ensures
        before_char(a + b, c) == a + before_char(b, c),
    decreases a.len(),
{
    if a.len() > 0 {
        assert(a[0] != c);
        assert(!a.drop_first().contains(c)) by {
            if a.drop_first().contains(c) {
                let k = choose|k: int| 0 <= k < a.drop_first().len() && a.drop_first()[k] == c;
                assert(a[k + 1] == c);
            }
        }
        lemma_before_char_concat(a.drop_first(), b, c);
        assert((a + b).drop_first() =~= a.drop_first() + b);
        assert((a + b)[0] == a[0]);
        assert(seq![a[0]] + a.drop_first() =~= a);
        assert(seq![a[0]] + (a.drop_first() + before_char(b, c)) =~= a + before_char(b, c));
    } else {
        assert(a + b =~= b);
        assert(a + before_char(b, c) =~= before_char(b, c));
    }
}

/// The session cookie the server issues comes back as its `name=value`
/// part, and a `Cookie` header holding that part carries the token: a
/// browser that logged in is let in afterwards.
pub proof fn law_issued_cookie_is_accepted(name: Seq<char>, token: Seq<char>)
    requires
        eq_ignore_case(name, "cookie"@),
        token.len() > 0,
        !token.contains(';'),
        !is_ws(token.last()),
    ensures
        before_char(session_cookie_spec(token), ';') == "tack_live="@ + token,
        header_ok(name, "tack_live="@ + token, token),
{
    let p = "tack_live="@;
    let rest = "; Path=/; HttpOnly; SameSite=Lax; Max-Age=604800"@;
    let v = p + token;
    assert(!p.contains(';')) by {
        reveal_strlit("tack_live=");
        if p.contains(';') {
            let k = choose|k: int| 0 <= k < p.len() && p[k] == ';';
            assert(p[k] == ';');
        }
    }
    assert(!v.contains(';')) by {
        if v.contains(';') {
            let k = choose|k: int| 0 <= k < v.len() && v[k] == ';';
            if k < p.len() {
                assert(v[k] == p[k]);
            } else {
                assert(v[k] == token[k - p.len()]);
            }
        }
    }
    assert(session_cookie_spec(token) == v + rest) by {
        assert(p + token + rest =~= v + rest);
    }
    lemma_before_char_concat(v, rest, ';');
    assert(before_char(rest, ';') == Seq::<char>::empty()) by {
        reveal_strlit("; Path=/; HttpOnly; SameSite=Lax; Max-Age=604800");
    }
    assert(v + Seq::<char>::empty() =~= v);
    lemma_split_without_sep(v, ';');
    assert(split_on(v, ';')[0] == v);
    assert(v.len() > 0 && v[0] == 't') by {
        reveal_strlit("tack_live=");
        assert(v[0] == p[0]);
    }
    assert(v.last() == token.last()) by {
        assert(v[v.len() - 1] == token[token.len() - 1]);
    }
    assert(strip_start(v, CharClass::Whitespace) == v);
    assert(strip_end(v, CharClass::Whitespace) == v);
    assert(p.is_prefix_of(v)) by {
        assert(v.subrange(0, p.len() as int) =~= p);
    }
    assert(v.subrange(p.len() as int, v.len() as int) =~= token);
    assert(cookie_part_ok(split_on(v, ';')[0], token));
}

/// A request whose `Authorization` header is `Bearer` and the session
/// token carries the token.
pub proof fn law_bearer_token_is_accepted(name: Seq<char>, token: Seq<char>)
    requires
        eq_ignore_case(name, "authorization"@),
        token.len() > 0,
        !is_ws(token[0]),
        !is_ws(token.last()),
    ensures
        header_ok(name, "Bearer "@ + token, token),
{
    let b = "Bearer "@;
    let v = b + token;
    reveal_strlit("Bearer ");
    assert(b.is_prefix_of(v)) by {
        assert(v.subrange(0, 7) =~= b);
    }
    assert(v.subrange(7, v.len() as int) =~= token);
    assert(strip_start(token, CharClass::Whitespace) == token);
    assert(strip_end(token, CharClass::Whitespace) == token);
}

/// What the live server's screen lets through is one statement: a read
/// that begins with `SELECT`, or an `INSERT`, `UPDATE` or `DELETE` whose
/// target is one of the app's own tables.
pub proof fn law_screen_passes_single_app_statements(sql: Seq<char>)
    ensures
        classify_spec(sql) is Ok ==> !stacked(sql),
        classify_spec(sql) == Ok::<Statement, Seq<char>>(Statement::Read) ==> verb_of(words(sql)) == "SELECT"@,
        classify_spec(sql) == Ok::<Statement, Seq<char>>(Statement::Write) ==> {
            let verb = verb_of(words(sql));
            &&& verb == "INSERT"@ || verb == "UPDATE"@ || verb == "DELETE"@
            &&& target_word(words(sql), verb) is Some
            &&& writable_table(table_name(target_word(words(sql), verb)->0))
        },
{
}

/// A static request never names a file outside the frontend build: the
/// file it is answered with has no `.` or `..` segment.
pub proof fn law_static_stays_inside(path: Seq<char>)
    ensures
        static_target_spec(path) matches Some(t) ==> !split_on(t, '/').contains(".."@) && !split_on(
            t,
            '/',
        ).contains("."@),
{
    if static_target_spec(path) == Some("index.html"@) {
        let t = "index.html"@;
        assert(!t.contains('/')) by {
            reveal_strlit("index.html");
            if t.contains('/') {
                let k = choose|k: int| 0 <= k < t.len() && t[k] == '/';
                assert(t[k] == '/');
            }
        }
        lemma_split_without_sep(t, '/');
        assert(split_on(t, '/') == seq![t]);
        assert(t != ".."@) by {
            reveal_strlit("index.html");
            reveal_strlit("..");
        }
        assert(t != "."@) by {
            reveal_strlit("index.html");
            reveal_strlit(".");
        }
        assert(!seq![t].contains(".."@)) by {
            if seq![t].contains(".."@) {
                let k = choose|k: int| 0 <= k < 1 && seq![t][k] == ".."@;
                assert(seq![t][k] == t);
            }
        }
        assert(!seq![t].contains("."@)) by {
            if seq![t].contains("."@) {
                let k = choose|k: int| 0 <= k < 1 && seq![t][k] == "."@;
                assert(seq![t][k] == t);
            }
        }
    }
}

/// An attachment request names a file of the attachments folder and
/// nothing else: its id is not empty and holds neither `/` nor `.`.
pub proof fn law_attachment_ids_are_plain(path: Seq<char>)
    ensures
        attachment_id_spec(path) matches Some(id) ==> id.len() > 0 && !id.contains('/') && !id.contains('.'),
{
    if attachment_id_spec(path) is Some {
        let id = attachment_id_spec(path)->0;
        assert(forall|k: int| 0 <= k < id.len() ==> id_char(#[trigger] id[k]));
        assert(!id.contains('/')) by {
            if id.contains('/') {
                let k = choose|k: int| 0 <= k < id.len() && id[k] == '/';
                assert(id_char(id[k]));
            }
        }
        assert(!id.contains('.')) by {
            if id.contains('.') {
                let k = choose|k: int| 0 <= k < id.len() && id[k] == '.';
                assert(id_char(id[k]));
            }
        }
    }
}

/// Every default the app ships with is a value its own settings check
/// accepts (the two JSON-valued settings aside: their check goes through
/// the JSON parser).
pub proof fn law_defaults_are_valid(k: int)
    requires
        0 <= k < 12,
    ensures
        setting_error(defaults_spec()[k].0, defaults_spec()[k].1) is None,
{
    reveal_strlit("theme");
    reveal_strlit("sidebarCollapsed");
    reveal_strlit("backupEnabled");
    reveal_strlit("liveEnabled");
    reveal_strlit("livePort");
    reveal_strlit("defaultViewMode");
    reveal_strlit("defaultStatus");
    reveal_strlit("defaultPriority");
    reveal_strlit("dueSoonThreshold");
    reveal_strlit("prefixPadding");
    reveal_strlit("backupIntervalHours");
    reveal_strlit("backupKeepCount");
    reveal_strlit("sidebarItems");
    reveal_strlit("shortcuts");
    reveal_strlit("dark");
    reveal_strlit("light");
    reveal_strlit("system");
    reveal_strlit("true");
    reveal_strlit("false");
    reveal_strlit("list");
    reveal_strlit("board");
    reveal_strlit("calendar");
    reveal_strlit("todo");
    reveal_strlit("in_progress");
    reveal_strlit("0");
    reveal_strlit("1");
    reveal_strlit("24");
    reveal_strlit("7");
    reveal_strlit("17890");
    reveal_with_fuel(digits_value, 6);
    let (key, value) = defaults_spec()[k];
    if k == 0 {
        assert(key == "theme"@);
        assert(value == "dark"@);
        assert(key.len() == 5);
        assert(setting_error(key, value) is None);
    } else if k == 1 {
        assert(key == "sidebarCollapsed"@);
        assert(value == "false"@);
        assert(key.len() == 16);
        assert(key[0] != "dueSoonThreshold"@[0]);
        assert(setting_error(key, value) is None);
    } else if k == 2 {
        assert(key == "defaultViewMode"@);
        assert(value == "list"@);
        assert(key.len() == 15);
        assert(key[7] != "defaultPriority"@[7]);
        assert(key[0] != "backupKeepCount"@[0]);
        assert(setting_error(key, value) is None);
    } else if k == 3 {
        assert(key == "defaultStatus"@);
        assert(value == "todo"@);
        assert(key.len() == 13);
        assert(key[0] != "backupEnabled"@[0]);
        assert(key[0] != "prefixPadding"@[0]);
        assert(setting_error(key, value) is None);
    } else if k == 4 {
        assert(key == "defaultPriority"@);
        assert(value == "0"@);
        assert(key.len() == 15);
        assert(key[7] != "defaultViewMode"@[7]);
        assert(key[0] != "backupKeepCount"@[0]);
        assert(all_digits(value));
        assert(value.drop_last() =~= Seq::<char>::empty());
        assert(setting_error(key, value) is None);
    } else if k == 5 {
        assert(key == "dueSoonThreshold"@);
        assert(value == "1"@);
        assert(key.len() == 16);
        assert(key[0] != "sidebarCollapsed"@[0]);
        assert(all_digits(value));
        assert(value.drop_last() =~= Seq::<char>::empty());
        assert(setting_error(key, value) is None);
    } else if k == 6 {
        assert(key == "prefixPadding"@);
        assert(value == "0"@);
        assert(key.len() == 13);
        assert(key[0] != "backupEnabled"@[0]);
        assert(key[0] != "defaultStatus"@[0]);
        assert(all_digits(value));
        assert(value.drop_last() =~= Seq::<char>::empty());
        assert(setting_error(key, value) is None);
    } else if k == 7 {
        assert(key == "backupEnabled"@);
        assert(value == "true"@);
        assert(key.len() == 13);
        assert(key[0] != "defaultStatus"@[0]);
        assert(key[0] != "prefixPadding"@[0]);
        assert(setting_error(key, value) is None);
    } else if k == 8 {
        assert(key == "backupIntervalHours"@);
        assert(value == "24"@);
        assert(key.len() == 19);
        assert(all_digits(value));
        assert(digits_value(value) == 24) by {
            assert(value.drop_last() =~= seq!['2']);
            assert(value.drop_last().drop_last() =~= Seq::<char>::empty());
        }
        assert(setting_error(key, value) is None);
    } else if k == 9 {
        assert(key == "backupKeepCount"@);
        assert(value == "7"@);
        assert(key.len() == 15);
        assert(key[0] != "defaultViewMode"@[0]);
        assert(key[0] != "defaultPriority"@[0]);
        assert(all_digits(value));
        assert(value.drop_last() =~= Seq::<char>::empty());
        assert(setting_error(key, value) is None);
    } else if k == 10 {
        assert(key == "liveEnabled"@);
        assert(value == "false"@);
        assert(key.len() == 11);
        assert(setting_error(key, value) is None);
    } else if k == 11 {
        assert(key == "livePort"@);
        assert(value == "17890"@);
        assert(key.len() == 8);
        assert(all_digits(value));
        assert(digits_value(value) == 17890) by {
            assert(value.drop_last() =~= seq!['1', '7', '8', '9']);
            assert(value.drop_last().drop_last() =~= seq!['1', '7', '8']);
            assert(value.drop_last().drop_last().drop_last() =~= seq!['1', '7']);
            assert(value.drop_last().drop_last().drop_last().drop_last() =~= seq!['1']);
            assert(value.drop_last().drop_last().drop_last().drop_last().drop_last() =~= Seq::<char>::empty());
        }
        assert(setting_error(key, value) is None);
    }
}

/// Tags written into a note read back: after the tags of a note are set to
/// a list of distinct, trimmed, one-line tags (none opening with `- `), the
/// note's tags are those tags, in order, followed by the inline `#tags` of
/// its body. Left out: clearing the tags of a note whose frontmatter holds
/// nothing else drops the frontmatter, and a body that opens with a
/// frontmatter block of its own is then read as one.
pub proof fn law_set_tags_reads_back(text: Seq<char>, tags: Seq<Seq<char>>)
    requires
        writable_tags(tags),
        tags.len() > 0 || kept_of(text).len() > 0 || frontmatter(text).0 is None || frontmatter(
            frontmatter(text).1,
        ).0 is None,
    ensures
        note_tags_spec(set_tags_spec(text, tags)) == body_tags(crate::text::lines(frontmatter(text).1), 0, tags),
{
    reveal_strlit("tags:");
    reveal_strlit("---");
    let k = kept_of(text);
    let body = frontmatter(text).1;
    lemma_kept_of_facts(text);
    if tags.len() > 0 {
        let items = item_lines(tags);
        let l = k + seq!["tags:"@] + items;
        lemma_item_lines_facts(tags);
        lemma_set_tags_shape(text, tags);
        assert forall|i: int| 0 <= i < l.len() implies !(#[trigger] l[i]).contains('\n') && (i >= 1
            ==> !"---"@.is_prefix_of(l[i])) by {
            if i < k.len() {
                assert(l[i] == k[i]);
            } else if i == k.len() {
                assert(l[i] == "tags:"@);
                assert(!"tags:"@.contains('\n')) by {
                    assert("tags:"@ =~= seq!['t', 'a', 'g', 's', ':']);
                }
                assert("tags:"@[0] != "---"@[0]);
            } else {
                let j = i - k.len() - 1;
                assert(l[i] == items[j]);
                assert(!items[j].contains('\n'));
                assert(!"---"@.is_prefix_of(items[j]));
            }
        }
        lemma_frontmatter_of_block(l, body);
        lemma_fm_tags_of_block(k, tags);
        lemma_body_tags_after_break(body, tags);
    } else if frontmatter(text).0 is None {
        assert(tags =~= Seq::<Seq<char>>::empty());
        assert(set_tags_spec(text, tags) == text);
    } else if k.len() > 0 {
        assert(tags =~= Seq::<Seq<char>>::empty());
        reveal_strlit("---\n");
        reveal_strlit("---\n\n");
        assert(set_tags_spec(text, tags) =~= "---\n"@ + (line_block(k) + ("---\n\n"@ + body)));
        lemma_frontmatter_of_block(k, body);
        lemma_fm_tags_of_kept(k);
        lemma_body_tags_after_break(body, tags);
    } else {
        assert(tags =~= Seq::<Seq<char>>::empty());
        assert(set_tags_spec(text, tags) == body);
    }
}

/// Decoding from a position past a prefix reads only what follows it.
proof fn lemma_pct_decode_shift(a: Seq<u8>, r: Seq<u8>, i: int)
    requires
        i >= a.len(),
    ensures
        pct_decode_from(a + r, i) == pct_decode_from(r, i - a.len()),
    decreases (a + r).len() - i,
{
    let b = a + r;
    let j = i - a.len();
    if i < b.len() {
        assert(b[i] == r[j]);
        if i + 1 < b.len() {
            assert(b[i + 1] == r[j + 1]);
        }
        if i + 2 < b.len() {
            assert(b[i + 2] == r[j + 2]);
        }
        lemma_pct_decode_shift(a, r, i + 1);
        if i + 3 <= b.len() {
            lemma_pct_decode_shift(a, r, i + 3);
        }
    }
}

/// The bytes of a URI-encoded text, one per character.
spec fn uri_bytes(b: Seq<u8>) -> Seq<u8> {
    uri_encode(b).map_values(|c: char| c as u8)
}

/// The upper-case hex digit of `d` reads back as `d`.
proof fn lemma_hex_upper_reads_back(d: u8)
    requires
        d < 16,
    ensures
        (hex_upper(d) as u8) < 0x80,
        crate::http::hex_digit(hex_upper(d) as u8) == Some(d),
{
}

/// URI encoding gives ASCII characters.
proof fn lemma_uri_encode_ascii(b: Seq<u8>)
    ensures
        vstd::utf8::is_ascii_chars(uri_encode(b)),
    decreases b.len(),
{
    if b.len() > 0 {
        lemma_uri_encode_ascii(b.drop_last());
        let x = b.last();
        if !uri_unreserved(x) {
            lemma_hex_upper_reads_back(x / 16);
            lemma_hex_upper_reads_back(x % 16);
        }
        let u = uri_encode(b);
        let u2 = uri_encode(b.drop_last());
        assert forall|i: int| 0 <= i < u.len() implies '\0' <= #[trigger] u[i] <= '\u{7f}' by {
            if i < u2.len() {
                assert(u[i] == u2[i]);
            }
        }
    }
}

/// Percent-decoding URI-encoded bytes, followed by anything, gives back the
/// bytes, followed by the decoding of the rest.
proof fn lemma_uri_bytes_decode(b: Seq<u8>, r: Seq<u8>)
    ensures
        pct_decode_from(uri_bytes(b) + r, 0) == b + pct_decode_from(r, 0),
    decreases b.len(),
{
    if b.len() == 0 {
        assert(uri_bytes(b) + r =~= r);
        assert(b + pct_decode_from(r, 0) =~= pct_decode_from(r, 0));
    } else {
        let b2 = b.drop_last();
        let x = b.last();
        let tok: Seq<char> = if uri_unreserved(x) {
            seq![x as char]
        } else {
            seq!['%', hex_upper(x / 16), hex_upper(x % 16)]
        };
        let tb = tok.map_values(|c: char| c as u8);
        assert(uri_encode(b) == uri_encode(b2) + tok);
        assert(uri_bytes(b) =~= uri_bytes(b2) + tb);
        lemma_uri_bytes_decode(b2, tb + r);
        assert(uri_bytes(b2) + (tb + r) =~= uri_bytes(b) + r);
        let t = tb + r;
        if uri_unreserved(x) {
            assert(tb[0] == x);
            assert(t[0] == x);
            lemma_pct_decode_shift(tb, r, 1);
            assert(pct_decode_from(t, 0) == seq![x] + pct_decode_from(t, 1));
        } else {
            lemma_hex_upper_reads_back(x / 16);
            lemma_hex_upper_reads_back(x % 16);
            assert(t[0] == 0x25u8);
            assert(t[1] == hex_upper(x / 16) as u8);
            assert(t[2] == hex_upper(x % 16) as u8);
            assert(((x / 16) * 16 + x % 16) as u8 == x);
            lemma_pct_decode_shift(tb, r, 3);
            assert(pct_decode_from(t, 0) == seq![x] + pct_decode_from(t, 3));
        }
        assert(pct_decode_from(t, 0) == seq![x] + pct_decode_from(r, 0));
        assert(b2 + (seq![x] + pct_decode_from(r, 0)) =~= b + pct_decode_from(r, 0));
    }
}

/// A name encoded as a URI component decodes back to itself: percent-decoding
/// the encoded text gives the name's UTF-8 bytes, which are valid UTF-8 and
/// read back as the name, so `percent_decode` of `encode_uri_component(s)`
/// is `s`.
pub proof fn law_uri_component_decodes_back(s: Seq<char>)
    ensures
        pct_decode_from(encode_utf8(uri_encode(encode_utf8(s))), 0) == encode_utf8(s),
        valid_utf8(encode_utf8(s)),
        decode_utf8(encode_utf8(s)) == s,
{
    let b = encode_utf8(s);
    let u = uri_encode(b);
    lemma_uri_encode_ascii(b);
    vstd::utf8::is_ascii_chars_encode_utf8(u);
    assert(encode_utf8(u) =~= uri_bytes(b));
    lemma_uri_bytes_decode(b, Seq::<u8>::empty());
    assert(uri_bytes(b) + Seq::<u8>::empty() =~= uri_bytes(b));
    assert(pct_decode_from(Seq::<u8>::empty(), 0) =~= Seq::<u8>::empty());
    assert(b + Seq::<u8>::empty() =~= b);
    vstd::utf8::encode_utf8_valid_utf8(s);
    vstd::utf8::encode_utf8_decode_utf8(s);
}

/// A backup made from a time stamp is one that the listing counts and that
/// restore and delete accept: its name starts with `backup-`, and it passes
/// the name check whenever the stamp holds no `/`, `\` or `..`.
pub proof fn law_new_backups_are_accepted(stamp: Seq<char>)
    requires
        valid_backup_name(stamp),
    ensures
        is_backup_name("backup-"@ + stamp),
        valid_backup_name("backup-"@ + stamp),
{
    reveal_strlit("backup-");
    reveal_strlit("..");
    let pre = "backup-"@;
    let n = pre + stamp;
    let pat = ".."@;
    assert(pre.is_prefix_of(n)) by {
        assert(n.subrange(0, pre.len() as int) =~= pre);
    }
    assert(!n.contains('/')) by {
        if n.contains('/') {
            let i = choose|i: int| 0 <= i < n.len() && n[i] == '/';
            if i >= pre.len() {
                assert(stamp[i - pre.len()] == '/');
            }
        }
    }
    assert(!n.contains('\\')) by {
        if n.contains('\\') {
            let i = choose|i: int| 0 <= i < n.len() && n[i] == '\\';
            if i >= pre.len() {
                assert(stamp[i - pre.len()] == '\\');
            }
        }
    }
    assert forall|p: int| 0 <= p < pre.len() && p + pat.len() <= pre.len() + stamp.len() implies #[trigger] (pre
        + stamp).subrange(p, p + pat.len()) != pat by {
        let t = (pre + stamp).subrange(p, p + pat.len());
        assert(t[0] == n[p]);
        assert(n[p] == pre[p]);
        assert(pre[p] != '.');
    }
    crate::text::lemma_find_sub_skip(pre, stamp, pat, 0);
}

/// A locked share answers every request that carries the session token
/// neither in a header nor in its `token=` query parameter with
/// `Unauthorized`; the login endpoint alone stays open.
pub proof fn law_locked_share_refuses_strangers(
    m: Method,
    path: Seq<char>,
    query: Seq<char>,
    headers: Seq<(Seq<char>, Seq<char>)>,
    token: Seq<char>,
)
    requires
        !(m == Method::Post && path == "/api/auth"@),
        forall|k: int| 0 <= k < headers.len() ==> !header_ok(#[trigger] headers[k].0, headers[k].1, token),
        query_token(query) != Some(token),
    ensures
        decision_spec(m, path, query, headers, Some(token)) == Decision::Unauthorized,
        decision_spec(Method::Post, "/api/auth"@, query, headers, Some(token)) == Decision::Login,
{
}

/// Stripping the leading whitespace of `s[i..]` starts it at the first
/// non-whitespace character.
proof fn lemma_strip_start_at_skip(s: Seq<char>, i: int)
    requires
        0 <= i <= s.len(),
    ensures
        strip_start(s.subrange(i, s.len() as int), CharClass::Whitespace) == s.subrange(skip_ws(s, i), s.len() as int),
    decreases s.len() - i,
{
    let sub = s.subrange(i, s.len() as int);
    if i < s.len() && is_ws(s[i]) {
        assert(sub[0] == s[i]);
        assert(sub.drop_first() =~= s.subrange(i + 1, s.len() as int));
        lemma_strip_start_at_skip(s, i + 1);
    }
}

/// A text that opens with a non-whitespace character keeps it when its
/// trailing whitespace is stripped.
proof fn lemma_strip_end_keeps_first(u: Seq<char>)
    requires
        u.len() > 0,
        !is_ws(u[0]),
    ensures
        strip_end(u, CharClass::Whitespace).len() > 0,
    decreases u.len(),
{
    if u.len() > 1 && is_ws(u.last()) {
        assert(u.drop_last()[0] == u[0]);
        lemma_strip_end_keeps_first(u.drop_last());
    }
}

/// A join is at least as long as its last part.
proof fn lemma_join_last(parts: Seq<Seq<char>>, sep: Seq<char>)
    requires
        parts.len() > 0,
    ensures
        join(parts, sep).len() >= parts.last().len(),
{
}

/// The task search query is empty exactly when the input holds nothing but
/// whitespace.
pub proof fn law_fts_query_empty_iff_blank(q: Seq<char>)
    ensures
        fts_query_spec(q).len() == 0 <==> trim(q).len() == 0,
{
    lemma_skip_ws(q, 0);
    lemma_strip_start_at_skip(q, 0);
    assert(q.subrange(0, q.len() as int) =~= q);
    let j = skip_ws(q, 0);
    let ws = words(q);
    if j >= q.len() {
        assert(ws == Seq::<Seq<char>>::empty());
        assert(strip_start(q, CharClass::Whitespace) =~= Seq::<char>::empty());
        assert(ws.map_values(|w: Seq<char>| fts_phrase(w)) =~= Seq::<Seq<char>>::empty());
    } else {
        let u = strip_start(q, CharClass::Whitespace);
        assert(u[0] == q[j]);
        lemma_strip_end_keeps_first(u);
        assert(ws.len() > 0);
        let ps = ws.map_values(|w: Seq<char>| fts_phrase(w));
        lemma_join_last(ps, " "@);
        assert(ps.last() == fts_phrase(ws.last()));
    }
}

/// The placeholder rewrite works character by character: the result is as
/// long as the statement, and each `$` that a digit follows becomes `?`
/// while every other character stays.
pub proof fn law_placeholders_pointwise(s: Seq<char>)
    ensures
        placeholders_from(s, 0).len() == s.len(),
        forall|k: int| 0 <= k < s.len() ==> #[trigger] placeholders_from(s, 0)[k] == placeholder_char(s, k),
{
    lemma_placeholders_pointwise(s, 0);
}

/// Rewriting placeholders twice is rewriting them once.
pub proof fn law_placeholders_idempotent(s: Seq<char>)
    ensures
        placeholders_from(placeholders_from(s, 0), 0) == placeholders_from(s, 0),
{
    let t = placeholders_from(s, 0);
    lemma_placeholders_pointwise(s, 0);
    lemma_placeholders_pointwise(t, 0);
    assert forall|k: int| 0 <= k < t.len() implies placeholder_char(t, k) == t[k] by {
        if t[k] == '$' && k + 1 < t.len() {
            assert(t[k] == placeholder_char(s, k));
            assert(t[k + 1] == placeholder_char(s, k + 1));
            assert(!sql_digit('?'));
        }
    }
    assert(placeholders_from(t, 0) =~= t);
}

/// A character upper-cases to the capital letter `l` exactly when it
/// lower-cases to `l`'s small letter.
proof fn lemma_case_letter(c: char, l: char)
    requires
        'A' <= l <= 'Z',
    ensures
        (upper(c) == l) == (lower(c) == lower(l)),
{
    assert((l as u32) + 32 <= 'z' as u32);
    if 'a' <= c && c <= 'z' {
        assert(upper(c) as u32 == c as u32 - 32);
        assert(lower(c) == c);
    } else if 'A' <= c && c <= 'Z' {
        assert(lower(c) as u32 == c as u32 + 32);
        assert(upper(c) == c);
    } else {
        assert(upper(c) == c && lower(c) == c);
    }
    assert(lower(l) as u32 == l as u32 + 32);
}

/// A word upper-cases to a keyword of capital letters exactly when it
/// equals the keyword up to ASCII case.
proof fn lemma_upper_is_keyword(x: Seq<char>, k: Seq<char>)
    requires
        forall|i: int| 0 <= i < k.len() ==> 'A' <= #[trigger] k[i] <= 'Z',
    ensures
        (upper_seq(x) == k) == eq_ignore_case(x, k),
{
    assert forall|i: int| 0 <= i < x.len() && i < k.len() implies (upper(x[i]) == k[i]) == (lower(x[i]) == lower(k[i])) by {
        lemma_case_letter(x[i], k[i]);
    }
    if upper_seq(x) == k {
        assert(lower_seq(x) =~= lower_seq(k)) by {
            assert forall|i: int| 0 <= i < x.len() implies lower_seq(x)[i] == lower_seq(k)[i] by {
                assert(upper_seq(x)[i] == k[i]);
            }
        }
    }
    if eq_ignore_case(x, k) {
        assert(x.len() == lower_seq(x).len() && k.len() == lower_seq(k).len());
        assert(upper_seq(x) =~= k) by {
            assert forall|i: int| 0 <= i < x.len() implies upper_seq(x)[i] == k[i] by {
                assert(lower_seq(x)[i] == lower_seq(k)[i]);
                lemma_case_letter(x[i], k[i]);
            }
        }
    }
}

/// The screen lets a statement through as a read exactly when it holds one
/// statement whose first word is `SELECT` in any case, and as a write
/// exactly when it holds one statement whose first word is `INSERT`,
/// `UPDATE` or `DELETE` in any case and whose target table is one of the
/// app's own.
pub proof fn law_screen_reads_and_writes(sql: Seq<char>)
    ensures
        classify_spec(sql) == Ok::<Statement, Seq<char>>(Statement::Read) <==> (!stacked(sql) && words(sql).len() > 0
            && eq_ignore_case(words(sql)[0], "SELECT"@)),
        classify_spec(sql) == Ok::<Statement, Seq<char>>(Statement::Write) <==> (!stacked(sql) && words(sql).len()
            > 0 && (eq_ignore_case(words(sql)[0], "INSERT"@) || eq_ignore_case(words(sql)[0], "UPDATE"@)
            || eq_ignore_case(words(sql)[0], "DELETE"@)) && (target_word(words(sql), verb_of(words(sql))) matches Some(
            t,
        ) && writable_table(table_name(t)))),
{
    reveal_strlit("SELECT");
    reveal_strlit("INSERT");
    reveal_strlit("UPDATE");
    reveal_strlit("DELETE");
    let w = words(sql);
    if w.len() > 0 {
        lemma_upper_is_keyword(w[0], "SELECT"@);
        lemma_upper_is_keyword(w[0], "INSERT"@);
        lemma_upper_is_keyword(w[0], "UPDATE"@);
        lemma_upper_is_keyword(w[0], "DELETE"@);
    } else {
        assert(verb_of(w) =~= Seq::<char>::empty());
    }
    assert("SELECT"@ != "INSERT"@ && "SELECT"@ != "UPDATE"@ && "SELECT"@ != "DELETE"@) by {
        assert("SELECT"@[0] != "INSERT"@[0]);
        assert("SELECT"@[0] != "UPDATE"@[0]);
        assert("SELECT"@[0] != "DELETE"@[0]);
    }
    assert("SELECT"@.len() > 0);
}

/// A note splits into its frontmatter and body without losing anything:
/// with no frontmatter the body is the whole text (which then does not open
/// with `---` or has no closing `\n---`); with one, the text is `---`, a
/// line break, the frontmatter (which holds no `\n---`), the closing
/// `\n---`, one line break (`\r\n`, `\n` or none when neither follows) and
/// the body.
pub proof fn law_frontmatter_rejoins(text: Seq<char>)
    ensures
        frontmatter(text).0 is None ==> frontmatter(text).1 == text && (!"---\n"@.is_prefix_of(text)
            || crate::text::find_sub(text.subrange(4, text.len() as int), "\n---"@, 0) < 0),
        frontmatter(text).0 matches Some(f) ==> ({
            let b = frontmatter(text).1;
            let sep = text.subrange(8 + f.len() as int, text.len() - b.len());
            &&& 8 + f.len() + b.len() <= text.len()
            &&& text == "---\n"@ + f + "\n---"@ + sep + b
            &&& (sep == "\r\n"@ || sep == "\n"@ || sep.len() == 0)
            &&& sep.len() == 0 ==> !"\n"@.is_prefix_of(b) && !"\r\n"@.is_prefix_of(b)
            &&& forall|q: int| 0 <= q && q + 4 <= f.len() ==> #[trigger] f.subrange(q, q + 4) != "\n---"@
        }),
{
    reveal_strlit("---\n");
    reveal_strlit("\n---");
    reveal_strlit("\r\n");
    reveal_strlit("\n");
    if "---\n"@.is_prefix_of(text) {
        let rest = text.subrange(4, text.len() as int);
        let pat = "\n---"@;
        let idx = crate::text::find_sub(rest, pat, 0);
        if idx >= 0 {
            crate::text::lemma_find_sub(rest, pat, 0);
            crate::text::lemma_find_sub_first(rest, pat, 0);
            let f = rest.subrange(0, idx);
            let after = rest.subrange(idx + 4, rest.len() as int);
            let b = frontmatter(text).1;
            assert(text.subrange(0, 4) =~= "---\n"@);
            let sep = text.subrange(8 + f.len() as int, text.len() - b.len());
            if after.len() >= 2 && after[0] == '\r' && after[1] == '\n' {
                assert(sep =~= "\r\n"@);
            } else if after.len() >= 1 && after[0] == '\n' {
                assert(sep =~= "\n"@);
            } else {
                assert(sep =~= Seq::<char>::empty());
                assert(b == after);
                if "\r\n"@.is_prefix_of(b) {
                    assert(b.subrange(0, 2) == "\r\n"@);
                    assert(b.subrange(0, 2)[0] == '\r' && b.subrange(0, 2)[1] == '\n');
                    assert(after[0] == '\r' && after[1] == '\n');
                }
                if "\n"@.is_prefix_of(b) {
                    assert(b.subrange(0, 1) == "\n"@);
                    assert(b.subrange(0, 1)[0] == '\n');
                    assert(after[0] == '\n');
                }
            }
            assert(text =~= "---\n"@ + f + "\n---"@ + sep + b);
            assert forall|q: int| 0 <= q && q + 4 <= f.len() implies #[trigger] f.subrange(q, q + 4) != pat by {
                assert(f.subrange(q, q + 4) =~= rest.subrange(q, q + 4));
            }
        }
    }
}

/// Setting the tags of a note keeps the rest of it: the body stays at the
/// end; the other frontmatter lines are lines of the old frontmatter, taken
/// in order, and open the new frontmatter.
pub proof fn law_set_tags_keeps_the_rest(text: Seq<char>, tags: Seq<Seq<char>>)
    ensures
        frontmatter(text).1.is_suffix_of(set_tags_spec(text, tags)),
        frontmatter(text).0 matches Some(f) ==> ({
            let k = kept_of(text);
            let ls = crate::text::lines(f);
            exists|idx: Seq<int>|
                #![trigger idx.len()]
                idx.len() == k.len() && (forall|j: int| 0 <= j < k.len() ==> 0 <= #[trigger] idx[j] < ls.len()
                    && k[j] == ls[idx[j]] && !"tags:"@.is_prefix_of(k[j])) && (forall|j: int, m: int|
                    0 <= j < m < k.len() ==> #[trigger] idx[j] < #[trigger] idx[m])
        }),
        tags.len() > 0 || kept_of(text).len() > 0 ==> ({
            let r = set_tags_spec(text, tags);
            let kb = line_block(kept_of(text));
            &&& 4 + kb.len() <= r.len()
            &&& r.subrange(0, 4) == "---\n"@
            &&& r.subrange(4, 4 + kb.len() as int) == kb
        }),
{
    reveal_strlit("---\n");
    reveal_strlit("---\n\n");
    reveal_strlit("\n  - ");
    reveal_strlit("  - ");
    reveal_strlit("\n");
    let k = kept_of(text);
    let body = frontmatter(text).1;
    let r = set_tags_spec(text, tags);
    match frontmatter(text).0 {
        Some(f) => {
            lemma_kept_index(crate::text::lines(f), 0, false);
            let idx = kept_index(crate::text::lines(f), 0, false);
            assert(idx.len() == k.len());
        },
        None => {},
    }
    if tags.len() > 0 {
        let items = item_lines(tags);
        let l = k + seq!["tags:"@] + items;
        lemma_set_tags_shape(text, tags);
        let lb = line_block(l);
        assert(r == "---\n"@ + (lb + ("---\n\n"@ + body)));
        assert(r.subrange(r.len() - body.len(), r.len() as int) =~= body);
        lemma_block_concat(k, seq!["tags:"@] + items);
        assert(l =~= k + (seq!["tags:"@] + items));
        assert(r.subrange(0, 4) =~= "---\n"@);
        assert(r.subrange(4, 4 + line_block(k).len() as int) =~= line_block(k));
    } else if frontmatter(text).0 is None {
        assert(r == text);
        assert(r.subrange(0, r.len() as int) =~= body);
    } else if k.len() > 0 {
        assert(r =~= "---\n"@ + line_block(k) + ("---\n\n"@ + body));
        assert(r.subrange(r.len() - body.len(), r.len() as int) =~= body);
        assert(r.subrange(0, 4) =~= "---\n"@);
        assert(r.subrange(4, 4 + line_block(k).len() as int) =~= line_block(k));
    } else {
        assert(r == body);
        assert(r.subrange(0, r.len() as int) =~= body);
    }
}

/// Setting the tags of a note writes every tag as a line `  - <tag>`.
pub proof fn law_set_tags_writes_every_tag(text: Seq<char>, tags: Seq<Seq<char>>, j: int)
    requires
        0 <= j < tags.len(),
    ensures
        exists|p: int|
            0 <= p && p + tags[j].len() + 6 <= set_tags_spec(text, tags).len() && #[trigger] set_tags_spec(
                text,
                tags,
            ).subrange(p, p + tags[j].len() + 6) == "\n  - "@ + tags[j] + "\n"@,
{
    let p = lemma_tag_line_written(text, tags, j);
    assert(set_tags_spec(text, tags).subrange(p, p + tags[j].len() + 6) == "\n  - "@ + tags[j] + "\n"@);
}

/// Tag `j` is written as a line `  - <tag>` of the rewritten note.
proof fn lemma_tag_line_written(text: Seq<char>, tags: Seq<Seq<char>>, j: int) -> (p: int)
    requires
        tags.len() > 0,
        0 <= j < tags.len(),
    ensures
        0 <= p && p + tags[j].len() + 6 <= set_tags_spec(text, tags).len(),
        set_tags_spec(text, tags).subrange(p, p + tags[j].len() + 6) == "\n  - "@ + tags[j] + "\n"@,
{
    reveal_strlit("---\n");
    reveal_strlit("\n  - ");
    reveal_strlit("  - ");
    reveal_strlit("\n");
    let k = kept_of(text);
    let body = frontmatter(text).1;
    let r = set_tags_spec(text, tags);
    let items = item_lines(tags);
    let l = k + seq!["tags:"@] + items;
    lemma_set_tags_shape(text, tags);
    let lb = line_block(l);
    assert(r == "---\n"@ + (lb + ("---\n\n"@ + body)));
    let m = k.len() + 1 + j;
    lemma_line_in_block(l, m);
    assert(l[m] == items[j]);
    assert(items[j] == "  - "@ + tags[j]);
    let q = line_block(l.take(m)).len() as int;
    let p = 4 + q - 1;
    assert(lb[q - 1] == '\n');
    assert(lb.subrange(q, q + l[m].len() + 1) == l[m] + "\n"@);
    assert forall|x: int| 0 <= x < tags[j].len() + 6 implies r.subrange(p, p + tags[j].len() + 6)[x]
        == ("\n  - "@ + tags[j] + "\n"@)[x] by {
        if x > 0 {
            assert(r[p + x] == lb[q + x - 1]);
            assert(lb[q + x - 1] == lb.subrange(q, q + l[m].len() + 1)[x - 1]);
        }
    }
    assert(r.subrange(p, p + tags[j].len() + 6) =~= "\n  - "@ + tags[j] + "\n"@);
    p
}

/// The counted names are the names of the entries that count, and, when the
/// entries' names are distinct, each occurs once.
proof fn lemma_backup_names(es: Seq<BackupEntry>, need_db: bool)
    requires
        forall|i: int, j: int| 0 <= i < j < es.len() ==> es[i].name@ != es[j].name@,
    ensures
        forall|x: Seq<char>|
            backup_names(es, need_db).contains(x) <==> exists|k: int|
                0 <= k < es.len() && counts(es[k], need_db) && #[trigger] es[k].name@ == x,
        backup_names(es, need_db).no_duplicates(),
    decreases es.len(),
{
    if es.len() > 0 {
        let e2 = es.drop_last();
        lemma_backup_names(e2, need_db);
        let rest = backup_names(e2, need_db);
        let n = es.last().name@;
        assert forall|x: Seq<char>| backup_names(es, need_db).contains(x) <==> exists|k: int|
            0 <= k < es.len() && counts(es[k], need_db) && #[trigger] es[k].name@ == x by {
            if backup_names(es, need_db).contains(x) {
                if rest.contains(x) {
                    let k = choose|k: int| 0 <= k < e2.len() && counts(e2[k], need_db) && #[trigger] e2[k].name@ == x;
                    assert(es[k] == e2[k]);
                } else {
                    assert(counts(es.last(), need_db));
                    let b = backup_names(es, need_db);
                    let i = choose|i: int| 0 <= i < b.len() && b[i] == x;
                    assert(b == rest.push(n));
                    assert(i == rest.len());
                    assert(es[es.len() - 1].name@ == x);
                }
            }
            if exists|k: int| 0 <= k < es.len() && counts(es[k], need_db) && #[trigger] es[k].name@ == x {
                let k = choose|k: int| 0 <= k < es.len() && counts(es[k], need_db) && #[trigger] es[k].name@ == x;
                if k < es.len() - 1 {
                    assert(e2[k] == es[k]);
                    assert(rest.contains(x));
                    if counts(es.last(), need_db) {
                        let i = choose|i: int| 0 <= i < rest.len() && rest[i] == x;
                        assert(rest.push(n)[i] == x);
                    }
                } else {
                    assert(rest.push(n)[rest.len() as int] == n);
                }
            }
        }
        if counts(es.last(), need_db) {
            assert(!rest.contains(n)) by {
                if rest.contains(n) {
                    let k = choose|k: int| 0 <= k < e2.len() && counts(e2[k], need_db) && #[trigger] e2[k].name@ == n;
                    assert(es[k].name@ == es[es.len() - 1].name@);
                }
            }
            let b = rest.push(n);
            assert forall|i: int, j: int| 0 <= i < b.len() && 0 <= j < b.len() && i != j implies b[i] != b[j] by {
                if i < rest.len() && j < rest.len() {
                } else if i < rest.len() {
                    assert(rest[i] != n);
                } else if j < rest.len() {
                    assert(rest[j] != n);
                }
            }
        }
    }
}

/// The backups that can be restored are listed newest first, each once: the
/// names are those of the folders that count, in strictly descending order,
/// when the folder names are distinct (as a directory's are).
pub proof fn law_backups_listed_once_newest_first(es: Seq<BackupEntry>)
    requires
        forall|i: int, j: int| 0 <= i < j < es.len() ==> es[i].name@ != es[j].name@,
    ensures
        forall|x: Seq<char>|
            newest_first(es, true).contains(x) <==> exists|k: int|
                0 <= k < es.len() && counts(es[k], true) && #[trigger] es[k].name@ == x,
        forall|i: int, j: int|
            0 <= i < j < newest_first(es, true).len() ==> code_le(
                #[trigger] newest_first(es, true)[j],
                #[trigger] newest_first(es, true)[i],
            ) && newest_first(es, true)[i] != newest_first(es, true)[j],
{
    broadcast use vstd::multiset::group_multiset_axioms;
    let b = backup_names(es, true);
    let s = newest_first(es, true);
    lemma_backup_names(es, true);
    lemma_orders_total();
    b.lemma_sort_by_ensures(descending());
    b.to_multiset_ensures();
    s.to_multiset_ensures();
    assert forall|x: Seq<char>| s.contains(x) <==> b.contains(x) by {
        assert(b.to_multiset().count(x) == s.to_multiset().count(x));
    }
    b.lemma_multiset_has_no_duplicates();
    s.lemma_multiset_has_no_duplicates_conv();
    assert forall|i: int, j: int| 0 <= i < j < s.len() implies code_le(#[trigger] s[j], #[trigger] s[i]) && s[i]
        != s[j] by {
        assert((descending())(s[i], s[j]));
    }
}

/// The images of a note are its local ones, in the order of the text: no
/// more of them than `![` markers, the `k`-th starting at a marker after the
/// one before it, and none with an empty, `http://`, `https://` or `data:`
/// target.
pub proof fn law_note_images_are_local(c: Seq<char>)
    ensures
        images_from(c, 0).len() <= image_markers(c, 0),
        image_starts(c, 0).len() == images_from(c, 0).len(),
        forall|k: int| 0 <= k < images_from(c, 0).len() ==> !remote_target(#[trigger] images_from(c, 0)[k].1),
        forall|k: int|
            0 <= k < image_starts(c, 0).len() ==> c.subrange(
                #[trigger] image_starts(c, 0)[k],
                image_starts(c, 0)[k] + 2,
            ) == seq!['!', '['],
        forall|k: int, m: int|
            0 <= k < m < image_starts(c, 0).len() ==> #[trigger] image_starts(c, 0)[k] < #[trigger] image_starts(
                c,
                0,
            )[m],
{
    lemma_images_from(c, 0);
}

/// Presence over any run of joins and leaves: after the events, a client is
/// listed exactly when its joins outnumber its leaves (each leave counted
/// only while it held a connection), and it holds that many connections.
pub proof fn law_presence_counts(states: Seq<Seq<ClientView>>, ops: Seq<PresenceOp>, x: Seq<char>)
    requires
        states.len() == ops.len() + 1,
        forall|i: int| 0 <= i < states.len() ==> presence_wf(#[trigger] states[i]),
        forall|i: int| 0 <= i < ops.len() ==> op_step(states[i], states[i + 1], #[trigger] ops[i]),
        forall|i: int|
            0 <= i < ops.len() && (#[trigger] ops[i] is Join) ==> conns(states[i], op_id(ops[i])) < u32::MAX,
    ensures
        conns(states.last(), x) == count_after(ops, x, conns(states[0], x)),
        index_of(states.last(), x) >= 0 <==> count_after(ops, x, conns(states[0], x)) > 0,
    decreases ops.len(),
{
    let n = ops.len();
    if n > 0 {
        let s2 = states.drop_last();
        let o2 = ops.drop_last();
        assert forall|i: int| 0 <= i < o2.len() implies op_step(s2[i], s2[i + 1], #[trigger] o2[i]) by {
            assert(op_step(states[i], states[i + 1], ops[i]));
        }
        assert forall|i: int| 0 <= i < s2.len() implies presence_wf(#[trigger] s2[i]) by {
            assert(presence_wf(states[i]));
        }
        assert forall|i: int| 0 <= i < o2.len() && (#[trigger] o2[i] is Join) implies conns(s2[i], op_id(o2[i]))
            < u32::MAX by {
            assert(ops[i] == o2[i]);
        }
        law_presence_counts(s2, o2, x);
        let before = states[n - 1];
        let after = states[n as int];
        assert(s2.last() == before);
        assert(presence_wf(before) && presence_wf(after));
        assert(op_step(before, after, ops[n - 1]));
        match ops[n - 1] {
            PresenceOp::Join { id, name, kind, now_ms } => {
                lemma_join_counts(before, after, id, name, kind, now_ms, x);
            },
            PresenceOp::Leave { id } => {
                lemma_leave_counts(before, after, id, x);
            },
        }
    }
    let last = states.last();
    lemma_index_of(last, x);
    assert(presence_wf(states[states.len() - 1]));
}

/// A closed lock fails closed: its token is 36 characters long, so a
/// request whose presented tokens (cookie, bearer header or `token=`
/// parameter) are all shorter, the empty token among them, is refused.
pub proof fn law_closed_lock_refuses_short_tokens(
    m: Method,
    path: Seq<char>,
    query: Seq<char>,
    headers: Seq<(Seq<char>, Seq<char>)>,
    token: Seq<char>,
)
    requires
        closed_token(token),
        !(m == Method::Post && path == "/api/auth"@),
        forall|k: int, v: Seq<char>|
            0 <= k < headers.len() && #[trigger] header_ok(headers[k].0, headers[k].1, v) ==> v.len() < 36,
        query_token(query) matches Some(v) ==> v.len() < 36,
    ensures
        !authorized_spec(headers, query, token),
        decision_spec(m, path, query, headers, Some(token)) == Decision::Unauthorized,
{
    if exists|k: int| 0 <= k < headers.len() && header_ok(#[trigger] headers[k].0, headers[k].1, token) {
        let k = choose|k: int| 0 <= k < headers.len() && header_ok(#[trigger] headers[k].0, headers[k].1, token);
        assert(header_ok(headers[k].0, headers[k].1, token));
    }
}

/// A name of plain ASCII characters without `%` reads back from a request
/// path unchanged.
pub proof fn law_plain_names_decode_unchanged(n: Seq<char>)
    requires
        vstd::utf8::is_ascii_chars(n),
        !n.contains('%'),
    ensures
        utf8_text(pct_decode_from(encode_utf8(n), 0)) == n,
{
    let b = encode_utf8(n);
    vstd::utf8::is_ascii_chars_encode_utf8(n);
    assert(!b.contains(0x25)) by {
        if b.contains(0x25) {
            let i = choose|i: int| 0 <= i < b.len() && b[i] == 0x25;
            assert(n[i] as u8 == b[i]);
            assert(n[i] == '%');
        }
    }
    law_no_escapes_unchanged(b);
    vstd::utf8::encode_utf8_valid_utf8(n);
    vstd::utf8::encode_utf8_decode_utf8(n);
}

/// The backup a request path names is the name written in it, when that
/// name is plain ASCII without `%`: `/api/backups/<name>` and
/// `/api/backups/<name>/restore` both give `<name>`.
pub proof fn law_backup_paths_name_their_backup(n: Seq<char>)
    requires
        n.len() > 0,
        vstd::utf8::is_ascii_chars(n),
        !n.contains('%'),
    ensures
        backup_name_spec("/api/backups/"@ + n, false) == Some(n),
        backup_name_spec("/api/backups/"@ + n + "/restore"@, true) == Some(n),
{
    reveal_strlit("/api/backups/");
    reveal_strlit("/restore");
    law_plain_names_decode_unchanged(n);
    let p = "/api/backups/"@;
    let a = p + n;
    assert(p.is_prefix_of(a)) by {
        assert(a.subrange(0, p.len() as int) =~= p);
    }
    assert(a.subrange(p.len() as int, a.len() as int) =~= n);
    let r = "/restore"@;
    let c = p + n + r;
    assert(p.is_prefix_of(c)) by {
        assert(c.subrange(0, p.len() as int) =~= p);
    }
    let rest = c.subrange(p.len() as int, c.len() as int);
    assert(rest =~= n + r);
    assert(r.is_suffix_of(rest)) by {
        assert(rest.subrange(rest.len() - r.len(), rest.len() as int) =~= r);
    }
    assert(rest.subrange(0, rest.len() - r.len()) =~= n);
}

/// An edit writes every field it gives and keeps every field it leaves
/// out: title, description, status, priority and reminder take the given
/// value; a given due or end date replaces the old one, or clears it when
/// it is empty.
pub proof fn law_edit_writes_given_fields(cur: FieldsView, e: TaskEdit)
    ensures
        edited(cur, e).title == (match e.title { Some(t) => t@, None => cur.title }),
        e.description matches Some(d) ==> edited(cur, e).description == Some(d@),
        e.description is None ==> edited(cur, e).description == cur.description,
        edited(cur, e).status == (match e.status { Some(st) => st@, None => cur.status }),
        edited(cur, e).priority == (match e.priority { Some(pr) => pr, None => cur.priority }),
        e.due_date matches Some(d) ==> edited(cur, e).due_date == (if d@.len() == 0 { None } else { Some(d@) }),
        e.due_date is None ==> edited(cur, e).due_date == cur.due_date,
        e.end_date matches Some(d) ==> edited(cur, e).end_date == (if d@.len() == 0 { None } else { Some(d@) }),
        e.end_date is None ==> edited(cur, e).end_date == cur.end_date,
        e.reminder matches Some(r) ==> edited(cur, e).reminder_at == ov(r),
        e.reminder is None ==> edited(cur, e).reminder_at == cur.reminder_at,
{
}

/// The settings with a fixed set of values accept exactly the values their
/// messages list: theme `dark`, `light`, `system`; the switches `true`,
/// `false`; the view `list`, `board`, `calendar`; the default status
/// `todo`, `in_progress`.
pub proof fn law_listed_setting_values_are_accepted(v: Seq<char>)
    ensures
        setting_error("theme"@, v) is None <==> (v == "dark"@ || v == "light"@ || v == "system"@),
        setting_error("sidebarCollapsed"@, v) is None <==> (v == "true"@ || v == "false"@),
        setting_error("backupEnabled"@, v) is None <==> (v == "true"@ || v == "false"@),
        setting_error("liveEnabled"@, v) is None <==> (v == "true"@ || v == "false"@),
        setting_error("defaultViewMode"@, v) is None <==> (v == "list"@ || v == "board"@ || v == "calendar"@),
        setting_error("defaultStatus"@, v) is None <==> (v == "todo"@ || v == "in_progress"@),
{
    reveal_strlit("theme");
    reveal_strlit("sidebarCollapsed");
    reveal_strlit("backupEnabled");
    reveal_strlit("liveEnabled");
    reveal_strlit("livePort");
    reveal_strlit("defaultViewMode");
    reveal_strlit("defaultStatus");
    assert("sidebarCollapsed"@ != "theme"@ && "backupEnabled"@ != "theme"@ && "liveEnabled"@ != "theme"@
        && "defaultViewMode"@ != "theme"@ && "defaultStatus"@ != "theme"@) by {
        assert("sidebarCollapsed"@.len() != "theme"@.len());
        assert("backupEnabled"@.len() != "theme"@.len());
        assert("liveEnabled"@.len() != "theme"@.len());
        assert("defaultViewMode"@.len() != "theme"@.len());
        assert("defaultStatus"@.len() != "theme"@.len());
    }
    assert("defaultViewMode"@ != "sidebarCollapsed"@ && "defaultViewMode"@ != "backupEnabled"@
        && "defaultViewMode"@ != "liveEnabled"@ && "defaultViewMode"@ != "livePort"@) by {
        assert("defaultViewMode"@.len() != "sidebarCollapsed"@.len());
        assert("defaultViewMode"@[0] != "backupEnabled"@[0]);
        assert("defaultViewMode"@[0] != "liveEnabled"@[0]);
        assert("defaultViewMode"@[0] != "livePort"@[0]);
    }
    assert("defaultStatus"@ != "sidebarCollapsed"@ && "defaultStatus"@ != "backupEnabled"@
        && "defaultStatus"@ != "liveEnabled"@ && "defaultStatus"@ != "livePort"@ && "defaultStatus"@
        != "defaultViewMode"@) by {
        assert("defaultStatus"@.len() != "sidebarCollapsed"@.len());
        assert("defaultStatus"@[0] != "backupEnabled"@[0]);
        assert("defaultStatus"@[0] != "liveEnabled"@[0]);
        assert("defaultStatus"@[0] != "livePort"@[0]);
        assert("defaultStatus"@.len() != "defaultViewMode"@.len());
    }
}

/// Every request under `/api/attachment/` reaches the attachment handler of
/// its method: `GET` reads, `PUT` stores and `DELETE` removes the attachment.
pub proof fn law_attachment_requests_route(path: Seq<char>)
    requires
        "/api/attachment/"@.is_prefix_of(path),
    ensures
        route_spec(Method::Get, path) == Route::AttachmentGet,
        route_spec(Method::Put, path) == Route::AttachmentPut,
        route_spec(Method::Delete, path) == Route::AttachmentDelete,
{
    reveal_strlit("/api/attachment/");
    reveal_strlit("/api/events/stream");
    reveal_strlit("/api/events");
    let pre = "/api/attachment/"@;
    assert(path.subrange(0, pre.len() as int) == pre);
    assert(pre[5] == 'a');
    assert(path.subrange(0, pre.len() as int)[5] == path[5]);
    assert(path[5] == 'a');
    assert(path != "/api/events/stream"@) by {
        if path == "/api/events/stream"@ {
            assert("/api/events/stream"@[5] == 'e');
        }
    }
    assert(path != "/api/events"@) by {
        if path == "/api/events"@ {
            assert("/api/events"@[5] == 'e');
        }
    }
}

/// The app's own tables, listed: the ones a browser client may write to.
pub open spec fn app_tables() -> Seq<Seq<char>> {
    seq![
        "activity_log"@, "labels"@, "note_links"@, "notes_fts"@, "notes_index_meta"@, "projects"@, "settings"@,
        "subtasks"@, "task_attachments"@, "task_labels"@, "task_notes"@, "tasks"@,
    ]
}

/// A single `INSERT`, `UPDATE` or `DELETE` passes the screen as a write
/// exactly when its target table is one of the app's twelve tables.
pub proof fn law_writes_to_app_tables_pass(sql: Seq<char>)
    requires
        !stacked(sql),
        verb_of(words(sql)) == "INSERT"@ || verb_of(words(sql)) == "UPDATE"@ || verb_of(words(sql)) == "DELETE"@,
    ensures
        classify_spec(sql) == Ok::<Statement, Seq<char>>(Statement::Write) <==> (target_word(
            words(sql),
            verb_of(words(sql)),
        ) matches Some(w) && app_tables().contains(table_name(w))),
{
    reveal_strlit("SELECT");
    reveal_strlit("INSERT");
    reveal_strlit("UPDATE");
    reveal_strlit("DELETE");
    assert("SELECT"@ != "INSERT"@ && "SELECT"@ != "UPDATE"@ && "SELECT"@ != "DELETE"@) by {
        assert("SELECT"@[0] != "INSERT"@[0]);
        assert("SELECT"@[0] != "UPDATE"@[0]);
        assert("SELECT"@[0] != "DELETE"@[0]);
    }
    let ts = app_tables();
    match target_word(words(sql), verb_of(words(sql))) {
        Some(w) => {
            let t = table_name(w);
            if ts.contains(t) {
                let i = choose|i: int| 0 <= i < ts.len() && ts[i] == t;
                assert(writable_table(t));
            }
            if writable_table(t) {
                if t == "activity_log"@ { assert(ts[0] == t); }
                else if t == "labels"@ { assert(ts[1] == t); }
                else if t == "note_links"@ { assert(ts[2] == t); }
                else if t == "notes_fts"@ { assert(ts[3] == t); }
                else if t == "notes_index_meta"@ { assert(ts[4] == t); }
                else if t == "projects"@ { assert(ts[5] == t); }
                else if t == "settings"@ { assert(ts[6] == t); }
                else if t == "subtasks"@ { assert(ts[7] == t); }
                else if t == "task_attachments"@ { assert(ts[8] == t); }
                else if t == "task_labels"@ { assert(ts[9] == t); }
                else if t == "task_notes"@ { assert(ts[10] == t); }
                else { assert(ts[11] == t); }
            }
        },
        None => {},
    }
}


/// Moving a note from `old` to `new` rewrites every mention link to `old`:
/// afterwards no link to `old` is left, a link to `new` stands where the
/// first one stood, text without a link to `old` stays as it is, and the
/// flag says whether there was a link to rewrite. This holds whenever the
/// link to `old` is not part of the link to `new` and `old` holds no `)`
/// (such a `)` lets a new link and the text after it spell the old one).
pub proof fn law_rewrite_leaves_no_old_mention(content: Seq<char>, old: Seq<char>, new: Seq<char>)
    requires
        !old.contains(')'),
        forall|q: int| !occurs_at(mention_token(new), mention_token(old), q),
    ensures
        forall|q: int| !occurs_at(#[trigger] rewrite_from(content, seq![(old, new)], 0, false).0, mention_token(old), q),
        rewrite_from(content, seq![(old, new)], 0, false).1 <==> exists|q: int| occurs_at(content, mention_token(old), q),
        (exists|q: int| occurs_at(content, mention_token(old), q)) ==> exists|q: int|
            occurs_at(rewrite_from(content, seq![(old, new)], 0, false).0, mention_token(new), q),
        !(exists|q: int| occurs_at(content, mention_token(old), q)) ==> rewrite_from(content, seq![(old, new)], 0, false).0 == content,
{
    let remap = seq![(old, new)];
    let pat = mention_token(old);
    let rep = mention_token(new);
    let r = rewrite_from(content, remap, 0, false);
    lemma_token_bracket_led(old);
    lemma_token_bracket_led(new);
    assert(!occurs_at(rep, pat, 0));
    lemma_tokens_differ(old, new);
    let k = crate::text::find_sub(content, pat, 0);
    if k >= 0 {
        let x = replace_all(content, pat, rep);
        assert(rewrite_from(x, remap, 1, true) == (x, true));
        assert(r == (x, true));
        lemma_replace_leaves_none(content, pat, rep, 0);
        crate::text::lemma_find_sub_first(content, pat, 0);
        crate::text::lemma_find_sub(content, pat, 0);
        assert(occurs_at(content, pat, k));
        assert forall|m: int| 0 <= m < k implies !occurs_at(content, pat, m) by {
            assert(content.subrange(m, m + pat.len()) != pat);
        }
        lemma_replace_copies(content, pat, rep, 0, k);
        let tail = crate::notetext::replace_from(content, pat, rep, k + pat.len());
        assert(crate::notetext::replace_from(content, pat, rep, k) == rep + tail);
        assert(x == content.subrange(0, k) + (rep + tail));
        assert(x.subrange(k, k + rep.len()) =~= rep);
        assert(occurs_at(x, rep, k));
        assert(occurs_at(r.0, rep, k));
    } else {
        crate::text::lemma_find_sub(content, pat, 0);
        assert(rewrite_from(content, remap, 1, false) == (content, false));
        assert(r == (content, false));
        lemma_no_find_no_occurrence(content, pat, 0);
        assert forall|q: int| !occurs_at(content, pat, q) by {
            if q >= 0 {
                assert(!occurs_at(content, pat, q));
            }
        }
    }
}


/// A number written in decimal is accepted for the port exactly when it is
/// at least 1024 (and fits a port), and for the default priority exactly
/// when it is at most 4.
pub proof fn law_number_settings_take_their_range(n: nat)
    ensures
        n <= 65535 ==> (setting_error("livePort"@, dec(n)) is None <==> n >= 1024),
        n <= 0x7fff_ffff ==> (setting_error("defaultPriority"@, dec(n)) is None <==> n <= 4),
{
    reveal_strlit("theme");
    reveal_strlit("sidebarCollapsed");
    reveal_strlit("backupEnabled");
    reveal_strlit("liveEnabled");
    reveal_strlit("livePort");
    reveal_strlit("defaultViewMode");
    reveal_strlit("defaultStatus");
    reveal_strlit("defaultPriority");
    lemma_dec_reads_back(n);
    let t = dec(n);
    assert(t[0] != '+' && t[0] != '-');
    assert(int_text(t, false) == Some(n as int));
    assert(int_text(t, true) == Some(n as int));
    assert("livePort"@.len() != "theme"@.len() && "livePort"@.len() != "sidebarCollapsed"@.len()
        && "livePort"@.len() != "backupEnabled"@.len() && "livePort"@.len() != "liveEnabled"@.len());
    assert("defaultPriority"@ != "defaultViewMode"@) by {
        assert("defaultPriority"@[7] != "defaultViewMode"@[7]);
    }
    assert("defaultPriority"@.len() != "theme"@.len() && "defaultPriority"@.len() != "sidebarCollapsed"@.len()
        && "defaultPriority"@.len() != "backupEnabled"@.len() && "defaultPriority"@.len() != "liveEnabled"@.len()
        && "defaultPriority"@.len() != "livePort"@.len() && "defaultPriority"@.len() != "defaultStatus"@.len());
}


/// Writes under `/api/notes/` reach the notes writer, deletes under
/// `/api/backups/` remove a backup and posts to `/api/backups/<name>/restore`
/// restore one; outside `/api/` reads are served as files and nothing else
/// is found.
pub proof fn law_api_families_route(path: Seq<char>)
    ensures
        "/api/notes/"@.is_prefix_of(path) ==> route_spec(Method::Post, path) == Route::NotesPost,
        "/api/backups/"@.is_prefix_of(path) ==> route_spec(Method::Delete, path) == Route::BackupDelete,
        "/api/backups/"@.is_prefix_of(path) && "/restore"@.is_suffix_of(path) ==> route_spec(Method::Post, path)
            == Route::BackupRestore,
        !"/api/"@.is_prefix_of(path) ==> route_spec(Method::Get, path) == Route::Static && route_spec(Method::Head, path)
            == Route::Static && route_spec(Method::Post, path) == Route::NotFound && route_spec(Method::Put, path)
            == Route::NotFound && route_spec(Method::Delete, path) == Route::NotFound,
{
    reveal_strlit("/api/");
    reveal_strlit("/api/notes/");
    reveal_strlit("/api/backups/");
    reveal_strlit("/api/backups");
    reveal_strlit("/api/attachment/");
    reveal_strlit("/api/select");
    reveal_strlit("/api/execute");
    reveal_strlit("/api/events/stream");
    reveal_strlit("/api/events");
    reveal_strlit("/api/notes/deep");
    reveal_strlit("/api/notes/root");
    reveal_strlit("/api/notes/folders");
    reveal_strlit("/api/notes/list");
    reveal_strlit("/api/notes/file");
    reveal_strlit("/api/notes/info");
    reveal_strlit("/api/notes/asset");
    if "/api/notes/"@.is_prefix_of(path) {
        assert(path.subrange(0, 11)[5] == path[5]);
        assert(path[5] == 'n');
        assert(path != "/api/select"@) by {
            if path == "/api/select"@ {
                assert("/api/select"@[5] == 's');
            }
        }
        assert(path != "/api/execute"@) by {
            if path == "/api/execute"@ {
                assert("/api/execute"@[5] == 'e');
            }
        }
    }
    if "/api/backups/"@.is_prefix_of(path) {
        assert(path.subrange(0, 13)[5] == path[5]);
        assert(path[5] == 'b');
        assert(!"/api/attachment/"@.is_prefix_of(path)) by {
            if "/api/attachment/"@.is_prefix_of(path) {
                assert(path.subrange(0, 16)[5] == path[5]);
            }
        }
        assert(!"/api/notes/"@.is_prefix_of(path)) by {
            if "/api/notes/"@.is_prefix_of(path) {
                assert(path.subrange(0, 11)[5] == path[5]);
            }
        }
        assert(path != "/api/select"@) by {
            if path == "/api/select"@ {
                assert("/api/select"@[5] == 's');
            }
        }
        assert(path != "/api/execute"@) by {
            if path == "/api/execute"@ {
                assert("/api/execute"@[5] == 'e');
            }
        }
        assert(path != "/api/backups"@) by {
            if path == "/api/backups"@ {
                assert(path.len() >= 13);
            }
        }
    }
    if !"/api/"@.is_prefix_of(path) {
        let api = "/api/"@;
        assert(!"/api/attachment/"@.is_prefix_of(path)) by {
            if "/api/attachment/"@.is_prefix_of(path) {
                assert(path.subrange(0, 5) =~= "/api/attachment/"@.subrange(0, 5));
                assert("/api/attachment/"@.subrange(0, 5) =~= api);
            }
        }
        assert(!"/api/notes/"@.is_prefix_of(path)) by {
            if "/api/notes/"@.is_prefix_of(path) {
                assert(path.subrange(0, 5) =~= "/api/notes/"@.subrange(0, 5));
                assert("/api/notes/"@.subrange(0, 5) =~= api);
            }
        }
        assert(!"/api/backups/"@.is_prefix_of(path)) by {
            if "/api/backups/"@.is_prefix_of(path) {
                assert(path.subrange(0, 5) =~= "/api/backups/"@.subrange(0, 5));
                assert("/api/backups/"@.subrange(0, 5) =~= api);
            }
        }
        assert(path != "/api/select"@) by {
            if path == "/api/select"@ {
                assert(path.subrange(0, 5) =~= api);
            }
        }
        assert(path != "/api/execute"@) by {
            if path == "/api/execute"@ {
                assert(path.subrange(0, 5) =~= api);
            }
        }
        assert(path != "/api/backups"@) by {
            if path == "/api/backups"@ {
                assert(path.subrange(0, 5) =~= api);
            }
        }
    }
}

} // verus!
