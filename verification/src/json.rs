//! JSON encoding and decoding of the [`User`] record.
//!
//! The encoder emits the fields in the order `id`, `name`, `email`, with a
//! `null` identifier when none is assigned, and escapes quotes, backslashes
//! and the common control characters inside strings. The decoder accepts the
//! same shape, with the `id` member optional and whitespace allowed between
//! tokens.

use vstd::prelude::*;
use crate::{User, UserView};
use crate::num::{
    digits_val, is_digit, spec_i32_string, spec_nat_digits, i32_to_string,
    lemma_digits_val_prefix,
};
use crate::router::skip_space;
use crate::text::{push_char, spec_match_at};

verus! {

/// The characters an escape sequence `\c` stands for.
pub open spec fn unescape_char(c: char) -> char {
    if c == 'n' {
        '\n'
    } else if c == 'r' {
        '\r'
    } else if c == 't' {
        '\t'
    } else if c == 'b' {
        '\u{8}'
    } else if c == 'f' {
        '\u{c}'
    } else {
        c
    }
}

/// Is `c` a valid character after a backslash?
pub open spec fn is_escape_code(c: char) -> bool {
    c == '"' || c == '\\' || c == '/' || c == 'n' || c == 'r' || c == 't' || c == 'b' || c == 'f'
}

/// How one character is written inside a JSON string.
pub open spec fn escape_char(c: char) -> Seq<char> {
    if c == '"' {
        seq!['\\', '"']
    } else if c == '\\' {
        seq!['\\', '\\']
    } else if c == '\n' {
        seq!['\\', 'n']
    } else if c == '\r' {
        seq!['\\', 'r']
    } else if c == '\t' {
        seq!['\\', 't']
    } else {
        seq![c]
    }
}

/// How a whole character sequence is written inside a JSON string.
pub open spec fn escape_seq(s: Seq<char>) -> Seq<char>
    decreases s.len(),
{
    if s.len() == 0 {
        Seq::<char>::empty()
    } else {
        escape_seq(s.drop_last()) + escape_char(s.last())
    }
}

/// A JSON string token: the escaped text between two quotes.
pub open spec fn spec_json_string(s: Seq<char>) -> Seq<char> {
    seq!['"'] + escape_seq(s) + seq!['"']
}

/// How the identifier member is written: `null` when absent.
pub open spec fn spec_id_json(id: Option<i32>) -> Seq<char> {
    match id {
        None => "null"@,
        Some(i) => spec_i32_string(i as int),
    }
}

/// The JSON object for one user, fields in the order `id`, `name`, `email`.
pub open spec fn spec_user_json(u: UserView) -> Seq<char> {
    "{\"id\":"@ + spec_id_json(u.id) + ",\"name\":"@ + spec_json_string(u.name)
        + ",\"email\":"@ + spec_json_string(u.email) + "}"@
}

/// The comma-separated bodies of a JSON array of users.
pub open spec fn spec_users_json_items(us: Seq<UserView>) -> Seq<char>
    decreases us.len(),
{
    if us.len() == 0 {
        Seq::<char>::empty()
    } else if us.len() == 1 {
        spec_user_json(us[0])
    } else {
        spec_users_json_items(us.drop_last()) + seq![','] + spec_user_json(us.last())
    }
}

/// The JSON array for a sequence of users, in order.
pub open spec fn spec_users_json(us: Seq<UserView>) -> Seq<char> {
    seq!['['] + spec_users_json_items(us) + seq![']']
}

/// Appends the escaped form of `s` to `out`.
fn push_escaped(s: &str, out: &mut String)
    ensures
        final(out)@ == old(out)@ + escape_seq(s@),
{
    let n = s.unicode_len();
    let mut j: usize = 0;
    while j < n
        invariant
            j <= n,
            n == s@.len(),
            out@ == old(out)@ + escape_seq(s@.subrange(0, j as int)),
        decreases n - j,
    {
        let c = s.get_char(j);
        proof {
            let pre = s@.subrange(0, j as int);
            let cur = s@.subrange(0, j as int + 1);
            assert(cur.drop_last() =~= pre);
            assert(cur.last() == s@[j as int]);
        }
        if c == '"' {
            push_char(out, '\\');
            push_char(out, '"');
        } else if c == '\\' {
            push_char(out, '\\');
            push_char(out, '\\');
        } else if c == '\n' {
            push_char(out, '\\');
            push_char(out, 'n');
        } else if c == '\r' {
            push_char(out, '\\');
            push_char(out, 'r');
        } else if c == '\t' {
            push_char(out, '\\');
            push_char(out, 't');
        } else {
            push_char(out, c);
        }
        proof {
            let cur = s@.subrange(0, j as int + 1);
            assert(out@ =~= old(out)@ + escape_seq(cur));
        }
        j += 1;
    }
    proof {
        assert(s@.subrange(0, n as int) =~= s@);
    }
}

/// Appends the JSON string token for `s` to `out`.
fn push_json_string(s: &str, out: &mut String)
    ensures
        final(out)@ == old(out)@ + spec_json_string(s@),
{
    push_char(out, '"');
    push_escaped(s, out);
    push_char(out, '"');
    assert(out@ =~= old(out)@ + spec_json_string(s@));
}

/// Encodes one user as its JSON object.
pub fn user_to_json(u: &User) -> (r: String)
    ensures
        r@ == spec_user_json(u@),
{
    let mut out = String::new();
    out.append("{\"id\":");
    match u.id {
        None => {
            out.append("null");
        },
        Some(i) => {
            let d = i32_to_string(i);
            out.append(d.as_str());
        },
    }
    out.append(",\"name\":");
    push_json_string(u.name.as_str(), &mut out);
    out.append(",\"email\":");
    push_json_string(u.email.as_str(), &mut out);
    out.append("}");
    assert(out@ =~= spec_user_json(u@));
    out
}

/// Encodes a sequence of users as a JSON array, in order.
pub fn users_to_json(us: &Vec<User>) -> (r: String)
    ensures
        r@ == spec_users_json(us@.map_values(|u: User| u@)),
{
    let ghost views = us@.map_values(|u: User| u@);
    let mut out = String::new();
    push_char(&mut out, '[');
    let mut k: usize = 0;
    while k < us.len()
        invariant
            k <= us.len(),
            views == us@.map_values(|u: User| u@),
            out@ == seq!['['] + spec_users_json_items(views.subrange(0, k as int)),
        decreases us.len() - k,
    {
        if k > 0 {
            push_char(&mut out, ',');
        }
        let j = user_to_json(&us[k]);
        out.append(j.as_str());
        proof {
            let pre = views.subrange(0, k as int);
            let cur = views.subrange(0, k as int + 1);
            assert(cur.drop_last() =~= pre);
            assert(cur.last() == views[k as int]);
            assert(out@ =~= seq!['['] + spec_users_json_items(cur));
        }
        k += 1;
    }
    push_char(&mut out, ']');
    proof {
        assert(views.subrange(0, us@.len() as int) =~= views);
        assert(out@ =~= spec_users_json(views));
    }
    out
}

/// Scans a JSON string body from `i` (just past the opening quote) to the
/// closing quote: the decoded characters and the index after the quote.
/// `None` on an unterminated string or an unknown escape.
pub open spec fn spec_parse_str_body(s: Seq<char>, i: int) -> Option<(Seq<char>, int)>
    decreases s.len() - i,
{
    if i < 0 || i >= s.len() {
        None
    } else if s[i] == '"' {
        Some((Seq::<char>::empty(), i + 1))
    } else if s[i] == '\\' {
        if i + 1 < s.len() && is_escape_code(s[i + 1]) {
            match spec_parse_str_body(s, i + 2) {
                None => None,
                Some(te) => Some((seq![unescape_char(s[i + 1])] + te.0, te.1)),
            }
        } else {
            None
        }
    } else {
        match spec_parse_str_body(s, i + 1) {
            None => None,
            Some(te) => Some((seq![s[i]] + te.0, te.1)),
        }
    }
}

/// A quoted JSON string token starting at `i`.
pub open spec fn spec_parse_string(s: Seq<char>, i: int) -> Option<(Seq<char>, int)> {
    if 0 <= i < s.len() && s[i] == '"' {
        spec_parse_str_body(s, i + 1)
    } else {
        None
    }
}

/// Index of the first non-digit character at or after `from`,
/// or `s.len()` if there is none.
pub open spec fn end_digits(s: Seq<char>, from: int) -> int
    decreases s.len() - from,
{
    if from < 0 || from >= s.len() {
        s.len() as int
    } else if !is_digit(s[from]) {
        from
    } else {
        end_digits(s, from + 1)
    }
}

/// The digit run starting at `from` ends in bounds, holds digits only, and
/// stops at a non-digit.
pub proof fn lemma_end_digits(s: Seq<char>, from: int)
    requires
        0 <= from <= s.len(),
    ensures
        from <= end_digits(s, from) <= s.len(),
        crate::num::all_digits(s.subrange(from, end_digits(s, from))),
        end_digits(s, from) < s.len() ==> !is_digit(s[end_digits(s, from)]),
    decreases s.len() - from,
{
    let e = end_digits(s, from);
    if from == s.len() {
        assert(s.subrange(from, e) =~= Seq::<char>::empty());
    } else if !is_digit(s[from]) {
        assert(s.subrange(from, e) =~= Seq::<char>::empty());
    } else {
        lemma_end_digits(s, from + 1);
        assert forall|k: int| 0 <= k < s.subrange(from, e).len() implies is_digit(
            s.subrange(from, e)[k],
        ) by {
            if k > 0 {
                assert(s.subrange(from, e)[k] == s.subrange(from + 1, e)[k - 1]);
            }
        }
    }
}

/// A signed decimal integer token at `i`: an optional `-`, then one or more
/// digits, read greedily; `None` when no digit follows or the value does not
/// fit in 32 bits.
pub open spec fn spec_parse_int(s: Seq<char>, i: int) -> Option<(i32, int)> {
    let neg = 0 <= i < s.len() && s[i] == '-';
    let d0 = if neg {
        i + 1
    } else {
        i
    };
    let e = end_digits(s, d0);
    if i < 0 || e == d0 {
        None
    } else {
        let ds = s.subrange(d0, e);
        let v = if neg {
            -digits_val(ds)
        } else {
            digits_val(ds)
        };
        if i32::MIN <= v <= i32::MAX {
            Some((v as i32, e))
        } else {
            None
        }
    }
}

/// Whitespace, a colon, then whitespace: the index after them, or `None`
/// when the colon is missing.
pub open spec fn spec_field_sep(s: Seq<char>, i: int) -> Option<int> {
    let a = skip_space(s, i);
    if a < s.len() && s[a] == ':' {
        Some(skip_space(s, a + 1))
    } else {
        None
    }
}

/// The optional `"id"` member at `i`, including its trailing comma: the
/// identifier value and the index of the next member. When no `"id"` key
/// stands at `i`, the identifier is absent and the index unchanged.
pub open spec fn spec_parse_id_part(s: Seq<char>, i: int) -> Option<(Option<i32>, int)> {
    if spec_match_at(s, i, "\"id\""@) {
        match spec_field_sep(s, i + 4) {
            None => None,
            Some(a) => {
                if spec_match_at(s, a, "null"@) {
                    let c = skip_space(s, a + 4);
                    if c < s.len() && s[c] == ',' {
                        Some((None, skip_space(s, c + 1)))
                    } else {
                        None
                    }
                } else {
                    match spec_parse_int(s, a) {
                        None => None,
                        Some(ve) => {
                            let c = skip_space(s, ve.1);
                            if c < s.len() && s[c] == ',' {
                                Some((Some(ve.0), skip_space(s, c + 1)))
                            } else {
                                None
                            }
                        },
                    }
                }
            },
        }
    } else {
        Some((None, i))
    }
}

/// The `"name"` and `"email"` members at `i`, in that order, separated by a
/// comma: the two decoded strings and the index after the email string.
pub open spec fn spec_parse_name_email(s: Seq<char>, i: int) -> Option<(Seq<char>, Seq<char>, int)> {
    if !spec_match_at(s, i, "\"name\""@) {
        None
    } else {
        match spec_field_sep(s, i + 6) {
            None => None,
            Some(a) => match spec_parse_string(s, a) {
                None => None,
                Some(nm) => {
                    let c = skip_space(s, nm.1);
                    if !(c < s.len() && s[c] == ',') {
                        None
                    } else {
                        let d = skip_space(s, c + 1);
                        if !spec_match_at(s, d, "\"email\""@) {
                            None
                        } else {
                            match spec_field_sep(s, d + 7) {
                                None => None,
                                Some(b) => match spec_parse_string(s, b) {
                                    None => None,
                                    Some(em) => Some((nm.0, em.0, em.1)),
                                },
                            }
                        }
                    }
                },
            },
        }
    }
}

/// What the decoder accepts as a whole user object: `{`, an optional `id`
/// member, then `name` and `email` string members in that order, `}`, and
/// nothing but whitespace around the tokens.
pub open spec fn spec_parse_user(s: Seq<char>) -> Option<UserView> {
    let i0 = skip_space(s, 0);
    if !(i0 < s.len() && s[i0] == '{') {
        None
    } else {
        match spec_parse_id_part(s, skip_space(s, i0 + 1)) {
            None => None,
            Some(idp) => match spec_parse_name_email(s, idp.1) {
                None => None,
                Some(ne) => {
                    let e1 = skip_space(s, ne.2);
                    if e1 < s.len() && s[e1] == '}' && skip_space(s, e1 + 1) == s.len() {
                        Some(UserView { id: idp.0, name: ne.0, email: ne.1 })
                    } else {
                        None
                    }
                },
            },
        }
    }
}

/// Decodes a JSON string body from `i` to the closing quote.
fn parse_str_body(s: &str, i: usize) -> (r: Option<(String, usize)>)
    requires
        i <= s@.len(),
    ensures
        match r {
            None => spec_parse_str_body(s@, i as int) is None,
            Some(te) => spec_parse_str_body(s@, i as int) == Some((te.0@, te.1 as int)) && i
                < te.1 <= s@.len(),
        },
    decreases s@.len() - i,
{
    let n = s.unicode_len();
    if i >= n {
        return None;
    }
    let c = s.get_char(i);
    if c == '"' {
        let w = String::new();
        Some((w, i + 1))
    } else if c == '\\' {
        if i + 1 >= n {
            return None;
        }
        let c2 = s.get_char(i + 1);
        if !(c2 == '"' || c2 == '\\' || c2 == '/' || c2 == 'n' || c2 == 'r' || c2 == 't' || c2
            == 'b' || c2 == 'f') {
            return None;
        }
        let u = if c2 == 'n' {
            '\n'
        } else if c2 == 'r' {
            '\r'
        } else if c2 == 't' {
            '\t'
        } else if c2 == 'b' {
            '\u{8}'
        } else if c2 == 'f' {
            '\u{c}'
        } else {
            c2
        };
        match parse_str_body(s, i + 2) {
            None => None,
            Some((t, e)) => {
                let mut w = String::new();
                push_char(&mut w, u);
                w.append(t.as_str());
                assert(w@ =~= seq![unescape_char(s@[i + 1])] + t@);
                Some((w, e))
            },
        }
    } else {
        match parse_str_body(s, i + 1) {
            None => None,
            Some((t, e)) => {
                let mut w = String::new();
                push_char(&mut w, c);
                w.append(t.as_str());
                assert(w@ =~= seq![s@[i as int]] + t@);
                Some((w, e))
            },
        }
    }
}

/// Decodes a quoted JSON string token at `i`.
fn parse_string(s: &str, i: usize) -> (r: Option<(String, usize)>)
    requires
        i <= s@.len(),
    ensures
        match r {
            None => spec_parse_string(s@, i as int) is None,
            Some(te) => spec_parse_string(s@, i as int) == Some((te.0@, te.1 as int)) && i
                < te.1 <= s@.len(),
        },
{
    let n = s.unicode_len();
    if i < n && s.get_char(i) == '"' {
        parse_str_body(s, i + 1)
    } else {
        None
    }
}

/// Scans forward over decimal digits.
fn scan_digits(s: &str, from: usize) -> (r: usize)
    requires
        from <= s@.len(),
    ensures
        r == end_digits(s@, from as int),
        from <= r <= s@.len(),
{
    let n = s.unicode_len();
    let mut j: usize = from;
    while j < n
        invariant
            from <= j <= n,
            n == s@.len(),
            end_digits(s@, from as int) == end_digits(s@, j as int),
        decreases n - j,
    {
        let c = s.get_char(j);
        if !(c >= '0' && c <= '9') {
            return j;
        }
        assert(end_digits(s@, j as int) == end_digits(s@, j + 1));
        j += 1;
    }
    j
}

/// Decodes a signed decimal integer token at `i`, exactly as the grammar
/// in [`spec_parse_int`] reads it.
fn parse_json_int(s: &str, i: usize) -> (r: Option<(i32, usize)>)
    requires
        i <= s@.len(),
    ensures
        match r {
            None => spec_parse_int(s@, i as int) is None,
            Some(ve) => spec_parse_int(s@, i as int) == Some((ve.0, ve.1 as int)) && i
                < ve.1 <= s@.len(),
        },
{
    let n = s.unicode_len();
    let neg = i < n && s.get_char(i) == '-';
    let d0: usize = if neg {
        i + 1
    } else {
        i
    };
    let e = scan_digits(s, d0);
    if e == d0 {
        return None;
    }
    let ghost ds = s@.subrange(d0 as int, e as int);
    proof {
        lemma_end_digits(s@, d0 as int);
    }
    let mut acc: u64 = 0;
    let mut j: usize = d0;
    while j < e
        invariant
            d0 <= j <= e <= n,
            n == s@.len(),
            ds == s@.subrange(d0 as int, e as int),
            crate::num::all_digits(ds),
            acc <= 0x8000_0000,
            acc == digits_val(ds.subrange(0, (j - d0) as int)),
            e == end_digits(s@, d0 as int),
            d0 < e,
            i <= n,
            neg == (i < n && s@[i as int] == '-'),
            d0 == (if neg { i + 1 } else { i as int }),
        decreases e - j,
    {
        let c = s.get_char(j);
        assert(ds[(j - d0) as int] == s@[j as int]);
        assert(is_digit(c));
        let d: u32 = c as u32 - 0x30;
        proof {
            let pre = ds.subrange(0, (j - d0) as int);
            let cur = ds.subrange(0, (j - d0) as int + 1);
            assert(cur.drop_last() =~= pre);
            assert(cur.last() == s@[j as int]);
        }
        acc = acc * 10 + d as u64;
        j += 1;
        if acc > 0x8000_0000 {
            proof {
                lemma_digits_val_prefix(ds, (j - d0) as int);
            }
            return None;
        }
    }
    proof {
        assert(ds.subrange(0, (j - d0) as int) =~= ds);
    }
    if neg {
        if acc == 0x8000_0000 {
            Some((i32::MIN, e))
        } else {
            Some((-(acc as i32), e))
        }
    } else {
        if acc == 0x8000_0000 {
            None
        } else {
            Some((acc as i32, e))
        }
    }
}

/// Skips whitespace from `i`.
fn skip_ws(s: &str, i: usize) -> (r: usize)
    requires
        i <= s@.len(),
    ensures
        r == skip_space(s@, i as int),
        i <= r <= s@.len(),
{
    crate::router::scan_space(s, i, false)
}

/// Reads whitespace, a colon, and more whitespace at `i`.
fn parse_field_sep(s: &str, i: usize) -> (r: Option<usize>)
    requires
        i <= s@.len(),
    ensures
        match r {
            None => spec_field_sep(s@, i as int) is None,
            Some(e) => spec_field_sep(s@, i as int) == Some(e as int) && e <= s@.len(),
        },
{
    let a = skip_ws(s, i);
    let n = s.unicode_len();
    if a < n && s.get_char(a) == ':' {
        Some(skip_ws(s, a + 1))
    } else {
        None
    }
}

/// Decodes the whole JSON object for one user, following the grammar in
/// [`spec_parse_user`] exactly.
pub fn parse_user(s: &str) -> (r: Option<User>)
    ensures
        match r {
            None => spec_parse_user(s@) is None,
            Some(u) => spec_parse_user(s@) == Some(u@),
        },
{
    let n = s.unicode_len();
    let i0 = skip_ws(s, 0);
    if !(i0 < n && s.get_char(i0) == '{') {
        return None;
    }
    let i1 = skip_ws(s, i0 + 1);
    let id: Option<i32>;
    let j: usize;
    if crate::text::match_at(s, i1, "\"id\"") {
        proof {
            reveal_strlit("\"id\"");
        }
        assert(i1 + 4 <= n);
        let a = match parse_field_sep(s, i1 + 4) {
            None => {
                return None;
            },
            Some(a) => a,
        };
        if crate::text::match_at(s, a, "null") {
            proof {
                reveal_strlit("null");
            }
            let c = skip_ws(s, a + 4);
            if !(c < n && s.get_char(c) == ',') {
                return None;
            }
            id = None;
            j = skip_ws(s, c + 1);
        } else {
            let (v, b) = match parse_json_int(s, a) {
                None => {
                    return None;
                },
                Some(vb) => vb,
            };
            let c = skip_ws(s, b);
            if !(c < n && s.get_char(c) == ',') {
                return None;
            }
            id = Some(v);
            j = skip_ws(s, c + 1);
        }
    } else {
        id = None;
        j = i1;
    }
    assert(spec_parse_id_part(s@, i1 as int) == Some((id, j as int)));
    if !crate::text::match_at(s, j, "\"name\"") {
        return None;
    }
    proof {
        reveal_strlit("\"name\"");
    }
    let a2 = match parse_field_sep(s, j + 6) {
        None => {
            return None;
        },
        Some(a) => a,
    };
    let (name, p) = match parse_string(s, a2) {
        None => {
            return None;
        },
        Some(t) => t,
    };
    let c2 = skip_ws(s, p);
    if !(c2 < n && s.get_char(c2) == ',') {
        return None;
    }
    let d2 = skip_ws(s, c2 + 1);
    if !crate::text::match_at(s, d2, "\"email\"") {
        return None;
    }
    proof {
        reveal_strlit("\"email\"");
    }
    let b2 = match parse_field_sep(s, d2 + 7) {
        None => {
            return None;
        },
        Some(b) => b,
    };
    let (email, q) = match parse_string(s, b2) {
        None => {
            return None;
        },
        Some(t) => t,
    };
    let e1 = skip_ws(s, q);
    if !(e1 < n && s.get_char(e1) == '}') {
        return None;
    }
    if skip_ws(s, e1 + 1) != n {
        return None;
    }
    Some(User { id, name, email })
}

/// A slice of an equal slice: narrowing a known subrange keeps equality.
proof fn lemma_subrange_shift(s: Seq<char>, i: int, len: int, x: Seq<char>, a: int, b: int)
    requires
        0 <= i,
        i + len <= s.len(),
        s.subrange(i, i + len) == x,
        x.len() == len,
        0 <= a <= b <= len,
    ensures
        s.subrange(i + a, i + b) == x.subrange(a, b),
{
    assert forall|t: int| 0 <= t < b - a implies #[trigger] s.subrange(i + a, i + b)[t]
        == x.subrange(a, b)[t] by {
        assert(s.subrange(i, i + len)[a + t] == x[a + t]);
    }
    assert(s.subrange(i + a, i + b) =~= x.subrange(a, b));
}

/// Escaping reads the same from the front as from the back: the escape of a
/// sequence starts with the escape of its first character.
proof fn lemma_escape_front(v: Seq<char>)
    requires
        v.len() > 0,
    ensures
        escape_seq(v) == escape_char(v[0]) + escape_seq(v.drop_first()),
    decreases v.len(),
{
    if v.len() == 1 {
        assert(v.drop_last() =~= Seq::<char>::empty());
        assert(v.drop_first() =~= Seq::<char>::empty());
        assert(escape_seq(v) =~= escape_char(v[0]) + escape_seq(v.drop_first()));
    } else {
        let w = v.drop_last();
        lemma_escape_front(w);
        let t = v.drop_first();
        assert(w.drop_first() =~= t.drop_last());
        assert(t.last() == v.last());
        assert(w[0] == v[0]);
        assert(escape_seq(t) == escape_seq(t.drop_last()) + escape_char(t.last()));
        assert(escape_seq(v) =~= escape_char(v[0]) + escape_seq(t));
    }
}

/// Reading an escaped text up to its closing quote recovers the original
/// characters and stops right after the quote.
proof fn lemma_str_body_round_trip(v: Seq<char>, s: Seq<char>, i: int)
    requires
        0 <= i,
        i + escape_seq(v).len() + 1 <= s.len(),
        s.subrange(i, i + escape_seq(v).len() + 1) == escape_seq(v) + seq!['"'],
    ensures
        spec_parse_str_body(s, i) == Some((v, i + escape_seq(v).len() + 1)),
    decreases v.len(),
{
    let esc = escape_seq(v);
    if v.len() == 0 {
        assert(s.subrange(i, i + 1)[0] == '"');
        assert(s[i] == '"');
        assert(Seq::<char>::empty() =~= v);
    } else {
        let c = v[0];
        let t = v.drop_first();
        lemma_escape_front(v);
        let ec = escape_char(c);
        let esct = escape_seq(t);
        let x = esc + seq!['"'];
        lemma_subrange_shift(s, i, esc.len() as int + 1, x, ec.len() as int, esc.len() as int + 1);
        assert(x.subrange(ec.len() as int, esc.len() as int + 1) =~= esct + seq!['"']);
        assert(s.subrange(i + ec.len(), i + esc.len() + 1) =~= esct + seq!['"']);
        if c == '"' || c == '\\' || c == '\n' || c == '\r' || c == '\t' {
            let code = ec[1];
            assert(s.subrange(i, i + esc.len() + 1)[0] == '\\');
            assert(s.subrange(i, i + esc.len() + 1)[1] == code);
            assert(s[i] == '\\' && s[i + 1] == code);
            assert(is_escape_code(code));
            assert(unescape_char(code) == c);
            lemma_str_body_round_trip(t, s, i + 2);
            assert(seq![c] + t =~= v);
        } else {
            assert(ec =~= seq![c]);
            assert(s.subrange(i, i + esc.len() + 1)[0] == c);
            assert(s[i] == c);
            lemma_str_body_round_trip(t, s, i + 1);
            assert(seq![s[i]] + t =~= v);
        }
    }
}

/// A whole JSON string token standing at `i` parses back to its text.
proof fn lemma_json_string_at(v: Seq<char>, s: Seq<char>, i: int)
    requires
        0 <= i,
        i + spec_json_string(v).len() <= s.len(),
        s.subrange(i, i + spec_json_string(v).len()) == spec_json_string(v),
    ensures
        spec_parse_string(s, i) == Some((v, i + spec_json_string(v).len())),
{
    let tok = spec_json_string(v);
    assert(s.subrange(i, i + tok.len())[0] == '"');
    assert(s[i] == '"');
    lemma_subrange_shift(s, i, tok.len() as int, tok, 1, tok.len() as int);
    assert(tok.subrange(1, tok.len() as int) =~= escape_seq(v) + seq!['"']);
    assert(s.subrange(i + 1, i + 1 + escape_seq(v).len() + 1) =~= escape_seq(v) + seq!['"']);
    lemma_str_body_round_trip(v, s, i + 1);
}

/// A digit run bounded by a non-digit is exactly what `end_digits` finds.
proof fn lemma_end_digits_exact(s: Seq<char>, from: int, e: int)
    requires
        0 <= from <= e < s.len(),
        crate::num::all_digits(s.subrange(from, e)),
        !is_digit(s[e]),
    ensures
        end_digits(s, from) == e,
    decreases e - from,
{
    if from == e {
    } else {
        assert(is_digit(s.subrange(from, e)[0]));
        assert forall|k: int| 0 <= k < e - from - 1 implies is_digit(
            #[trigger] s.subrange(from + 1, e)[k],
        ) by {
            assert(s.subrange(from + 1, e)[k] == s.subrange(from, e)[k + 1]);
        }
        lemma_end_digits_exact(s, from + 1, e);
    }
}

/// The decimal numeral of a 32-bit value, standing at `i` and bounded by a
/// non-digit, parses back to the value.
proof fn lemma_parse_int_round_trip(s: Seq<char>, i: int, v: i32)
    requires
        0 <= i,
        i + spec_i32_string(v as int).len() < s.len(),
        s.subrange(i, i + spec_i32_string(v as int).len()) == spec_i32_string(v as int),
        !is_digit(s[i + spec_i32_string(v as int).len()]),
    ensures
        spec_parse_int(s, i) == Some((v, i + spec_i32_string(v as int).len())),
{
    let m = spec_i32_string(v as int);
    if v >= 0 {
        crate::num::lemma_nat_digits_val(v as int);
        assert(m == spec_nat_digits(v as int));
        assert(s.subrange(i, i + m.len())[0] == m[0]);
        assert(is_digit(m[0]));
        assert(s[i] != '-');
        let e = i + m.len();
        assert(s.subrange(i, e) == m);
        assert(crate::num::all_digits(s.subrange(i, e)));
        lemma_end_digits_exact(s, i, e);
        assert(digits_val(s.subrange(i, e)) == v as int);
    } else {
        let mag = -(v as int);
        crate::num::lemma_nat_digits_val(mag);
        assert(m == seq!['-'] + spec_nat_digits(mag));
        assert(s.subrange(i, i + m.len())[0] == '-');
        assert(s[i] == '-');
        let e = i + m.len();
        let d0 = i + 1;
        lemma_subrange_shift(s, i, m.len() as int, m, 1, m.len() as int);
        assert(m.subrange(1, m.len() as int) =~= spec_nat_digits(mag));
        assert(s.subrange(d0, e) =~= spec_nat_digits(mag));
        assert(crate::num::all_digits(s.subrange(d0, e)));
        lemma_end_digits_exact(s, d0, e);
        assert(digits_val(s.subrange(d0, e)) == mag);
    }
}

/// Round trip: the JSON object written for a user decodes back to the same
/// identifier, name and email.
#[verifier::rlimit(100)]
pub proof fn lemma_user_json_round_trip(uv: UserView)
    ensures
        spec_parse_user(spec_user_json(uv)) == Some(uv),
{
    reveal_strlit("{\"id\":");
    reveal_strlit(",\"name\":");
    reveal_strlit(",\"email\":");
    reveal_strlit("}");
    reveal_strlit("null");
    reveal_strlit("\"id\"");
    reveal_strlit("\"name\"");
    reveal_strlit("\"email\"");
    let s = spec_user_json(uv);
    let a = "{\"id\":"@;
    let idr = spec_id_json(uv.id);
    let b = ",\"name\":"@;
    let nm = spec_json_string(uv.name);
    let c = ",\"email\":"@;
    let em = spec_json_string(uv.email);
    let d = "}"@;
    assert(a.len() == 6 && b.len() == 8 && c.len() == 9 && d.len() == 1);
    let li = idr.len() as int;
    if uv.id is Some {
        let idv = uv.id->0;
        if idv >= 0 {
            crate::num::lemma_nat_digits_val(idv as int);
        } else {
            crate::num::lemma_nat_digits_val(-(idv as int));
        }
    }
    assert(li >= 1);
    let o2 = 6 + li;
    let o3 = o2 + 8;
    let o4 = o3 + nm.len() as int;
    let o5 = o4 + 9;
    let o6 = o5 + em.len() as int;
    assert(s.len() == o6 + 1);
    // The opening brace and the `"id"` key.
    assert(s[0] == '{' && s[1] == '"' && s[2] == 'i' && s[3] == 'd' && s[4] == '"' && s[5]
        == ':');
    assert(skip_space(s, 0) == 0);
    assert(skip_space(s, 1) == 1);
    assert(s.subrange(1, 5) =~= "\"id\""@);
    assert(spec_match_at(s, 1, "\"id\""@));
    assert(skip_space(s, 5) == 5);
    assert(s[6] == idr[0]);
    // The identifier value, then the comma before `"name"`.
    assert(s[o2] == b[0] && s[o2] == ',');
    match uv.id {
        None => {
            assert(idr == "null"@);
            assert(s.subrange(6, 10) =~= "null"@);
            assert(spec_match_at(s, 6, "null"@));
            assert(skip_space(s, 6) == 6);
            assert(skip_space(s, 10) == 10);
            assert(skip_space(s, 11) == 11);
            assert(spec_parse_id_part(s, 1) == Some((None::<i32>, o2 + 1)));
        },
        Some(idv) => {
            assert(idr == spec_i32_string(idv as int));
            if idv >= 0 {
                assert(is_digit(idr[0]));
            } else {
                assert(idr[0] == '-');
            }
            assert(idr[0] != 'n');
            assert(skip_space(s, 6) == 6);
            if spec_match_at(s, 6, "null"@) {
                assert(s.subrange(6, 10)[0] == 'n');
                assert(false);
            }
            assert(s.subrange(6, 6 + li) =~= idr);
            assert(!is_digit(','));
            lemma_parse_int_round_trip(s, 6, idv);
            assert(spec_parse_int(s, 6) == Some((idv, o2)));
            assert(skip_space(s, o2) == o2);
            assert(s[o2 + 1] == b[1] && s[o2 + 1] == '"');
            assert(skip_space(s, o2 + 1) == o2 + 1);
            assert(spec_parse_id_part(s, 1) == Some((Some(idv), o2 + 1)));
        },
    }
    // The `"name"` member.
    assert(s[o2 + 1] == '"' && s[o2 + 2] == 'n' && s[o2 + 3] == 'a' && s[o2 + 4] == 'm' && s[o2
        + 5] == 'e' && s[o2 + 6] == '"' && s[o2 + 7] == ':');
    assert(s.subrange(o2 + 1, o2 + 7) =~= "\"name\""@);
    assert(spec_match_at(s, o2 + 1, "\"name\""@));
    assert(skip_space(s, o2 + 7) == o2 + 7);
    assert(s[o3] == nm[0] && s[o3] == '"');
    assert(skip_space(s, o3) == o3);
    assert(spec_field_sep(s, o2 + 7) == Some(o3));
    assert(s.subrange(o3, o4) =~= nm);
    lemma_json_string_at(uv.name, s, o3);
    assert(spec_parse_string(s, o3) == Some((uv.name, o4)));
    // The comma and the `"email"` member.
    assert(s[o4] == c[0] && s[o4] == ',');
    assert(skip_space(s, o4) == o4);
    assert(s[o4 + 1] == '"' && s[o4 + 2] == 'e' && s[o4 + 3] == 'm' && s[o4 + 4] == 'a' && s[o4
        + 5] == 'i' && s[o4 + 6] == 'l' && s[o4 + 7] == '"' && s[o4 + 8] == ':');
    assert(skip_space(s, o4 + 1) == o4 + 1);
    assert(s.subrange(o4 + 1, o4 + 8) =~= "\"email\""@);
    assert(spec_match_at(s, o4 + 1, "\"email\""@));
    assert(skip_space(s, o4 + 8) == o4 + 8);
    assert(s[o5] == em[0] && s[o5] == '"');
    assert(skip_space(s, o5) == o5);
    assert(spec_field_sep(s, o4 + 8) == Some(o5));
    assert(s.subrange(o5, o6) =~= em);
    lemma_json_string_at(uv.email, s, o5);
    assert(spec_parse_string(s, o5) == Some((uv.email, o6)));
    assert(spec_parse_name_email(s, o2 + 1) == Some((uv.name, uv.email, o6)));
    // The closing brace ends the text.
    assert(s[o6] == '}');
    assert(skip_space(s, o6) == o6);
    assert(skip_space(s, o6 + 1) == s.len());
    assert(uv == UserView { id: uv.id, name: uv.name, email: uv.email });
}

} // verus!
