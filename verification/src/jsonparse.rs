//! Reading wire text back into `JsonValue`s.
//!
//! The parser is recursive descent over a character vector. Its central
//! guarantee is completeness over the canonical rendering: wherever the
//! rendering of a well-formed value sits in the input (with a character
//! after it that cannot extend a number), the parser returns exactly
//! that value and consumes exactly its rendering. Together with
//! `JsonValue::render` this is the round trip of the codec.

use vstd::prelude::*;
use crate::json::{
    JsonMember, JsonVal, JsonValue, escape_char, escape_from, escape_str, hex_char, render_items,
    render_members, render_val, vals_view, members_view, wf_val,
};
use crate::jsonnum::{is_digit, is_num_char, is_num_lexeme, num_scan, skip_digits};
use crate::strutil::{char_from_u32, push_char, string_of};
use vstd::string::StringExecFns;

verus! {

/// Whitespace that may surround any token of the wire text.
pub open spec fn is_line_ws(c: char) -> bool {
    c == ' ' || c == '\t' || c == '\r' || c == '\n'
}

fn is_ws_exec(c: char) -> (r: bool)
    ensures
        r == is_line_ws(c),
{
    c == ' ' || c == '\t' || c == '\r' || c == '\n'
}

/// First position at or after `i` holding something other than
/// whitespace. A position already holding a non-whitespace character is
/// returned unchanged.
fn skip_ws(s: &Vec<char>, i: usize) -> (r: usize)
    requires
        i <= s.len(),
    ensures
        i <= r <= s@.len(),
        forall|t: int| i <= t < r ==> is_line_ws(s@[t]),
        r == s@.len() || !is_line_ws(s@[r as int]),
        i < s@.len() && !is_line_ws(s@[i as int]) ==> r == i,
    decreases s@.len() - i,
{
    if i < s.len() && is_ws_exec(s[i]) {
        skip_ws(s, i + 1)
    } else {
        i
    }
}

/// The canonical rendering of `v` sits in `s` at `i`, and what follows
/// it (if anything) cannot extend a number.
pub open spec fn render_at(s: Seq<char>, i: int, v: JsonVal) -> bool {
    &&& wf_val(v)
    &&& 0 <= i
    &&& i + render_val(v).len() <= s.len()
    &&& s.subrange(i, i + render_val(v).len()) == render_val(v)
    &&& (i + render_val(v).len() == s.len() || !is_num_char(s[i + render_val(v).len()]))
}

/// The escaped form of `content` sits at `i`, closed by a quote.
pub open spec fn string_rest_at(s: Seq<char>, i: int, content: Seq<char>) -> bool {
    &&& 0 <= i
    &&& i + escape_str(content).len() + 1 <= s.len()
    &&& s.subrange(i, i + escape_str(content).len()) == escape_str(content)
    &&& s[i + escape_str(content).len()] == '"'
}

/// The comma-joined renderings of `items` sit at `i`, closed by `]`.
pub open spec fn items_at(s: Seq<char>, i: int, items: Seq<JsonVal>) -> bool {
    &&& forall|k: int| 0 <= k < items.len() ==> wf_val(#[trigger] items[k])
    &&& 0 <= i
    &&& i + render_items(items, 0).len() + 1 <= s.len()
    &&& s.subrange(i, i + render_items(items, 0).len()) == render_items(items, 0)
    &&& s[i + render_items(items, 0).len()] == ']'
}

/// The comma-joined renderings of `members` sit at `i`, closed by `}`.
pub open spec fn members_at(s: Seq<char>, i: int, members: Seq<(Seq<char>, JsonVal)>) -> bool {
    &&& forall|k: int| 0 <= k < members.len() ==> wf_val(#[trigger] members[k].1)
    &&& 0 <= i
    &&& i + render_members(members, 0).len() + 1 <= s.len()
    &&& s.subrange(i, i + render_members(members, 0).len()) == render_members(members, 0)
    &&& s[i + render_members(members, 0).len()] == '}'
}

/// A rendering is never empty, and its first character names the
/// variant.
pub proof fn lemma_render_first(v: JsonVal)
    requires
        wf_val(v),
    ensures
        render_val(v).len() > 0,
        v is Null ==> render_val(v)[0] == 'n',
        v is Bool ==> render_val(v)[0] == 't' || render_val(v)[0] == 'f',
        v is Num ==> render_val(v)[0] == '-' || is_digit(render_val(v)[0]),
        v is Str ==> render_val(v)[0] == '"',
        v is Arr ==> render_val(v)[0] == '[',
        v is Obj ==> render_val(v)[0] == '{',
        !is_line_ws(render_val(v)[0]),
{
    match v {
        JsonVal::Num(lex) => {
            crate::jsonnum::lemma_num_lexeme_chars(lex);
        },
        _ => {},
    }
}

/// The shape of one escaped character: its length, its first character,
/// and what its second character can be.
pub proof fn lemma_escape_char_shape(c: char)
    ensures
        escape_char(c).len() == 1 || escape_char(c).len() == 2 || escape_char(c).len() == 6,
        escape_char(c)[0] != '"',
        escape_char(c).len() == 1 ==> escape_char(c)[0] == c && c != '"' && c != '\\' && (c as u32)
            >= 0x20,
        escape_char(c).len() != 1 ==> escape_char(c)[0] == '\\',
        escape_char(c).len() == 2 ==> (c == '"' && escape_char(c)[1] == '"') || (c == '\\'
            && escape_char(c)[1] == '\\'),
        escape_char(c).len() == 6 ==> escape_char(c)[1] == 'u' && escape_char(c)[2] == '0'
            && escape_char(c)[3] == '0' && escape_char(c)[4] == hex_char((c as u32) as int / 16)
            && escape_char(c)[5] == hex_char((c as u32) as int % 16) && (c as u32) < 0x20,
{
    crate::jsonnum::lemma_char_eq_code(c, '"');
}

/// Escaping from `i` is escaping of the suffix from `i`.
pub proof fn lemma_escape_from_skip(s: Seq<char>, i: int)
    requires
        0 <= i <= s.len(),
    ensures
        escape_from(s, i) == escape_str(s.skip(i)),
    decreases s.len() - i,
{
    let t = s.skip(i);
    if i < s.len() {
        lemma_escape_from_skip(s, i + 1);
        assert(s.skip(i + 1) =~= t.skip(1));
        assert(t.len() > 0);
        assert(t[0] == s[i]);
        if t.len() > 0 {
            assert(escape_str(t) == escape_char(t[0]) + escape_from(t, 1));
            lemma_escape_from_skip(t, 1);
            assert(t.skip(1) =~= s.skip(i + 1));
        }
    } else {
        assert(t.len() == 0);
    }
}

/// The tail of a joined rendering is the joined rendering of the tail.
pub proof fn lemma_render_items_skip(items: Seq<JsonVal>)
    requires
        items.len() > 0,
    ensures
        render_items(items, 1) == render_items(items.drop_first(), 0),
{
    lemma_render_items_shift(items, 1);
}

proof fn lemma_render_items_shift(items: Seq<JsonVal>, k: int)
    requires
        0 < k <= items.len(),
    ensures
        render_items(items, k) == render_items(items.drop_first(), k - 1),
    decreases items.len() - k,
{
    let t = items.drop_first();
    if k < items.len() {
        lemma_render_items_shift(items, k + 1);
        assert(t[k - 1] == items[k]);
    }
}

/// The tail of a joined member rendering is the joined rendering of the
/// tail.
pub proof fn lemma_render_members_skip(members: Seq<(Seq<char>, JsonVal)>)
    requires
        members.len() > 0,
    ensures
        render_members(members, 1) == render_members(members.drop_first(), 0),
{
    lemma_render_members_shift(members, 1);
}

proof fn lemma_render_members_shift(members: Seq<(Seq<char>, JsonVal)>, k: int)
    requires
        0 < k <= members.len(),
    ensures
        render_members(members, k) == render_members(members.drop_first(), k - 1),
    decreases members.len() - k,
{
    let t = members.drop_first();
    if k < members.len() {
        lemma_render_members_shift(members, k + 1);
        assert(t[k - 1] == members[k]);
    }
}

/// The value of one hexadecimal digit character.
pub open spec fn spec_hex_val(c: char) -> Option<u32> {
    if c == '0' {
        Some(0u32)
    } else if c == '1' {
        Some(1u32)
    } else if c == '2' {
        Some(2u32)
    } else if c == '3' {
        Some(3u32)
    } else if c == '4' {
        Some(4u32)
    } else if c == '5' {
        Some(5u32)
    } else if c == '6' {
        Some(6u32)
    } else if c == '7' {
        Some(7u32)
    } else if c == '8' {
        Some(8u32)
    } else if c == '9' {
        Some(9u32)
    } else if c == 'a' || c == 'A' {
        Some(10u32)
    } else if c == 'b' || c == 'B' {
        Some(11u32)
    } else if c == 'c' || c == 'C' {
        Some(12u32)
    } else if c == 'd' || c == 'D' {
        Some(13u32)
    } else if c == 'e' || c == 'E' {
        Some(14u32)
    } else if c == 'f' || c == 'F' {
        Some(15u32)
    } else {
        None
    }
}

/// Reading back the hex digit the renderer wrote gives the digit.
pub proof fn lemma_hex_val_of_hex_char(n: int)
    requires
        0 <= n < 16,
    ensures
        spec_hex_val(hex_char(n)) == Some(n as u32),
{
}

fn hex_val(c: char) -> (r: Option<u32>)
    ensures
        r == spec_hex_val(c),
{
    match c {
        '0' => Some(0),
        '1' => Some(1),
        '2' => Some(2),
        '3' => Some(3),
        '4' => Some(4),
        '5' => Some(5),
        '6' => Some(6),
        '7' => Some(7),
        '8' => Some(8),
        '9' => Some(9),
        'a' | 'A' => Some(10),
        'b' | 'B' => Some(11),
        'c' | 'C' => Some(12),
        'd' | 'D' => Some(13),
        'e' | 'E' => Some(14),
        'f' | 'F' => Some(15),
        _ => None,
    }
}

/// Read the remainder of a string literal: everything after the opening
/// quote, up to and including the closing quote. On success the second
/// component is the position just past the closing quote.
pub fn parse_string_rest(s: &Vec<char>, i: usize) -> (r: Option<(String, usize)>)
    requires
        i <= s.len(),
    ensures
        r matches Some(p) ==> i < p.1 <= s@.len(),
        forall|content: Seq<char>| string_rest_at(s@, i as int, content) ==> (r matches Some(p)
            && p.0@ == content && p.1 == i + escape_str(content).len() + 1),
    decreases s@.len() - i,
{
    let ghost ii = i as int;
    if i >= s.len() {
        proof {
            assert forall|content: Seq<char>| !string_rest_at(s@, ii, content) by {}
        }
        return None;
    }
    let c = s[i];
    if c == '"' {
        let r = Some((String::new(), i + 1));
        proof {
            assert forall|content: Seq<char>| string_rest_at(s@, ii, content) implies content
                =~= Seq::<char>::empty() by {
                if content.len() > 0 {
                    lemma_escape_char_shape(content[0]);
                    assert(escape_str(content) == escape_char(content[0]) + escape_from(
                        content,
                        1,
                    ));
                    assert(s@[ii] == escape_str(content)[0]);
                }
            }
        }
        return r;
    }
    // After this point the decoded character and how much of the input
    // it took; `None` when the input cannot open a string character.
    let step: Option<(char, usize)> = if c == '\\' {
        if i + 1 >= s.len() {
            None
        } else {
            let e = s[i + 1];
            match e {
                '"' => Some(('"', 2)),
                '\\' => Some(('\\', 2)),
                '/' => Some(('/', 2)),
                'n' => Some(('\n', 2)),
                't' => Some(('\t', 2)),
                'r' => Some(('\r', 2)),
                'b' => Some(('\u{8}', 2)),
                'f' => Some(('\u{c}', 2)),
                'u' => {
                    if s.len() - i <= 5 {
                        None
                    } else {
                        match (hex_val(s[i + 2]), hex_val(s[i + 3]), hex_val(s[i + 4]), hex_val(
                            s[i + 5],
                        )) {
                            (Some(h3), Some(h2), Some(h1), Some(h0)) => {
                                let code = h3 * 4096 + h2 * 256 + h1 * 16 + h0;
                                match char_from_u32(code) {
                                    Some(d) => Some((d, 6)),
                                    None => None,
                                }
                            },
                            _ => None,
                        }
                    }
                },
                _ => None,
            }
        }
    } else if (c as u32) < 0x20 {
        None
    } else {
        Some((c, 1))
    };
    match step {
        None => {
            proof {
                assert forall|content: Seq<char>| !string_rest_at(s@, ii, content) by {
                    if string_rest_at(s@, ii, content) {
                        lemma_string_head(s@, ii, content);
                        let c0 = content[0];
                        lemma_escape_char_shape(c0);
                        if escape_char(c0).len() == 6 {
                            lemma_hex_val_of_hex_char((c0 as u32) as int / 16);
                            lemma_hex_val_of_hex_char((c0 as u32) as int % 16);
                            crate::jsonnum::lemma_char_eq_code(c0, '"');
                        }
                    }
                }
            }
            None
        },
        Some((d, used)) => {
            match parse_string_rest(s, i + used) {
                None => {
                    proof {
                        assert forall|content: Seq<char>| !string_rest_at(s@, ii, content) by {
                            if string_rest_at(s@, ii, content) {
                                lemma_string_head(s@, ii, content);
                                lemma_step_match(s@, ii, content, d, used as int, c);
                            }
                        }
                    }
                    None
                },
                Some((tail, j)) => {
                    let mut out = String::new();
                    push_char(&mut out, d);
                    out.append(tail.as_str());
                    proof {
                        assert(out@ =~= seq![d] + tail@);
                        assert forall|content: Seq<char>| string_rest_at(s@, ii, content) implies (
                        out@ == content && j == i + escape_str(content).len() + 1) by {
                            lemma_string_head(s@, ii, content);
                            lemma_step_match(s@, ii, content, d, used as int, c);
                            assert(out@ =~= content);
                        }
                    }
                    Some((out, j))
                },
            }
        },
    }
}

/// A matching string continuation is non-empty here, because the input
/// holds neither a quote nor a bare control character at `i`.
proof fn lemma_string_head(s: Seq<char>, i: int, content: Seq<char>)
    requires
        string_rest_at(s, i, content),
        s[i] != '"',
    ensures
        content.len() > 0,
        escape_str(content) == escape_char(content[0]) + escape_str(content.drop_first()),
        escape_char(content[0])[0] == s[i],
        forall|k: int| 0 <= k < escape_char(content[0]).len() ==> escape_char(content[0])[k] == s[i
            + k],
        string_rest_at(s, i + escape_char(content[0]).len(), content.drop_first()),
{
    if content.len() == 0 {
        assert(s[i] == '"');
    }
    let c0 = content[0];
    assert(escape_str(content) == escape_char(c0) + escape_from(content, 1));
    lemma_escape_from_skip(content, 1);
    assert(content.skip(1) =~= content.drop_first());
    let e0 = escape_char(c0);
    let rest = escape_str(content.drop_first());
    assert forall|k: int| 0 <= k < e0.len() implies e0[k] == s[i + k] by {
        assert(escape_str(content)[k] == s.subrange(i, i + escape_str(content).len())[k]);
    }
    assert forall|k: int|
        0 <= k < rest.len() implies rest[k] == s[i + e0.len() + k] by {
        assert(escape_str(content)[e0.len() + k] == s.subrange(
            i,
            i + escape_str(content).len(),
        )[e0.len() + k]);
    }
    assert(s.subrange(i + e0.len(), i + e0.len() + rest.len()) =~= rest);
}

/// The decoded character of one step agrees with the escape that a
/// matching content would have put at `i`.
proof fn lemma_step_match(s: Seq<char>, i: int, content: Seq<char>, d: char, used: int, c: char)
    requires
        string_rest_at(s, i, content),
        s[i] != '"',
        c == s[i],
        spec_step_ok(s, i, d, used, c),
    ensures
        content[0] == d,
        escape_char(content[0]).len() == used,
        string_rest_at(s, i + used, content.drop_first()),
{
    lemma_string_head(s, i, content);
    let c0 = content[0];
    lemma_escape_char_shape(c0);
    if escape_char(c0).len() == 1 {
        assert(c0 == s[i]);
        assert(used == 1 && d == c);
    } else if escape_char(c0).len() == 2 {
        assert(s[i] == '\\');
        assert(s[i + 1] == escape_char(c0)[1]);
        assert(used == 2 && d == c0);
    } else {
        assert(s[i] == '\\');
        assert(s[i + 1] == 'u');
        assert(s[i + 2] == '0');
        assert(s[i + 3] == '0');
        assert(s[i + 4] == hex_char((c0 as u32) as int / 16));
        assert(s[i + 5] == hex_char((c0 as u32) as int % 16));
        lemma_hex_val_of_hex_char((c0 as u32) as int / 16);
        lemma_hex_val_of_hex_char((c0 as u32) as int % 16);
        assert(used == 6);
        crate::jsonnum::lemma_char_eq_code(d, c0);
    }
}

fn skip_digits_exec(s: &Vec<char>, i: usize) -> (r: usize)
    requires
        i <= s.len(),
    ensures
        r as int == skip_digits(s@, i as int),
        i <= r <= s.len(),
    decreases s@.len() - i,
{
    if i < s.len() {
        let u = s[i] as u32;
        if 48 <= u && u <= 57 {
            return skip_digits_exec(s, i + 1);
        }
    }
    i
}

fn num_scan_exec(s: &Vec<char>, i: usize) -> (r: Option<usize>)
    requires
        i <= s.len(),
    ensures
        match r {
            Some(j) => num_scan(s@, i as int) == Some(j as int) && i <= j <= s@.len(),
            None => num_scan(s@, i as int) is None,
        },
{
    let j = if i < s.len() && s[i] == '-' {
        i + 1
    } else {
        i
    };
    if !(j < s.len()) {
        return None;
    }
    let u = s[j] as u32;
    if !(48 <= u && u <= 57) {
        return None;
    }
    let k = if s[j] == '0' {
        j + 1
    } else {
        skip_digits_exec(s, j)
    };
    let m_opt: Option<usize> = if k < s.len() && s[k] == '.' {
        if k + 1 < s.len() {
            let u2 = s[k + 1] as u32;
            if 48 <= u2 && u2 <= 57 {
                Some(skip_digits_exec(s, k + 1))
            } else {
                None
            }
        } else {
            None
        }
    } else {
        Some(k)
    };
    match m_opt {
        None => None,
        Some(m) => {
            if m < s.len() && (s[m] == 'e' || s[m] == 'E') {
                let p = if m + 1 < s.len() && (s[m + 1] == '+' || s[m + 1] == '-') {
                    m + 2
                } else {
                    m + 1
                };
                if p < s.len() {
                    let u3 = s[p] as u32;
                    if 48 <= u3 && u3 <= 57 {
                        Some(skip_digits_exec(s, p))
                    } else {
                        None
                    }
                } else {
                    None
                }
            } else {
                Some(m)
            }
        },
    }
}

fn is_num_char_exec(c: char) -> (r: bool)
    ensures
        r == is_num_char(c),
{
    let u = c as u32;
    (48 <= u && u <= 57) || c == '-' || c == '+' || c == '.' || c == 'e' || c == 'E'
}

/// Where the first element of a matching item list sits, and what
/// follows it.
proof fn lemma_items_head(s: Seq<char>, i: int, items: Seq<JsonVal>)
    requires
        items_at(s, i, items),
        items.len() > 0,
    ensures
        render_at(s, i, items[0]),
        items.len() > 1 ==> s[i + render_val(items[0]).len()] == ',' && items_at(
            s,
            i + render_val(items[0]).len() + 1,
            items.drop_first(),
        ),
        items.len() == 1 ==> s[i + render_val(items[0]).len()] == ']',
        render_items(items, 0).len() == render_val(items[0]).len() + if items.len() > 1 {
            1 + render_items(items.drop_first(), 0).len() as int
        } else {
            0int
        },
{
    let whole = render_items(items, 0);
    let rv0 = render_val(items[0]);
    lemma_render_first(items[0]);
    assert(forall|k: int| 0 <= k < whole.len() ==> whole[k] == s[i + k]) by {
        assert(forall|k: int|
            0 <= k < whole.len() ==> #[trigger] s.subrange(i, i + whole.len())[k] == s[i + k]);
    }
    if items.len() > 1 {
        lemma_render_items_skip(items);
        let rest = render_items(items.drop_first(), 0);
        assert(whole == rv0 + seq![','] + rest);
        assert(forall|k: int| 0 <= k < rv0.len() ==> rv0[k] == whole[k]);
        assert(s.subrange(i, i + rv0.len()) =~= rv0);
        assert(whole[rv0.len() as int] == ',');
        assert(s[i + rv0.len()] == ',');
        assert(!is_num_char(','));
        let i2 = i + rv0.len() + 1;
        assert(forall|k: int| 0 <= k < rest.len() ==> rest[k] == whole[rv0.len() + 1 + k]);
        assert(s.subrange(i2, i2 + rest.len()) =~= rest);
        assert(s[i2 + rest.len()] == ']');
        assert(forall|k: int|
            0 <= k < items.drop_first().len() ==> wf_val(#[trigger] items.drop_first()[k])) by {
            assert(forall|k: int|
                0 <= k < items.drop_first().len() ==> items.drop_first()[k] == items[k + 1]);
        }
    } else {
        assert(whole == rv0);
        assert(s.subrange(i, i + rv0.len()) =~= rv0);
        assert(s[i + rv0.len()] == ']');
        assert(!is_num_char(']'));
    }
}

/// Where the first member of a matching member list sits, and what
/// follows it.
proof fn lemma_members_head(s: Seq<char>, i: int, members: Seq<(Seq<char>, JsonVal)>)
    requires
        members_at(s, i, members),
        members.len() > 0,
    ensures
        s[i] == '"',
        string_rest_at(s, i + 1, members[0].0),
        s[i + escape_str(members[0].0).len() + 2] == ':',
        render_at(s, i + escape_str(members[0].0).len() + 3, members[0].1),
        members.len() > 1 ==> s[i + escape_str(members[0].0).len() + 3 + render_val(
            members[0].1,
        ).len()] == ',' && members_at(
            s,
            i + escape_str(members[0].0).len() + 4 + render_val(members[0].1).len(),
            members.drop_first(),
        ),
        members.len() == 1 ==> s[i + escape_str(members[0].0).len() + 3 + render_val(
            members[0].1,
        ).len()] == '}',
        render_members(members, 0).len() == escape_str(members[0].0).len() + 3 + render_val(
            members[0].1,
        ).len() + if members.len() > 1 {
            1 + render_members(members.drop_first(), 0).len() as int
        } else {
            0int
        },
{
    let whole = render_members(members, 0);
    let kl = escape_str(members[0].0).len() as int;
    let vl = render_val(members[0].1).len() as int;
    let one = seq!['"'] + escape_str(members[0].0) + seq!['"', ':'] + render_val(members[0].1);
    assert(one.len() == kl + 3 + vl);
    assert(forall|k: int| 0 <= k < whole.len() ==> whole[k] == s[i + k]) by {
        assert(forall|k: int|
            0 <= k < whole.len() ==> #[trigger] s.subrange(i, i + whole.len())[k] == s[i + k]);
    }
    if members.len() > 1 {
        lemma_render_members_skip(members);
        let rest = render_members(members.drop_first(), 0);
        assert(whole == one + seq![','] + rest);
        assert(forall|k: int| 0 <= k < one.len() ==> one[k] == whole[k]);
        assert(whole[one.len() as int] == ',');
        let i2 = i + one.len() + 1;
        assert(forall|k: int| 0 <= k < rest.len() ==> rest[k] == whole[one.len() + 1 + k]);
        assert(s.subrange(i2, i2 + rest.len()) =~= rest);
        assert(s[i2 + rest.len()] == '}');
        assert(forall|k: int|
            0 <= k < members.drop_first().len() ==> wf_val(
                #[trigger] members.drop_first()[k].1,
            )) by {
            assert(forall|k: int|
                0 <= k < members.drop_first().len() ==> members.drop_first()[k] == members[k + 1]);
        }
    } else {
        assert(whole == one);
        assert(s[i + one.len()] == '}');
        assert(!is_num_char('}'));
    }
    assert(forall|k: int| 0 <= k < one.len() ==> one[k] == s[i + k]);
    assert(s[i] == one[0]);
    assert(one[0] == '"');
    assert(forall|k: int| 0 <= k < kl ==> escape_str(members[0].0)[k] == one[1 + k]);
    assert(s.subrange(i + 1, i + 1 + kl) =~= escape_str(members[0].0));
    assert(one[1 + kl] == '"');
    assert(one[2 + kl] == ':');
    assert(forall|k: int| 0 <= k < vl ==> render_val(members[0].1)[k] == one[3 + kl + k]);
    assert(s.subrange(i + kl + 3, i + kl + 3 + vl) =~= render_val(members[0].1));
    assert(members.len() > 1 ==> s[i + kl + 3 + vl] == ',' && !is_num_char(','));
    assert(members.len() == 1 ==> s[i + kl + 3 + vl] == '}' && !is_num_char('}'));
}

/// Read one value. On success the second component is the position just
/// past the value's text.
#[verifier::loop_isolation(false)]
#[verifier::rlimit(60)]
pub fn parse_value(s: &Vec<char>, i: usize) -> (r: Option<(JsonValue, usize)>)
    requires
        i <= s.len(),
    ensures
        r matches Some(p) ==> i < p.1 <= s@.len() && wf_val(p.0@),
        forall|v: JsonVal| render_at(s@, i as int, v) ==> (r matches Some(p) && p.0@ == v && p.1
            == i + render_val(v).len()),
    decreases s@.len() - i, 1int,
{
    let ghost ii = i as int;
    let w = skip_ws(s, i);
    if w >= s.len() {
        proof {
            assert forall|v: JsonVal| !render_at(s@, ii, v) by {
                if render_at(s@, ii, v) {
                    lemma_render_first(v);
                    lemma_render_chars(s@, ii, v);
                }
            }
        }
        return None;
    }
    let c = s[w];
    let u = c as u32;
    if c == 'n' {
        let ok = s.len() - w >= 4 && s[w + 1] == 'u' && s[w + 2] == 'l' && s[w + 3] == 'l';
        let r: Option<(JsonValue, usize)> = if ok {
            Some((JsonValue::Null, w + 4))
        } else {
            None
        };
        proof {
            assert forall|v: JsonVal| render_at(s@, ii, v) implies (r matches Some(p) && p.0@ == v
                && p.1 == i + render_val(v).len()) by {
                lemma_render_first(v);
                lemma_render_chars(s@, ii, v);
                assert(w == i);
                assert(v is Null);
                assert(render_val(v).len() == 4);
            }
        }
        return r;
    }
    if c == 't' {
        let ok = s.len() - w >= 4 && s[w + 1] == 'r' && s[w + 2] == 'u' && s[w + 3] == 'e';
        let r: Option<(JsonValue, usize)> = if ok {
            Some((JsonValue::Bool(true), w + 4))
        } else {
            None
        };
        proof {
            assert forall|v: JsonVal| render_at(s@, ii, v) implies (r matches Some(p) && p.0@ == v
                && p.1 == i + render_val(v).len()) by {
                lemma_render_first(v);
                lemma_render_chars(s@, ii, v);
                assert(w == i);
                assert(v == JsonVal::Bool(true));
            }
        }
        return r;
    }
    if c == 'f' {
        let ok = s.len() - w >= 5 && s[w + 1] == 'a' && s[w + 2] == 'l' && s[w + 3] == 's' && s[w
            + 4] == 'e';
        let r: Option<(JsonValue, usize)> = if ok {
            Some((JsonValue::Bool(false), w + 5))
        } else {
            None
        };
        proof {
            assert forall|v: JsonVal| render_at(s@, ii, v) implies (r matches Some(p) && p.0@ == v
                && p.1 == i + render_val(v).len()) by {
                lemma_render_first(v);
                lemma_render_chars(s@, ii, v);
                assert(w == i);
                assert(v == JsonVal::Bool(false));
            }
        }
        return r;
    }
    if c == '"' {
        let r: Option<(JsonValue, usize)> = match parse_string_rest(s, w + 1) {
            Some((t, j)) => Some((JsonValue::Str(t), j)),
            None => None,
        };
        proof {
            assert forall|v: JsonVal| render_at(s@, ii, v) implies (r matches Some(p) && p.0@ == v
                && p.1 == i + render_val(v).len()) by {
                lemma_render_first(v);
                lemma_render_chars(s@, ii, v);
                assert(w == i);
                match v {
                    JsonVal::Str(content) => {
                        lemma_str_body(s@, ii, content);
                    },
                    _ => {},
                }
            }
        }
        return r;
    }
    if c == '[' {
        let r: Option<(JsonValue, usize)> = match parse_items(s, w + 1) {
            Some((vs, j)) => Some((JsonValue::Arr(vs), j)),
            None => None,
        };
        proof {
            assert forall|v: JsonVal| render_at(s@, ii, v) implies (r matches Some(p) && p.0@ == v
                && p.1 == i + render_val(v).len()) by {
                lemma_render_first(v);
                lemma_render_chars(s@, ii, v);
                assert(w == i);
                match v {
                    JsonVal::Arr(items) => {
                        lemma_arr_body(s@, ii, items);
                    },
                    _ => {},
                }
            }
        }
        return r;
    }
    if c == '{' {
        let r: Option<(JsonValue, usize)> = match parse_members(s, w + 1) {
            Some((ms, j)) => Some((JsonValue::Obj(ms), j)),
            None => None,
        };
        proof {
            assert forall|v: JsonVal| render_at(s@, ii, v) implies (r matches Some(p) && p.0@ == v
                && p.1 == i + render_val(v).len()) by {
                lemma_render_first(v);
                lemma_render_chars(s@, ii, v);
                assert(w == i);
                match v {
                    JsonVal::Obj(members) => {
                        lemma_obj_body(s@, ii, members);
                    },
                    _ => {},
                }
            }
        }
        return r;
    }
    if c == '-' || (48 <= u && u <= 57) {
        let mut k: usize = w;
        while k < s.len() && is_num_char_exec(s[k])
            invariant
                w <= k <= s.len(),
                forall|t: int| w <= t < k ==> is_num_char(s@[t]),
            decreases s@.len() - k,
        {
            k = k + 1;
        }
        assert(k == s.len() || !is_num_char(s@[k as int]));
        assert(is_num_char(s@[w as int]));
        assert(k > w);
        let mut lexvec: Vec<char> = Vec::new();
        let mut t: usize = w;
        while t < k
            invariant
                w <= t <= k <= s.len(),
                lexvec@ =~= s@.subrange(w as int, t as int),
            decreases k - t,
        {
            lexvec.push(s[t]);
            assert(lexvec@ =~= s@.subrange(w as int, t + 1 as int));
            t = t + 1;
        }
        let valid = match num_scan_exec(&lexvec, 0) {
            Some(m) => m == lexvec.len(),
            None => false,
        };
        let r: Option<(JsonValue, usize)> = if valid {
            Some((JsonValue::Num(string_of(&lexvec)), k))
        } else {
            None
        };
        proof {
            assert forall|v: JsonVal| render_at(s@, ii, v) implies (r matches Some(p) && p.0@ == v
                && p.1 == i + render_val(v).len()) by {
                lemma_render_first(v);
                lemma_render_chars(s@, ii, v);
                assert(w == i);
                match v {
                    JsonVal::Num(lex) => {
                        crate::jsonnum::lemma_num_lexeme_chars(lex);
                        assert(k as int >= ii + lex.len()) by {
                            if (k as int) < ii + lex.len() {
                                assert(s@[k as int] == lex[k - ii]);
                                assert(is_num_char(s@[k as int]));
                            }
                        }
                        assert(k as int <= ii + lex.len()) by {
                            if (k as int) > ii + lex.len() {
                                assert(is_num_char(s@[ii + lex.len()]));
                            }
                        }
                        assert(lexvec@ =~= lex);
                    },
                    _ => {},
                }
            }
        }
        return r;
    }
    proof {
        assert forall|v: JsonVal| !render_at(s@, ii, v) by {
            if render_at(s@, ii, v) {
                lemma_render_first(v);
                lemma_render_chars(s@, ii, v);
                assert(w == i);
            }
        }
    }
    None
}

/// The characters of a matching rendering, read off the input.
proof fn lemma_render_chars(s: Seq<char>, i: int, v: JsonVal)
    requires
        render_at(s, i, v),
    ensures
        forall|k: int| 0 <= k < render_val(v).len() ==> render_val(v)[k] == s[i + k],
{
    assert(forall|k: int|
        0 <= k < render_val(v).len() ==> #[trigger] s.subrange(i, i + render_val(v).len())[k] == s[
        i + k]);
}

/// A matching string value opens its body right after the quote.
proof fn lemma_str_body(s: Seq<char>, i: int, content: Seq<char>)
    requires
        render_at(s, i, JsonVal::Str(content)),
    ensures
        string_rest_at(s, i + 1, content),
        render_val(JsonVal::Str(content)).len() == escape_str(content).len() + 2,
{
    lemma_render_chars(s, i, JsonVal::Str(content));
    let rv = render_val(JsonVal::Str(content));
    let esc = escape_str(content);
    assert(rv == seq!['"'] + esc + seq!['"']);
    assert(forall|k: int| 0 <= k < esc.len() ==> esc[k] == rv[1 + k]);
    assert(s.subrange(i + 1, i + 1 + esc.len()) =~= esc);
    assert(s[i + 1 + esc.len()] == rv[1 + esc.len() as int]);
}

/// A matching array value opens its items right after the bracket.
proof fn lemma_arr_body(s: Seq<char>, i: int, items: Seq<JsonVal>)
    requires
        render_at(s, i, JsonVal::Arr(items)),
    ensures
        items_at(s, i + 1, items),
        render_val(JsonVal::Arr(items)).len() == render_items(items, 0).len() + 2,
{
    lemma_render_chars(s, i, JsonVal::Arr(items));
    let rv = render_val(JsonVal::Arr(items));
    let ri = render_items(items, 0);
    assert(rv == seq!['['] + ri + seq![']']);
    assert(forall|k: int| 0 <= k < ri.len() ==> ri[k] == rv[1 + k]);
    assert(s.subrange(i + 1, i + 1 + ri.len()) =~= ri);
    assert(s[i + 1 + ri.len()] == rv[1 + ri.len() as int]);
}

/// A matching object value opens its members right after the brace.
proof fn lemma_obj_body(s: Seq<char>, i: int, members: Seq<(Seq<char>, JsonVal)>)
    requires
        render_at(s, i, JsonVal::Obj(members)),
    ensures
        members_at(s, i + 1, members),
        render_val(JsonVal::Obj(members)).len() == render_members(members, 0).len() + 2,
{
    lemma_render_chars(s, i, JsonVal::Obj(members));
    let rv = render_val(JsonVal::Obj(members));
    let rm = render_members(members, 0);
    assert(rv == seq!['{'] + rm + seq!['}']);
    assert(forall|k: int| 0 <= k < rm.len() ==> rm[k] == rv[1 + k]);
    assert(s.subrange(i + 1, i + 1 + rm.len()) =~= rm);
    assert(s[i + 1 + rm.len()] == rv[1 + rm.len() as int]);
}

/// Read the items of an array: everything after the opening bracket, up
/// to and including the closing bracket.
#[verifier::rlimit(60)]
pub fn parse_items(s: &Vec<char>, i: usize) -> (r: Option<(Vec<JsonValue>, usize)>)
    requires
        i <= s.len(),
    ensures
        r matches Some(p) ==> i < p.1 <= s@.len() && wf_val(JsonVal::Arr(vals_view(p.0@))),
        forall|items: Seq<JsonVal>| items_at(s@, i as int, items) ==> (r matches Some(p)
            && vals_view(p.0@) == items && p.1 == i + render_items(items, 0).len() + 1),
    decreases s@.len() - i, 2int,
{
    let ghost ii = i as int;
    let w = skip_ws(s, i);
    if w >= s.len() {
        proof {
            assert forall|items: Seq<JsonVal>| !items_at(s@, ii, items) by {}
        }
        return None;
    }
    if s[w] == ']' {
        let out: Vec<JsonValue> = Vec::new();
        proof {
            assert forall|items: Seq<JsonVal>| items_at(s@, ii, items) implies items
                == vals_view(out@) && ii + render_items(items, 0).len() + 1 == ii + 1 by {
                if items.len() > 0 {
                    lemma_items_head(s@, ii, items);
                    lemma_render_first(items[0]);
                    lemma_render_chars(s@, ii, items[0]);
                    assert(false);
                }
                assert(items =~= vals_view(out@));
            }
        }
        return Some((out, w + 1));
    }
    match parse_value(s, w) {
        None => {
            proof {
                assert forall|items: Seq<JsonVal>| !items_at(s@, ii, items) by {
                    if items_at(s@, ii, items) {
                        if items.len() == 0 {
                            assert(s@[ii] == ']');
                        } else {
                            lemma_items_head(s@, ii, items);
                            lemma_render_first(items[0]);
                            lemma_render_chars(s@, ii, items[0]);
                        }
                    }
                }
            }
            None
        },
        Some((v0, j0)) => {
            let j0b = skip_ws(s, j0);
            if j0b >= s.len() {
                proof {
                    assert forall|items: Seq<JsonVal>| !items_at(s@, ii, items) by {
                        if items_at(s@, ii, items) {
                            if items.len() == 0 {
                                assert(s@[ii] == ']');
                            } else {
                                lemma_items_head(s@, ii, items);
                                lemma_render_first(items[0]);
                                lemma_render_chars(s@, ii, items[0]);
                            }
                        }
                    }
                }
                return None;
            }
            let c2 = s[j0b];
            if c2 == ',' {
                match parse_items(s, j0b + 1) {
                    Some((vsub, j1)) => {
                        if vsub.len() == 0 {
                            proof {
                                assert forall|items: Seq<JsonVal>| !items_at(s@, ii, items) by {
                                    if items_at(s@, ii, items) {
                                        if items.len() == 0 {
                                            assert(s@[ii] == ']');
                                        } else {
                                            lemma_items_head(s@, ii, items);
                                            lemma_render_first(items[0]);
                                            lemma_render_chars(s@, ii, items[0]);
                                            if items.len() > 1 {
                                                assert(items.drop_first().len() > 0);
                                            }
                                        }
                                    }
                                }
                            }
                            return None;
                        }
                        let ghost subview = vsub@;
                        let mut out = vsub;
                        out.insert(0, v0);
                        proof {
                            subview.insert_ensures(0, v0);
                            assert(wf_val(JsonVal::Arr(vals_view(subview))));
                            assert(out@[0] == v0);
                            assert(forall|k: int|
                                0 <= k < subview.len() ==> out@[k + 1] == subview[k]);
                            assert forall|k: int| 0 <= k < out@.len() implies wf_val(
                                #[trigger] vals_view(out@)[k],
                            ) by {
                                assert(vals_view(out@)[k] == out@[k]@);
                                if k > 0 {
                                    assert(out@[k] == subview[k - 1]);
                                    lemma_wf_arr_index(vals_view(subview), k - 1);
                                }
                            }
                            assert forall|items: Seq<JsonVal>| items_at(s@, ii, items) implies (
                            vals_view(out@) == items && j1 == ii + render_items(items, 0).len()
                                + 1) by {
                                if items.len() == 0 {
                                    assert(s@[ii] == ']');
                                } else {
                                    lemma_items_head(s@, ii, items);
                                    lemma_render_first(items[0]);
                                    lemma_render_chars(s@, ii, items[0]);
                                    if items.len() == 1 {
                                        assert(s@[ii + render_val(items[0]).len()] == ']');
                                    } else {
                                        assert(vals_view(subview) == items.drop_first());
                                        assert forall|k: int| 0 <= k < out@.len() implies vals_view(
                                            out@,
                                        )[k] == items[k] by {
                                            assert(vals_view(out@)[k] == out@[k]@);
                                            if k == 0 {
                                                assert(out@[0] == v0);
                                            } else {
                                                assert(out@[k] == subview[k - 1]);
                                                assert(vals_view(subview)[k - 1] == subview[k
                                                    - 1]@);
                                                assert(items.drop_first()[k - 1] == items[k]);
                                            }
                                        }
                                        assert(vals_view(out@) =~= items);
                                    }
                                }
                            }
                        }
                        Some((out, j1))
                    },
                    None => {
                        proof {
                            assert forall|items: Seq<JsonVal>| !items_at(s@, ii, items) by {
                                if items_at(s@, ii, items) {
                                    if items.len() == 0 {
                                        assert(s@[ii] == ']');
                                    } else {
                                        lemma_items_head(s@, ii, items);
                                        lemma_render_first(items[0]);
                                        lemma_render_chars(s@, ii, items[0]);
                                    }
                                }
                            }
                        }
                        None
                    },
                }
            } else if c2 == ']' {
                let mut out: Vec<JsonValue> = Vec::new();
                out.push(v0);
                proof {
                    assert forall|items: Seq<JsonVal>| items_at(s@, ii, items) implies (vals_view(
                        out@,
                    ) == items && j0b + 1 == ii + render_items(items, 0).len() + 1) by {
                        if items.len() == 0 {
                            assert(s@[ii] == ']');
                        } else {
                            lemma_items_head(s@, ii, items);
                            lemma_render_first(items[0]);
                            lemma_render_chars(s@, ii, items[0]);
                            if items.len() > 1 {
                                assert(s@[ii + render_val(items[0]).len()] == ',');
                            } else {
                                assert(vals_view(out@) =~= items);
                            }
                        }
                    }
                }
                Some((out, j0b + 1))
            } else {
                proof {
                    assert forall|items: Seq<JsonVal>| !items_at(s@, ii, items) by {
                        if items_at(s@, ii, items) {
                            if items.len() == 0 {
                                assert(s@[ii] == ']');
                            } else {
                                lemma_items_head(s@, ii, items);
                                lemma_render_first(items[0]);
                                lemma_render_chars(s@, ii, items[0]);
                            }
                        }
                    }
                }
                None
            }
        },
    }
}

/// Read the members of an object: everything after the opening brace,
/// up to and including the closing brace.
#[verifier::rlimit(60)]
pub fn parse_members(s: &Vec<char>, i: usize) -> (r: Option<(Vec<JsonMember>, usize)>)
    requires
        i <= s.len(),
    ensures
        r matches Some(p) ==> i < p.1 <= s@.len() && wf_val(JsonVal::Obj(members_view(p.0@))),
        forall|members: Seq<(Seq<char>, JsonVal)>| members_at(s@, i as int, members) ==> (r matches
            Some(p) && members_view(p.0@) == members && p.1 == i + render_members(
            members,
            0,
        ).len() + 1),
    decreases s@.len() - i, 2int,
{
    let ghost ii = i as int;
    let w = skip_ws(s, i);
    if w >= s.len() {
        proof {
            assert forall|members: Seq<(Seq<char>, JsonVal)>| !members_at(s@, ii, members) by {
                if members_at(s@, ii, members) {
                    if members.len() > 0 {
                        lemma_members_head(s@, ii, members);
                    }
                }
            }
        }
        return None;
    }
    if s[w] == '}' {
        let out: Vec<JsonMember> = Vec::new();
        proof {
            assert forall|members: Seq<(Seq<char>, JsonVal)>|
                members_at(s@, ii, members) implies members == members_view(out@) && ii
                + render_members(members, 0).len() + 1 == ii + 1 by {
                if members.len() > 0 {
                    lemma_members_head(s@, ii, members);
                }
                assert(members =~= members_view(out@));
            }
        }
        return Some((out, w + 1));
    }
    if !(s[w] == '"') {
        proof {
            assert forall|members: Seq<(Seq<char>, JsonVal)>| !members_at(s@, ii, members) by {
                if members_at(s@, ii, members) {
                    if members.len() == 0 {
                        assert(s@[ii] == '}');
                    } else {
                        lemma_members_head(s@, ii, members);
                    }
                }
            }
        }
        return None;
    }
    match parse_string_rest(s, w + 1) {
        None => {
            proof {
                assert forall|members: Seq<(Seq<char>, JsonVal)>| !members_at(s@, ii, members) by {
                    if members_at(s@, ii, members) {
                        if members.len() == 0 {
                            assert(s@[ii] == '}');
                        } else {
                            lemma_members_head(s@, ii, members);
                        }
                    }
                }
            }
            None
        },
        Some((keystr, jk)) => {
            let jkb = skip_ws(s, jk);
            if jkb >= s.len() || !(s[jkb] == ':') {
                proof {
                    assert forall|members: Seq<(Seq<char>, JsonVal)>| !members_at(
                        s@,
                        ii,
                        members,
                    ) by {
                        if members_at(s@, ii, members) {
                            if members.len() == 0 {
                                assert(s@[ii] == '}');
                            } else {
                                lemma_members_head(s@, ii, members);
                            }
                        }
                    }
                }
                return None;
            }
            match parse_value(s, jkb + 1) {
                None => {
                    proof {
                        assert forall|members: Seq<(Seq<char>, JsonVal)>| !members_at(
                            s@,
                            ii,
                            members,
                        ) by {
                            if members_at(s@, ii, members) {
                                if members.len() == 0 {
                                    assert(s@[ii] == '}');
                                } else {
                                    lemma_members_head(s@, ii, members);
                                }
                            }
                        }
                    }
                    None
                },
                Some((v0, j0)) => {
                    let j0b = skip_ws(s, j0);
                    if j0b >= s.len() {
                        proof {
                            assert forall|members: Seq<(Seq<char>, JsonVal)>| !members_at(
                                s@,
                                ii,
                                members,
                            ) by {
                                if members_at(s@, ii, members) {
                                    if members.len() == 0 {
                                        assert(s@[ii] == '}');
                                    } else {
                                        lemma_members_head(s@, ii, members);
                                    }
                                }
                            }
                        }
                        return None;
                    }
                    let c2 = s[j0b];
                    if c2 == ',' {
                        match parse_members(s, j0b + 1) {
                            Some((msub, j1)) => {
                                if msub.len() == 0 {
                                    proof {
                                        assert forall|members: Seq<(Seq<char>, JsonVal)>|
                                            !members_at(s@, ii, members) by {
                                            if members_at(s@, ii, members) {
                                                if members.len() == 0 {
                                                    assert(s@[ii] == '}');
                                                } else {
                                                    lemma_members_head(s@, ii, members);
                                                    if members.len() > 1 {
                                                        assert(members.drop_first().len() > 0);
                                                    }
                                                }
                                            }
                                        }
                                    }
                                    return None;
                                }
                                let ghost subview = msub@;
                                let ghost keyview = keystr@;
                                let mut out = msub;
                                let head = JsonMember { name: keystr, value: v0 };
                                let ghost headm = head;
                                out.insert(0, head);
                                proof {
                                    subview.insert_ensures(0, headm);
                                    assert(wf_val(JsonVal::Obj(members_view(subview))));
                                    assert(out@[0] == headm);
                                    assert(forall|k: int|
                                        0 <= k < subview.len() ==> out@[k + 1] == subview[k]);
                                    assert forall|k: int| 0 <= k < out@.len() implies wf_val(
                                        #[trigger] members_view(out@)[k].1,
                                    ) by {
                                        assert(members_view(out@)[k] == (out@[k].name@,
                                        out@[k].value@));
                                        if k > 0 {
                                            assert(out@[k] == subview[k - 1]);
                                            lemma_wf_obj_index(members_view(subview), k - 1);
                                        }
                                    }
                                    assert forall|members: Seq<(Seq<char>, JsonVal)>|
                                        members_at(s@, ii, members) implies (members_view(out@)
                                        == members && j1 == ii + render_members(members, 0).len()
                                        + 1) by {
                                        if members.len() == 0 {
                                            assert(s@[ii] == '}');
                                        } else {
                                            lemma_members_head(s@, ii, members);
                                            if members.len() == 1 {
                                            } else {
                                                assert(members_view(subview)
                                                    == members.drop_first());
                                                assert forall|k: int|
                                                    0 <= k < out@.len() implies members_view(
                                                    out@,
                                                )[k] == members[k] by {
                                                    assert(members_view(out@)[k] == (
                                                    out@[k].name@, out@[k].value@));
                                                    if k == 0 {
                                                        assert(out@[0] == headm);
                                                        assert(members[0].0 == keyview);
                                                        assert(members[0].1 == v0@);
                                                    } else {
                                                        assert(out@[k] == subview[k - 1]);
                                                        assert(members_view(subview)[k - 1] == (
                                                        subview[k - 1].name@,
                                                        subview[k - 1].value@));
                                                        assert(members.drop_first()[k - 1]
                                                            == members[k]);
                                                    }
                                                }
                                                assert(members_view(out@) =~= members);
                                            }
                                        }
                                    }
                                }
                                Some((out, j1))
                            },
                            None => {
                                proof {
                                    assert forall|members: Seq<(Seq<char>, JsonVal)>| !members_at(
                                        s@,
                                        ii,
                                        members,
                                    ) by {
                                        if members_at(s@, ii, members) {
                                            if members.len() == 0 {
                                                assert(s@[ii] == '}');
                                            } else {
                                                lemma_members_head(s@, ii, members);
                                            }
                                        }
                                    }
                                }
                                None
                            },
                        }
                    } else if c2 == '}' {
                        let mut out: Vec<JsonMember> = Vec::new();
                        out.push(JsonMember { name: keystr, value: v0 });
                        proof {
                            assert forall|members: Seq<(Seq<char>, JsonVal)>|
                                members_at(s@, ii, members) implies (members_view(out@) == members
                                && j0b + 1 == ii + render_members(members, 0).len() + 1) by {
                                if members.len() == 0 {
                                    assert(s@[ii] == '}');
                                } else {
                                    lemma_members_head(s@, ii, members);
                                    if members.len() > 1 {
                                    } else {
                                        assert(members_view(out@) =~= members);
                                    }
                                }
                            }
                        }
                        Some((out, j0b + 1))
                    } else {
                        proof {
                            assert forall|members: Seq<(Seq<char>, JsonVal)>| !members_at(
                                s@,
                                ii,
                                members,
                            ) by {
                                if members_at(s@, ii, members) {
                                    if members.len() == 0 {
                                        assert(s@[ii] == '}');
                                    } else {
                                        lemma_members_head(s@, ii, members);
                                    }
                                }
                            }
                        }
                        None
                    }
                },
            }
        },
    }
}

/// Elements of a well-formed array value are well-formed.
pub proof fn lemma_wf_arr_index(items: Seq<JsonVal>, k: int)
    requires
        wf_val(JsonVal::Arr(items)),
        0 <= k < items.len(),
    ensures
        wf_val(items[k]),
{
    reveal_with_fuel(wf_val, 2);
    let its = (JsonVal::Arr(items))->Arr_0;
    assert(its == items);
    assert(wf_val(its[k]));
}

/// Values of a well-formed object value are well-formed.
pub proof fn lemma_wf_obj_index(members: Seq<(Seq<char>, JsonVal)>, k: int)
    requires
        wf_val(JsonVal::Obj(members)),
        0 <= k < members.len(),
    ensures
        wf_val(members[k].1),
{
    reveal_with_fuel(wf_val, 2);
    let ms = (JsonVal::Obj(members))->Obj_0;
    assert(ms == members);
    assert(wf_val(ms[k].1));
}

/// What the executable decoding step established about `(d, used)`.
pub open spec fn spec_step_ok(s: Seq<char>, i: int, d: char, used: int, c: char) -> bool {
    if c == '\\' {
        &&& i + 1 < s.len()
        &&& {
            let e = s[i + 1];
            ||| (e == '"' && d == '"' && used == 2)
            ||| (e == '\\' && d == '\\' && used == 2)
            ||| (e == '/' && d == '/' && used == 2)
            ||| (e == 'n' && d == '\n' && used == 2)
            ||| (e == 't' && d == '\t' && used == 2)
            ||| (e == 'r' && d == '\r' && used == 2)
            ||| (e == 'b' && d == '\u{8}' && used == 2)
            ||| (e == 'f' && d == '\u{c}' && used == 2)
            ||| (e == 'u' && used == 6 && i + 5 < s.len() && spec_hex_val(s[i + 2]) is Some
                && spec_hex_val(s[i + 3]) is Some && spec_hex_val(s[i + 4]) is Some && spec_hex_val(
                s[i + 5],
            ) is Some && d as u32 == spec_hex_val(s[i + 2])->0 * 4096 + spec_hex_val(s[i + 3])->0
                * 256 + spec_hex_val(s[i + 4])->0 * 16 + spec_hex_val(s[i + 5])->0)
        }
    } else {
        &&& (c as u32) >= 0x20
        &&& d == c
        &&& used == 1
    }
}

} // verus!
