//! The JSON value model of the wire protocol.
//!
//! A `JsonValue` is the executable form; its view is the mathematical
//! `JsonVal`, over which every contract is stated. `render_val` is the
//! canonical rendering — no inter-token whitespace, strings escaped with
//! `\"`, `\\` and `\u00XX` for control characters — which is the form the
//! crate itself puts on the wire.

use vstd::prelude::*;
use crate::jsonnum::is_num_lexeme;
use crate::strutil::{push_char, str_eq};
use vstd::string::StringExecFns;
use vstd::string::StrSliceExecFns;

verus! {

/// A JSON document: the executable form.
#[derive(Debug)]
pub enum JsonValue {
    Null,
    Bool(bool),
    /// A number, held as its lexeme (the exact characters on the wire).
    Num(String),
    Str(String),
    Arr(Vec<JsonValue>),
    Obj(Vec<JsonMember>),
}

/// One `name: value` pair of a JSON object.
#[derive(Debug)]
pub struct JsonMember {
    pub name: String,
    pub value: JsonValue,
}

/// A JSON document: the mathematical form.
pub enum JsonVal {
    Null,
    Bool(bool),
    Num(Seq<char>),
    Str(Seq<char>),
    Arr(Seq<JsonVal>),
    Obj(Seq<(Seq<char>, JsonVal)>),
}

/// The views of a sequence of values.
pub open spec fn vals_view(items: Seq<JsonValue>) -> Seq<JsonVal>
    decreases items,
{
    Seq::new(
        items.len(),
        |i: int|
            if 0 <= i < items.len() {
                items[i]@
            } else {
                JsonVal::Null
            },
    )
}

/// The views of a sequence of members.
pub open spec fn members_view(members: Seq<JsonMember>) -> Seq<(Seq<char>, JsonVal)>
    decreases members,
{
    Seq::new(
        members.len(),
        |i: int|
            if 0 <= i < members.len() {
                (members[i].name@, members[i].value@)
            } else {
                (Seq::empty(), JsonVal::Null)
            },
    )
}

impl View for JsonMember {
    type V = (Seq<char>, JsonVal);

    open spec fn view(&self) -> (Seq<char>, JsonVal) {
        (self.name@, self.value@)
    }
}

impl View for JsonValue {
    type V = JsonVal;

    open spec fn view(&self) -> JsonVal
        decreases self,
    {
        match self {
            JsonValue::Null => JsonVal::Null,
            JsonValue::Bool(b) => JsonVal::Bool(*b),
            JsonValue::Num(s) => JsonVal::Num(s@),
            JsonValue::Str(s) => JsonVal::Str(s@),
            JsonValue::Arr(items) => JsonVal::Arr(vals_view(items@)),
            JsonValue::Obj(members) => JsonVal::Obj(members_view(members@)),
        }
    }
}

/// Well-formedness: every number holds a well-formed lexeme.
pub open spec fn wf_val(v: JsonVal) -> bool
    decreases v,
{
    match v {
        JsonVal::Null => true,
        JsonVal::Bool(_) => true,
        JsonVal::Num(lex) => is_num_lexeme(lex),
        JsonVal::Str(_) => true,
        JsonVal::Arr(items) => forall|i: int| 0 <= i < items.len() ==> wf_val(#[trigger] items[i]),
        JsonVal::Obj(members) => forall|i: int|
            0 <= i < members.len() ==> wf_val(#[trigger] members[i].1),
    }
}

pub open spec fn hex_char(n: int) -> char {
    if n == 0 {
        '0'
    } else if n == 1 {
        '1'
    } else if n == 2 {
        '2'
    } else if n == 3 {
        '3'
    } else if n == 4 {
        '4'
    } else if n == 5 {
        '5'
    } else if n == 6 {
        '6'
    } else if n == 7 {
        '7'
    } else if n == 8 {
        '8'
    } else if n == 9 {
        '9'
    } else if n == 10 {
        'a'
    } else if n == 11 {
        'b'
    } else if n == 12 {
        'c'
    } else if n == 13 {
        'd'
    } else if n == 14 {
        'e'
    } else {
        'f'
    }
}

/// How one character travels inside a string literal.
pub open spec fn escape_char(c: char) -> Seq<char> {
    if c == '"' {
        seq!['\\', '"']
    } else if c == '\\' {
        seq!['\\', '\\']
    } else if (c as u32) < 0x20 {
        seq!['\\', 'u', '0', '0', hex_char((c as u32) as int / 16), hex_char((c as u32) as int % 16)]
    } else {
        seq![c]
    }
}

/// The escaped form of `s` from position `i` on.
pub open spec fn escape_from(s: Seq<char>, i: int) -> Seq<char>
    decreases s.len() - i,
{
    if 0 <= i < s.len() {
        escape_char(s[i]) + escape_from(s, i + 1)
    } else {
        Seq::empty()
    }
}

/// The escaped form of a whole string.
pub open spec fn escape_str(s: Seq<char>) -> Seq<char> {
    escape_from(s, 0)
}

/// The canonical rendering of a value.
pub open spec fn render_val(v: JsonVal) -> Seq<char>
    decreases v, 0int,
{
    match v {
        JsonVal::Null => seq!['n', 'u', 'l', 'l'],
        JsonVal::Bool(b) => if b {
            seq!['t', 'r', 'u', 'e']
        } else {
            seq!['f', 'a', 'l', 's', 'e']
        },
        JsonVal::Num(lex) => lex,
        JsonVal::Str(s) => seq!['"'] + escape_str(s) + seq!['"'],
        JsonVal::Arr(items) => seq!['['] + render_items(items, 0) + seq![']'],
        JsonVal::Obj(members) => seq!['{'] + render_members(members, 0) + seq!['}'],
    }
}

/// The elements of an array from index `i` on, joined by commas.
pub open spec fn render_items(items: Seq<JsonVal>, i: int) -> Seq<char>
    decreases items, items.len() - i,
{
    if 0 <= i < items.len() {
        if i + 1 < items.len() {
            render_val(items[i]) + seq![','] + render_items(items, i + 1)
        } else {
            render_val(items[i])
        }
    } else {
        Seq::empty()
    }
}

/// The members of an object from index `i` on, joined by commas.
pub open spec fn render_members(members: Seq<(Seq<char>, JsonVal)>, i: int) -> Seq<char>
    decreases members, members.len() - i,
{
    if 0 <= i < members.len() {
        let one = seq!['"'] + escape_str(members[i].0) + seq!['"', ':'] + render_val(members[i].1);
        if i + 1 < members.len() {
            one + seq![','] + render_members(members, i + 1)
        } else {
            one
        }
    } else {
        Seq::empty()
    }
}

/// The hex digit character for `n`, which must be below sixteen.
fn hex_of(n: u32) -> (c: char)
    requires
        n < 16,
    ensures
        c == hex_char(n as int),
{
    match n {
        0 => '0',
        1 => '1',
        2 => '2',
        3 => '3',
        4 => '4',
        5 => '5',
        6 => '6',
        7 => '7',
        8 => '8',
        9 => '9',
        10 => 'a',
        11 => 'b',
        12 => 'c',
        13 => 'd',
        14 => 'e',
        _ => 'f',
    }
}

/// Append the escaped form of `s` to `out`.
fn write_escaped(s: &str, out: &mut String)
    ensures
        final(out)@ == old(out)@ + escape_str(s@),
{
    let n = s.unicode_len();
    let mut i: usize = 0;
    while i < n
        invariant
            n == s@.len(),
            i <= n,
            out@ + escape_from(s@, i as int) == old(out)@ + escape_str(s@),
        decreases n - i,
    {
        let ghost prev = out@;
        let c = s.get_char(i);
        if c == '"' {
            push_char(out, '\\');
            push_char(out, '"');
        } else if c == '\\' {
            push_char(out, '\\');
            push_char(out, '\\');
        } else if (c as u32) < 0x20 {
            let u = c as u32;
            push_char(out, '\\');
            push_char(out, 'u');
            push_char(out, '0');
            push_char(out, '0');
            push_char(out, hex_of(u / 16));
            push_char(out, hex_of(u % 16));
        } else {
            push_char(out, c);
        }
        proof {
            assert(out@ =~= prev + escape_char(s@[i as int]));
            assert(prev + (escape_char(s@[i as int]) + escape_from(s@, i + 1)) =~= (prev
                + escape_char(s@[i as int])) + escape_from(s@, i + 1));
        }
        i = i + 1;
    }
}

/// Append the elements of `items` from index `i` on, comma-joined.
fn write_items(items: &Vec<JsonValue>, i: usize, out: &mut String)
    requires
        i <= items.len(),
    ensures
        final(out)@ == old(out)@ + render_items(vals_view(items@), i as int),
    decreases items, items@.len() - i,
{
    if i < items.len() {
        let ghost prev = out@;
        items[i].write(out);
        assert(out@ == prev + render_val(vals_view(items@)[i as int]));
        if i + 1 < items.len() {
            push_char(out, ',');
            write_items(items, i + 1, out);
            assert(out@ =~= prev + render_items(vals_view(items@), i as int));
        }
    } else {
        assert(out@ =~= out@ + render_items(vals_view(items@), i as int));
    }
}

/// Append the members of `members` from index `i` on, comma-joined.
fn write_members(members: &Vec<JsonMember>, i: usize, out: &mut String)
    requires
        i <= members.len(),
    ensures
        final(out)@ == old(out)@ + render_members(members_view(members@), i as int),
    decreases members, members@.len() - i,
{
    if i < members.len() {
        let ghost prev = out@;
        push_char(out, '"');
        write_escaped(members[i].name.as_str(), out);
        push_char(out, '"');
        push_char(out, ':');
        members[i].value.write(out);
        assert(out@ =~= prev + (seq!['"'] + escape_str(members@[i as int].name@) + seq!['"', ':']
            + render_val(members_view(members@)[i as int].1)));
        if i + 1 < members.len() {
            push_char(out, ',');
            write_members(members, i + 1, out);
            assert(out@ =~= prev + render_members(members_view(members@), i as int));
        }
    } else {
        assert(out@ =~= out@ + render_members(members_view(members@), i as int));
    }
}

impl JsonValue {
    /// Append the canonical rendering of this value to `out`.
    pub fn write(&self, out: &mut String)
        ensures
            final(out)@ == old(out)@ + render_val(self@),
        decreases self,
    {
        let ghost prev = old(out)@;
        match self {
            JsonValue::Null => {
                out.append("null");
                proof {
                    reveal_strlit("null");
                    assert(out@ =~= prev + render_val(self@));
                }
            },
            JsonValue::Bool(b) => {
                if *b {
                    out.append("true");
                    proof {
                        reveal_strlit("true");
                        assert(out@ =~= prev + render_val(self@));
                    }
                } else {
                    out.append("false");
                    proof {
                        reveal_strlit("false");
                        assert(out@ =~= prev + render_val(self@));
                    }
                }
            },
            JsonValue::Num(lex) => {
                out.append(lex.as_str());
            },
            JsonValue::Str(s) => {
                push_char(out, '"');
                write_escaped(s.as_str(), out);
                push_char(out, '"');
                assert(out@ =~= prev + render_val(self@));
            },
            JsonValue::Arr(items) => {
                push_char(out, '[');
                write_items(items, 0, out);
                push_char(out, ']');
                assert(out@ =~= prev + render_val(self@));
            },
            JsonValue::Obj(members) => {
                push_char(out, '{');
                write_members(members, 0, out);
                push_char(out, '}');
                assert(out@ =~= prev + render_val(self@));
            },
        }
    }

    /// The canonical rendering of this value, as a fresh string.
    pub fn render(&self) -> (r: String)
        ensures
            r@ == render_val(self@),
    {
        let mut out = String::new();
        self.write(&mut out);
        out
    }

    /// The value under `key`, when this value is an object holding that
    /// key; the first occurrence wins.
    pub fn get<'a>(&'a self, key: &str) -> (r: Option<&'a JsonValue>)
        ensures
            match r {
                Some(w) => spec_get(self@, key@) == Some(w@),
                None => spec_get(self@, key@) is None,
            },
    {
        match self {
            JsonValue::Obj(members) => {
                let ghost model = members_view(members@);
                let mut j: usize = 0;
                proof {
                    assert(model.skip(0) =~= model);
                }
                while j < members.len()
                    invariant
                        self@ == JsonVal::Obj(model),
                        model == members_view(members@),
                        j <= members.len(),
                        spec_lookup(model, key@) == spec_lookup(model.skip(j as int), key@),
                    decreases members.len() - j,
                {
                    proof {
                        assert(model.skip(j as int)[0] == model[j as int]);
                        assert(model.skip(j as int).drop_first() =~= model.skip(j + 1));
                    }
                    if str_eq(members[j].name.as_str(), key) {
                        proof {
                            let jj = j as int;
                            assert(model[jj] == (members@[jj].name@, members@[jj].value@));
                            assert(spec_lookup(model.skip(jj), key@) == Some(model[jj].1));
                        }
                        return Some(&members[j].value);
                    }
                    proof {
                        let jj = j as int;
                        assert(model[jj] == (members@[jj].name@, members@[jj].value@));
                    }
                    j = j + 1;
                }
                assert(model.skip(members@.len() as int) =~= Seq::empty());
                None
            },
            _ => None,
        }
    }

    /// The held string, when this value is a string.
    pub fn as_str(&self) -> (r: Option<&String>)
        ensures
            match r {
                Some(s) => self@ == JsonVal::Str(s@),
                None => !(self@ is Str),
            },
    {
        match self {
            JsonValue::Str(s) => Some(s),
            _ => None,
        }
    }

    /// The held truth value, when this value is a boolean.
    pub fn as_bool(&self) -> (r: Option<bool>)
        ensures
            match r {
                Some(b) => self@ == JsonVal::Bool(b),
                None => !(self@ is Bool),
            },
    {
        match self {
            JsonValue::Bool(b) => Some(*b),
            _ => None,
        }
    }

    /// The held elements, when this value is an array.
    pub fn as_array(&self) -> (r: Option<&Vec<JsonValue>>)
        ensures
            match r {
                Some(items) => self@ == JsonVal::Arr(vals_view(items@)),
                None => !(self@ is Arr),
            },
    {
        match self {
            JsonValue::Arr(items) => Some(items),
            _ => None,
        }
    }

    /// The held number as a machine integer, when this value is a number
    /// whose lexeme has integer form and whose value fits in an `i64`.
    pub fn as_int(&self) -> (r: Option<i64>)
        ensures
            r == spec_as_int(self@),
    {
        match self {
            JsonValue::Num(lex) => crate::jsonnum::lexeme_to_int(lex.as_str()),
            _ => None,
        }
    }

    /// A number value carrying the decimal rendering of `n`.
    pub fn of_int(n: i64) -> (r: JsonValue)
        ensures
            r@ == JsonVal::Num(crate::jsonnum::int_lexeme(n as int)),
            wf_val(r@),
    {
        proof {
            crate::jsonnum::lemma_int_lexeme_wf(n as int);
        }
        JsonValue::Num(crate::jsonnum::int_to_lexeme(n))
    }

    /// A string value holding a copy of `s`.
    pub fn of_str(s: &str) -> (r: JsonValue)
        ensures
            r@ == JsonVal::Str(s@),
            wf_val(r@),
    {
        JsonValue::Str(s.to_owned())
    }

    /// An exact copy of this value.
    #[verifier::loop_isolation(false)]
    pub fn deep_copy(&self) -> (r: JsonValue)
        ensures
            r@ == self@,
        decreases self,
    {
        match self {
            JsonValue::Null => JsonValue::Null,
            JsonValue::Bool(b) => JsonValue::Bool(*b),
            JsonValue::Num(s) => JsonValue::Num(s.clone()),
            JsonValue::Str(s) => JsonValue::Str(s.clone()),
            JsonValue::Arr(items) => {
                let mut out: Vec<JsonValue> = Vec::new();
                let mut i: usize = 0;
                while i < items.len()
                    invariant
                        i <= items.len(),
                        out@.len() == i,
                        forall|k: int| 0 <= k < i ==> out@[k]@ == items@[k]@,
                    decreases items.len() - i,
                {
                    out.push(items[i].deep_copy());
                    i = i + 1;
                }
                assert(vals_view(out@) =~= vals_view(items@));
                JsonValue::Arr(out)
            },
            JsonValue::Obj(members) => {
                let mut out: Vec<JsonMember> = Vec::new();
                let mut i: usize = 0;
                while i < members.len()
                    invariant
                        i <= members.len(),
                        out@.len() == i,
                        forall|k: int|
                            0 <= k < i ==> out@[k].name@ == members@[k].name@ && out@[k].value@
                                == members@[k].value@,
                    decreases members.len() - i,
                {
                    out.push(
                        JsonMember {
                            name: members[i].name.clone(),
                            value: members[i].value.deep_copy(),
                        },
                    );
                    i = i + 1;
                }
                assert(members_view(out@) =~= members_view(members@));
                JsonValue::Obj(out)
            },
        }
    }
}

/// A fresh vector holding exact copies of the given values.
pub fn copy_items(items: &Vec<JsonValue>) -> (r: Vec<JsonValue>)
    ensures
        vals_view(r@) == vals_view(items@),
{
    let mut out: Vec<JsonValue> = Vec::new();
    let mut i: usize = 0;
    while i < items.len()
        invariant
            i <= items.len(),
            out@.len() == i,
            forall|k: int| 0 <= k < i ==> out@[k]@ == items@[k]@,
        decreases items.len() - i,
    {
        out.push(items[i].deep_copy());
        i = i + 1;
    }
    assert(vals_view(out@) =~= vals_view(items@));
    out
}

/// The value under `key` in a member list: the first occurrence wins.
pub open spec fn spec_lookup(members: Seq<(Seq<char>, JsonVal)>, key: Seq<char>) -> Option<JsonVal>
    decreases members.len(),
{
    if members.len() == 0 {
        None
    } else if members[0].0 == key {
        Some(members[0].1)
    } else {
        spec_lookup(members.drop_first(), key)
    }
}

/// The value under `key`, when `v` is an object holding that key.
pub open spec fn spec_get(v: JsonVal, key: Seq<char>) -> Option<JsonVal> {
    match v {
        JsonVal::Obj(members) => spec_lookup(members, key),
        _ => None,
    }
}

/// The string under `key`, when `v` is an object whose `key` member is a
/// string.
pub open spec fn spec_get_str(v: JsonVal, key: Seq<char>) -> Option<Seq<char>> {
    match spec_get(v, key) {
        Some(JsonVal::Str(s)) => Some(s),
        _ => None,
    }
}

/// The machine integer `v` holds, when `v` is a number whose lexeme has
/// integer form and fits in an `i64`.
pub open spec fn spec_as_int(v: JsonVal) -> Option<i64> {
    match v {
        JsonVal::Num(lex) => match crate::jsonnum::int_form_val(lex) {
            Some(n) => if -0x8000_0000_0000_0000 <= n <= 0x7fff_ffff_ffff_ffff {
                Some(n as i64)
            } else {
                None
            },
            None => None,
        },
        _ => None,
    }
}

} // verus!
