//! JSON values as the agent reads them: tool arguments, actions, plugin replies.
use vstd::prelude::*;

use crate::config::{parse_u64, parse_unsigned};
use crate::text::{dec, dec_int, push_char, push_str, u64_to_string, chars_of};

verus! {

/// A JSON value. Numbers are kept as JSON parsers classify them: a non-negative integer,
/// a negative integer, or any other number, of which only its text is kept.
#[derive(Debug)]
pub enum JsonValue {
    Null,
    Bool(bool),
    /// A non-negative integer.
    UInt(u64),
    /// A negative integer.
    Int(i64),
    /// A number with a fraction or an exponent, by its text.
    Float(String),
    Str(String),
    Array(Vec<JsonValue>),
    /// Members in order, each key once.
    Object(Vec<(String, JsonValue)>),
}

/// A JSON value as a mathematical object.
pub enum Json {
    Null,
    Bool(bool),
    UInt(u64),
    Int(i64),
    Float(Seq<char>),
    Str(Seq<char>),
    Array(Seq<Json>),
    Object(Seq<(Seq<char>, Json)>),
}

/// The mathematical value of a JSON value.
pub open spec fn jv(j: JsonValue) -> Json
    decreases j,
{
    match j {
        JsonValue::Null => Json::Null,
        JsonValue::Bool(b) => Json::Bool(b),
        JsonValue::UInt(n) => Json::UInt(n),
        JsonValue::Int(n) => Json::Int(n),
        JsonValue::Float(t) => Json::Float(t@),
        JsonValue::Str(s) => Json::Str(s@),
        JsonValue::Array(v) => Json::Array(
            Seq::new(v@.len(), |i: int| if 0 <= i < v@.len() { jv(v@[i]) } else { Json::Null }),
        ),
        JsonValue::Object(v) => Json::Object(
            Seq::new(
                v@.len(),
                |i: int|
                    if 0 <= i < v@.len() {
                        (v@[i].0@, jv(v@[i].1))
                    } else {
                        (Seq::empty(), Json::Null)
                    },
            ),
        ),
    }
}

impl View for JsonValue {
    type V = Json;

    open spec fn view(&self) -> Json {
        jv(*self)
    }
}

/// The value of the first member named `key`.
pub open spec fn member(entries: Seq<(Seq<char>, Json)>, key: Seq<char>) -> Option<Json>
    decreases entries.len(),
{
    if entries.len() == 0 {
        None
    } else if entries[0].0 == key {
        Some(entries[0].1)
    } else {
        member(entries.drop_first(), key)
    }
}

/// `v.get(key)`: the member `key` of an object; nothing for any other value.
pub open spec fn json_get(v: Json, key: Seq<char>) -> Option<Json> {
    match v {
        Json::Object(e) => member(e, key),
        _ => None,
    }
}

/// `v.as_str()`.
pub open spec fn json_str(v: Json) -> Option<Seq<char>> {
    match v {
        Json::Str(s) => Some(s),
        _ => None,
    }
}

/// `v.as_u64()`.
pub open spec fn json_u64(v: Json) -> Option<u64> {
    match v {
        Json::UInt(n) => Some(n),
        _ => None,
    }
}

/// `v.as_i64()`.
pub open spec fn json_i64(v: Json) -> Option<i64> {
    match v {
        Json::UInt(n) => if n <= i64::MAX as u64 {
            Some(n as i64)
        } else {
            None
        },
        Json::Int(n) => Some(n),
        _ => None,
    }
}

/// The member `key`, as a string.
pub open spec fn json_get_str(v: Json, key: Seq<char>) -> Option<Seq<char>> {
    match json_get(v, key) {
        Some(x) => json_str(x),
        None => None,
    }
}

/// `v.as_array()`.
pub open spec fn json_array(v: Json) -> Option<Seq<Json>> {
    match v {
        Json::Array(a) => Some(a),
        _ => None,
    }
}

/// The view of an optional value.
pub open spec fn opt_json(o: Option<JsonValue>) -> Option<Json> {
    match o {
        Some(v) => Some(v@),
        None => None,
    }
}

impl JsonValue {
    /// An empty object.
    pub fn empty_object() -> (r: JsonValue)
        ensures
            r@ == Json::Object(Seq::empty()),
    {
        let r = JsonValue::Object(Vec::new());
        assert(r@ == Json::Object(Seq::empty())) by {
            if let Json::Object(e) = r@ {
                assert(e =~= Seq::<(Seq<char>, Json)>::empty());
            }
        }
        r
    }

    /// A copy of this value.
    #[verifier::loop_isolation(false)]
    pub fn duplicate(&self) -> (r: JsonValue)
        ensures
            r@ == self@,
        decreases self,
    {
        match self {
            JsonValue::Null => JsonValue::Null,
            JsonValue::Bool(b) => JsonValue::Bool(*b),
            JsonValue::UInt(n) => JsonValue::UInt(*n),
            JsonValue::Int(n) => JsonValue::Int(*n),
            JsonValue::Float(t) => JsonValue::Float(t.clone()),
            JsonValue::Str(s) => JsonValue::Str(s.clone()),
            JsonValue::Array(items) => {
                let mut out: Vec<JsonValue> = Vec::new();
                let mut i: usize = 0;
                while i < items.len()
                    invariant
                        i <= items@.len(),
                        out@.len() == i,
                        forall|k: int| 0 <= k < i ==> out@[k]@ == items@[k]@,
                    decreases items@.len() - i,
                {
                    proof {
                        assert(decreases_to!(*self => *items));
                        assert(decreases_to!(*items => items@));
                        assert(decreases_to!(items@ => items@[i as int]));
                    }
                    out.push(items[i].duplicate());
                    i += 1;
                }
                let r = JsonValue::Array(out);
                proof {
                    if let Json::Array(a) = r@ {
                        if let Json::Array(b) = self@ {
                            assert(a =~= b);
                        }
                    }
                }
                r
            },
            JsonValue::Object(entries) => {
                let mut out: Vec<(String, JsonValue)> = Vec::new();
                let mut i: usize = 0;
                while i < entries.len()
                    invariant
                        i <= entries@.len(),
                        out@.len() == i,
                        forall|k: int|
                            0 <= k < i ==> out@[k].0@ == entries@[k].0@ && out@[k].1@
                                == entries@[k].1@,
                    decreases entries@.len() - i,
                {
                    let (k, v) = &entries[i];
                    proof {
                        assert(decreases_to!(*self => *entries));
                        assert(decreases_to!(*entries => entries@));
                        assert(decreases_to!(entries@ => entries@[i as int]));
                        assert(decreases_to!(entries@[i as int] => entries@[i as int].1));
                    }
                    out.push((k.clone(), v.duplicate()));
                    i += 1;
                }
                let r = JsonValue::Object(out);
                proof {
                    if let Json::Object(a) = r@ {
                        if let Json::Object(b) = self@ {
                            assert(a =~= b);
                        }
                    }
                }
                r
            },
        }
    }

    /// `self.get(key)`.
    #[verifier::loop_isolation(false)]
    pub fn get(&self, key: &str) -> (r: Option<&JsonValue>)
        ensures
            match r {
                Some(x) => json_get(self@, key@) == Some(x@),
                None => json_get(self@, key@) is None,
            },
    {
        match self {
            JsonValue::Object(entries) => {
                let k = String::from_str(key);
                let mut i: usize = 0;
                let ghost es = match self@ {
                    Json::Object(e) => e,
                    _ => Seq::empty(),
                };
                assert(es.skip(0) =~= es);
                while i < entries.len()
                    invariant
                        i <= entries@.len(),
                        k@ == key@,
                        es.len() == entries@.len(),
                        forall|m: int| 0 <= m < es.len() ==> #[trigger] es[m] == (entries@[m].0@, entries@[m].1@),
                        json_get(self@, key@) == member(es.skip(i as int), key@),
                    decreases entries@.len() - i,
                {
                    proof {
                        let rest = es.skip(i as int);
                        assert(rest.drop_first() =~= es.skip(i + 1));
                        assert(rest[0] == es[i as int]);
                    }
                    if entries[i].0.eq(&k) {
                        return Some(&entries[i].1);
                    }
                    i += 1;
                }
                None
            },
            _ => None,
        }
    }

    /// `self.as_str()`.
    pub fn as_str(&self) -> (r: Option<&String>)
        ensures
            match r {
                Some(s) => json_str(self@) == Some(s@),
                None => json_str(self@) is None,
            },
    {
        match self {
            JsonValue::Str(s) => Some(s),
            _ => None,
        }
    }

    /// `self.as_array()`.
    pub fn as_array(&self) -> (r: Option<&Vec<JsonValue>>)
        ensures
            match r {
                Some(a) => self@ == Json::Array(Seq::new(a@.len(), |i: int| a@[i]@)),
                None => !(self@ is Array),
            },
    {
        match self {
            JsonValue::Array(a) => {
                proof {
                    if let Json::Array(x) = self@ {
                        assert(x =~= Seq::new(a@.len(), |i: int| a@[i]@));
                    }
                }
                Some(a)
            },
            _ => None,
        }
    }

    /// `self.as_u64()`.
    pub fn as_u64(&self) -> (r: Option<u64>)
        ensures
            r == json_u64(self@),
    {
        match self {
            JsonValue::UInt(n) => Some(*n),
            _ => None,
        }
    }

    /// `self.as_i64()`.
    pub fn as_i64(&self) -> (r: Option<i64>)
        ensures
            r == json_i64(self@),
    {
        match self {
            JsonValue::UInt(n) => if *n <= i64::MAX as u64 {
                Some(*n as i64)
            } else {
                None
            },
            JsonValue::Int(n) => Some(*n),
            _ => None,
        }
    }

    /// `self.is_null()`.
    pub fn is_null(&self) -> (r: bool)
        ensures
            r == (self@ matches Json::Null),
    {
        match self {
            JsonValue::Null => true,
            _ => false,
        }
    }
}

// ---------------------------------------------------------------------------
// Compact text
// ---------------------------------------------------------------------------

/// The hex digit for `d < 16`, small letters.
pub open spec fn hex_digit(d: nat) -> char {
    if d < 10 {
        ((d + 48) as u8) as char
    } else {
        ((d + 87) as u8) as char
    }
}

/// One character inside a JSON string literal: `"` and `\` and control characters escaped,
/// the usual short forms where JSON has one, `\u00XX` for the other control characters.
pub open spec fn escape_char(c: char) -> Seq<char> {
    let u = c as u32;
    if c == '"' {
        seq!['\\', '"']
    } else if c == '\\' {
        seq!['\\', '\\']
    } else if u == 0x08 {
        seq!['\\', 'b']
    } else if u == 0x0C {
        seq!['\\', 'f']
    } else if c == '\n' {
        seq!['\\', 'n']
    } else if c == '\r' {
        seq!['\\', 'r']
    } else if c == '\t' {
        seq!['\\', 't']
    } else if u < 0x20 {
        seq!['\\', 'u', '0', '0', hex_digit((u / 16) as nat), hex_digit((u % 16) as nat)]
    } else {
        seq![c]
    }
}

/// The escaped body of a string literal.
pub open spec fn escaped(s: Seq<char>) -> Seq<char>
    decreases s.len(),
{
    if s.len() == 0 {
        seq![]
    } else {
        escaped(s.drop_last()) + escape_char(s.last())
    }
}

/// A JSON string literal.
pub open spec fn quoted(s: Seq<char>) -> Seq<char> {
    seq!['"'] + escaped(s) + seq!['"']
}

/// The compact JSON text of a value: no spaces, members in order.
pub open spec fn json_text(v: Json) -> Seq<char>
    decreases v,
{
    match v {
        Json::Null => seq!['n', 'u', 'l', 'l'],
        Json::Bool(b) => if b {
            seq!['t', 'r', 'u', 'e']
        } else {
            seq!['f', 'a', 'l', 's', 'e']
        },
        Json::UInt(n) => dec(n as nat),
        Json::Int(n) => dec_int(n as int),
        Json::Float(t) => t,
        Json::Str(s) => quoted(s),
        Json::Array(items) => seq!['['] + items_text(items, items.len() as int) + seq![']'],
        Json::Object(entries) => seq!['{'] + members_text(entries, entries.len() as int) + seq!['}'],
    }
}

/// The first `n` items, comma separated.
pub open spec fn items_text(items: Seq<Json>, n: int) -> Seq<char>
    decreases items, n,
{
    if n <= 0 || n > items.len() {
        seq![]
    } else if n == 1 {
        json_text(items[0])
    } else {
        items_text(items, n - 1) + seq![','] + json_text(items[n - 1])
    }
}

/// The first `n` members, as `"key":value`, comma separated.
pub open spec fn members_text(entries: Seq<(Seq<char>, Json)>, n: int) -> Seq<char>
    decreases entries, n,
{
    if n <= 0 || n > entries.len() {
        seq![]
    } else if n == 1 {
        quoted(entries[0].0) + seq![':'] + json_text(entries[0].1)
    } else {
        members_text(entries, n - 1) + seq![','] + quoted(entries[n - 1].0) + seq![':'] + json_text(
            entries[n - 1].1,
        )
    }
}

/// Appends one escaped character.
fn write_escaped_char(out: &mut String, c: char)
    ensures
        final(out)@ == old(out)@ + escape_char(c),
{
    let u = c as u32;
    if c == '"' {
        push_char(out, '\\');
        push_char(out, '"');
    } else if c == '\\' {
        push_char(out, '\\');
        push_char(out, '\\');
    } else if u == 0x08 {
        push_char(out, '\\');
        push_char(out, 'b');
    } else if u == 0x0C {
        push_char(out, '\\');
        push_char(out, 'f');
    } else if c == '\n' {
        push_char(out, '\\');
        push_char(out, 'n');
    } else if c == '\r' {
        push_char(out, '\\');
        push_char(out, 'r');
    } else if c == '\t' {
        push_char(out, '\\');
        push_char(out, 't');
    } else if u < 0x20 {
        push_char(out, '\\');
        push_char(out, 'u');
        push_char(out, '0');
        push_char(out, '0');
        let hi = u / 16;
        let lo = u % 16;
        push_char(out, if hi < 10 { ((hi + 48) as u8) as char } else { ((hi + 87) as u8) as char });
        push_char(out, if lo < 10 { ((lo + 48) as u8) as char } else { ((lo + 87) as u8) as char });
    } else {
        push_char(out, c);
    }
    assert(final(out)@ =~= old(out)@ + escape_char(c));
}

/// Appends a string literal.
pub fn write_quoted(out: &mut String, s: &str)
    ensures
        final(out)@ == old(out)@ + quoted(s@),
{
    let v = chars_of(s);
    let ghost start = out@;
    push_char(out, '"');
    let mut i: usize = 0;
    while i < v.len()
        invariant
            i <= v@.len(),
            out@ == start + seq!['"'] + escaped(v@.take(i as int)),
        decreases v@.len() - i,
    {
        proof {
            assert(v@.take(i + 1).drop_last() =~= v@.take(i as int));
        }
        write_escaped_char(out, v[i]);
        i += 1;
    }
    push_char(out, '"');
    assert(v@.take(v@.len() as int) =~= v@);
    assert(out@ =~= start + quoted(s@));
}

/// Appends the compact JSON text of `v`.
#[verifier::loop_isolation(false)]
pub fn write_json(out: &mut String, v: &JsonValue)
    ensures
        final(out)@ == old(out)@ + json_text(v@),
    decreases v,
{
    match v {
        JsonValue::Null => {
            push_str(out, "null");
            proof { reveal_strlit("null"); }
            assert(final(out)@ =~= old(out)@ + json_text(v@));
        },
        JsonValue::Bool(b) => {
            if *b {
                push_str(out, "true");
                proof { reveal_strlit("true"); }
            } else {
                push_str(out, "false");
                proof { reveal_strlit("false"); }
            }
            assert(final(out)@ =~= old(out)@ + json_text(v@));
        },
        JsonValue::UInt(n) => {
            let t = u64_to_string(*n);
            push_str(out, t.as_str());
        },
        JsonValue::Int(n) => {
            let neg = *n < 0;
            if neg {
                let m: u64 = (0 - (*n as i128)) as u64;
                push_char(out, '-');
                let t = u64_to_string(m);
                push_str(out, t.as_str());
                assert(final(out)@ =~= old(out)@ + json_text(v@));
            } else {
                let t = u64_to_string(*n as u64);
                push_str(out, t.as_str());
            }
        },
        JsonValue::Float(t) => {
            push_str(out, t.as_str());
        },
        JsonValue::Str(s) => {
            write_quoted(out, s.as_str());
        },
        JsonValue::Array(items) => {
            let ghost start = out@;
            let ghost js = match v@ {
                Json::Array(a) => a,
                _ => Seq::empty(),
            };
            push_char(out, '[');
            let mut i: usize = 0;
            while i < items.len()
                invariant
                    i <= items@.len(),
                    js.len() == items@.len(),
                    forall|m: int| 0 <= m < js.len() ==> #[trigger] js[m] == items@[m]@,
                    out@ == start + seq!['['] + items_text(js, i as int),
                decreases items@.len() - i,
            {
                if i > 0 {
                    push_char(out, ',');
                }
                proof {
                    assert(decreases_to!(*v => *items));
                    assert(decreases_to!(*items => items@));
                    assert(decreases_to!(items@ => items@[i as int]));
                }
                write_json(out, &items[i]);
                proof {
                    assert(js[i as int] == items@[i as int]@);
                    if i == 0 {
                        assert(items_text(js, 1) == json_text(js[0]));
                    }
                    assert(out@ =~= start + seq!['['] + items_text(js, i + 1));
                }
                i += 1;
            }
            push_char(out, ']');
            assert(out@ =~= start + json_text(v@));
        },
        JsonValue::Object(entries) => {
            let ghost start = out@;
            let ghost es = match v@ {
                Json::Object(e) => e,
                _ => Seq::empty(),
            };
            push_char(out, '{');
            let mut i: usize = 0;
            while i < entries.len()
                invariant
                    i <= entries@.len(),
                    es.len() == entries@.len(),
                    forall|m: int| 0 <= m < es.len() ==> #[trigger] es[m] == (entries@[m].0@, entries@[m].1@),
                    out@ == start + seq!['{'] + members_text(es, i as int),
                decreases entries@.len() - i,
            {
                if i > 0 {
                    push_char(out, ',');
                }
                let (k, x) = &entries[i];
                write_quoted(out, k.as_str());
                push_char(out, ':');
                proof {
                    assert(decreases_to!(*v => *entries));
                    assert(decreases_to!(*entries => entries@));
                    assert(decreases_to!(entries@ => entries@[i as int]));
                    assert(decreases_to!(entries@[i as int] => entries@[i as int].1));
                }
                write_json(out, x);
                proof {
                    assert(es[i as int] == (entries@[i as int].0@, entries@[i as int].1@));
                    assert(out@ =~= start + seq!['{'] + members_text(es, i + 1));
                }
                i += 1;
            }
            push_char(out, '}');
            assert(out@ =~= start + json_text(v@));
        },
    }
}

/// The compact JSON text of `v`.
pub fn to_json_text(v: &JsonValue) -> (r: String)
    ensures
        r@ == json_text(v@),
{
    let mut out = String::new();
    write_json(&mut out, v);
    assert(out@ =~= json_text(v@));
    out
}

/// Whether two JSON values are equal (numbers by kind and value, other numbers by their
/// text; objects member by member in order).
#[verifier::loop_isolation(false)]
pub fn json_equal(a: &JsonValue, b: &JsonValue) -> (r: bool)
    ensures
        r == (a@ == b@),
    decreases a,
{
    match (a, b) {
        (JsonValue::Null, JsonValue::Null) => true,
        (JsonValue::Bool(x), JsonValue::Bool(y)) => *x == *y,
        (JsonValue::UInt(x), JsonValue::UInt(y)) => *x == *y,
        (JsonValue::Int(x), JsonValue::Int(y)) => *x == *y,
        (JsonValue::Float(x), JsonValue::Float(y)) => crate::text::eq_str(x.as_str(), y.as_str()),
        (JsonValue::Str(x), JsonValue::Str(y)) => crate::text::eq_str(x.as_str(), y.as_str()),
        (JsonValue::Array(x), JsonValue::Array(y)) => {
            if x.len() != y.len() {
                proof {
                    if let (Json::Array(p), Json::Array(q)) = (a@, b@) {
                        assert(p.len() != q.len());
                    }
                }
                return false;
            }
            let mut i: usize = 0;
            while i < x.len()
                invariant
                    i <= x@.len(),
                    x@.len() == y@.len(),
                    forall|k: int| 0 <= k < i ==> x@[k]@ == y@[k]@,
                decreases x@.len() - i,
            {
                proof {
                    assert(decreases_to!(*a => *x));
                    assert(decreases_to!(*x => x@));
                    assert(decreases_to!(x@ => x@[i as int]));
                }
                if !json_equal(&x[i], &y[i]) {
                    proof {
                        if let (Json::Array(p), Json::Array(q)) = (a@, b@) {
                            assert(p[i as int] != q[i as int]);
                        }
                    }
                    return false;
                }
                i += 1;
            }
            proof {
                if let (Json::Array(p), Json::Array(q)) = (a@, b@) {
                    assert(p =~= q);
                }
            }
            true
        },
        (JsonValue::Object(x), JsonValue::Object(y)) => {
            if x.len() != y.len() {
                proof {
                    if let (Json::Object(p), Json::Object(q)) = (a@, b@) {
                        assert(p.len() != q.len());
                    }
                }
                return false;
            }
            let mut i: usize = 0;
            while i < x.len()
                invariant
                    i <= x@.len(),
                    x@.len() == y@.len(),
                    forall|k: int| 0 <= k < i ==> x@[k].0@ == y@[k].0@ && x@[k].1@ == y@[k].1@,
                decreases x@.len() - i,
            {
                proof {
                    assert(decreases_to!(*a => *x));
                    assert(decreases_to!(*x => x@));
                    assert(decreases_to!(x@ => x@[i as int]));
                    assert(decreases_to!(x@[i as int] => x@[i as int].1));
                }
                if !crate::text::eq_str(x[i].0.as_str(), y[i].0.as_str()) || !json_equal(
                    &x[i].1,
                    &y[i].1,
                ) {
                    proof {
                        if let (Json::Object(p), Json::Object(q)) = (a@, b@) {
                            assert(p[i as int] != q[i as int]);
                        }
                    }
                    return false;
                }
                i += 1;
            }
            proof {
                if let (Json::Object(p), Json::Object(q)) = (a@, b@) {
                    assert(p =~= q);
                }
            }
            true
        },
        _ => false,
    }
}

} // verus!
