//! The JSON `Value` type, its mathematical model, the serializer and
//! the accessors.

use vstd::prelude::*;
use crate::text::{chars_of, dec_int, push_char, push_i64, push_str};

verus! {

#[derive(Debug)]
pub enum Value {
    Null,
    Bool(bool),
    Num(i64),
    Str(String),
    Array(Vec<Value>),
    Object(Vec<(String, Value)>),
}

/// Mathematical model of a JSON value: strings as character sequences,
/// arrays and objects as sequences.
pub enum JVal {
    Null,
    Bool(bool),
    Num(int),
    Str(Seq<char>),
    Array(Seq<JVal>),
    Object(Seq<(Seq<char>, JVal)>),
}

impl Value {
    pub open spec fn model(self) -> JVal
        decreases self,
    {
        match self {
            Value::Null => JVal::Null,
            Value::Bool(b) => JVal::Bool(b),
            Value::Num(n) => JVal::Num(n as int),
            Value::Str(s) => JVal::Str(s@),
            Value::Array(a) => JVal::Array(model_items(a@)),
            Value::Object(o) => JVal::Object(model_pairs(o@)),
        }
    }
}

pub open spec fn model_items(s: Seq<Value>) -> Seq<JVal>
    decreases s,
{
    if s.len() == 0 {
        Seq::empty()
    } else {
        model_items(s.drop_last()).push(s.last().model())
    }
}

pub open spec fn model_pairs(s: Seq<(String, Value)>) -> Seq<(Seq<char>, JVal)>
    decreases s,
{
    if s.len() == 0 {
        Seq::empty()
    } else {
        model_pairs(s.drop_last()).push((s.last().0@, s.last().1.model()))
    }
}


pub proof fn lemma_model_items(s: Seq<Value>)
    ensures
        model_items(s).len() == s.len(),
        forall|i: int| 0 <= i < s.len() ==> #[trigger] model_items(s)[i] == s[i].model(),
    decreases s.len(),
{
    if s.len() > 0 {
        lemma_model_items(s.drop_last());
    }
}

pub proof fn lemma_model_pairs(s: Seq<(String, Value)>)
    ensures
        model_pairs(s).len() == s.len(),
        forall|i: int| 0 <= i < s.len() ==> #[trigger] model_pairs(s)[i] == (s[i].0@, s[i].1.model()),
    decreases s.len(),
{
    if s.len() > 0 {
        lemma_model_pairs(s.drop_last());
    }
}

/// Lowercase hexadecimal digit for `d < 16`.
pub open spec fn hex_digit(d: nat) -> char {
    if d < 10 {
        crate::text::digit(d)
    } else if d == 10 { 'a' }
    else if d == 11 { 'b' }
    else if d == 12 { 'c' }
    else if d == 13 { 'd' }
    else if d == 14 { 'e' }
    else { 'f' }
}

/// How the serializer writes one character inside a JSON string.
pub open spec fn json_esc_char(c: char) -> Seq<char> {
    if c == '"' {
        seq!['\\', '"']
    } else if c == '\\' {
        seq!['\\', '\\']
    } else if c == '\n' {
        seq!['\\', 'n']
    } else if c == '\r' {
        seq!['\\', 'r']
    } else if c == '\t' {
        seq!['\\', 't']
    } else if (c as u32) < 0x20 {
        seq!['\\', 'u', '0', '0', hex_digit(((c as u32) / 16) as nat), hex_digit(((c as u32) % 16) as nat)]
    } else {
        seq![c]
    }
}

pub open spec fn json_esc(s: Seq<char>) -> Seq<char>
    decreases s.len(),
{
    if s.len() == 0 {
        Seq::empty()
    } else {
        json_esc(s.drop_last()) + json_esc_char(s.last())
    }
}

/// A JSON string literal: quotes around the escaped characters.
pub open spec fn json_str(s: Seq<char>) -> Seq<char> {
    seq!['"'] + json_esc(s) + seq!['"']
}

/// The text the serializer produces for a value.
pub open spec fn json_text(v: JVal) -> Seq<char>
    decreases v,
{
    match v {
        JVal::Null => seq!['n', 'u', 'l', 'l'],
        JVal::Bool(b) => if b { seq!['t', 'r', 'u', 'e'] } else { seq!['f', 'a', 'l', 's', 'e'] },
        JVal::Num(n) => dec_int(n),
        JVal::Str(s) => json_str(s),
        JVal::Array(a) => seq!['['] + json_items(a) + seq![']'],
        JVal::Object(o) => seq!['{'] + json_pairs(o) + seq!['}'],
    }
}

/// Array elements separated by commas.
pub open spec fn json_items(a: Seq<JVal>) -> Seq<char>
    decreases a,
{
    if a.len() == 0 {
        Seq::empty()
    } else if a.len() == 1 {
        json_text(a[0])
    } else {
        json_items(a.drop_last()) + seq![','] + json_text(a.last())
    }
}

/// Object members separated by commas.
pub open spec fn json_pairs(o: Seq<(Seq<char>, JVal)>) -> Seq<char>
    decreases o,
{
    if o.len() == 0 {
        Seq::empty()
    } else if o.len() == 1 {
        json_str(o[0].0) + seq![':'] + json_text(o[0].1)
    } else {
        json_pairs(o.drop_last()) + seq![','] + json_str(o.last().0) + seq![':'] + json_text(o.last().1)
    }
}

pub(crate) fn hex_digit_char(d: u32) -> (c: char)
    requires
        d < 16,
    ensures
        c == hex_digit(d as nat),
{
    if d < 10 {
        crate::text::digit_char(d as u64)
    } else if d == 10 { 'a' }
    else if d == 11 { 'b' }
    else if d == 12 { 'c' }
    else if d == 13 { 'd' }
    else if d == 14 { 'e' }
    else { 'f' }
}

/// Writes `s` as a JSON string literal.
pub fn write_str(out: &mut String, s: &str)
    ensures
        final(out)@ == old(out)@ + json_str(s@),
{
    let ghost start = out@;
    let cs = chars_of(s);
    push_char(out, '"');
    let mut i: usize = 0;
    while i < cs.len()
        invariant
            cs@ == s@,
            i <= cs@.len(),
            out@ == start.push('"') + json_esc(cs@.take(i as int)),
        decreases cs.len() - i,
    {
        let c = cs[i];
        let ghost before = out@;
        if c == '"' {
            push_char(out, '\\');
            push_char(out, '"');
        } else if c == '\\' {
            push_char(out, '\\');
            push_char(out, '\\');
        } else if c == '\n' {
            push_char(out, '\\');
            push_char(out, 'n');
        } else if c == '\r' {
            push_char(out, '\\');
            push_char(out, 'r');
        } else if c == '\t' {
            push_char(out, '\\');
            push_char(out, 't');
        } else if (c as u32) < 0x20 {
            push_char(out, '\\');
            push_char(out, 'u');
            push_char(out, '0');
            push_char(out, '0');
            push_char(out, hex_digit_char((c as u32) / 16));
            push_char(out, hex_digit_char((c as u32) % 16));
        } else {
            push_char(out, c);
        }
        proof {
            assert(out@ =~= before + json_esc_char(c));
            assert(cs@.take(i + 1).drop_last() =~= cs@.take(i as int));
        }
        i += 1;
    }
    push_char(out, '"');
    assert(cs@.take(cs@.len() as int) =~= cs@);
    assert(out@ =~= start + json_str(s@));
}

/// Writes the JSON text of `v`.
pub fn write(out: &mut String, v: &Value)
    ensures
        final(out)@ == old(out)@ + json_text(v.model()),
    decreases v,
{
    let ghost start = out@;
    match v {
        Value::Null => {
            push_str(out, "null");
            proof { reveal_strlit("null"); }
        }
        Value::Bool(b) => {
            if *b {
                push_str(out, "true");
                proof { reveal_strlit("true"); }
            } else {
                push_str(out, "false");
                proof { reveal_strlit("false"); }
            }
        }
        Value::Num(n) => push_i64(out, *n),
        Value::Str(s) => write_str(out, s.as_str()),
        Value::Array(a) => {
            proof { lemma_model_items(a@); }
            let ghost m = model_items(a@);
            push_char(out, '[');
            let mut i: usize = 0;
            while i < a.len()
                invariant
                    *v == Value::Array(*a),
                    m == model_items(a@),
                    m.len() == a@.len(),
                    forall|j: int| 0 <= j < a@.len() ==> #[trigger] m[j] == a@[j].model(),
                    i <= a@.len(),
                    out@ == start.push('[') + json_items(m.take(i as int)),
                decreases a.len() - i,
            {
                let ghost before = out@;
                if i > 0 {
                    push_char(out, ',');
                }
                proof {
                    assert(decreases_to!(*v => (*v)->Array_0));
                    assert(decreases_to!(*a => a@));
                    assert(decreases_to!(a@ => a@[i as int]));
                }
                write(out, &a[i]);
                proof {
                    let t = m.take(i + 1);
                    assert(t.drop_last() =~= m.take(i as int));
                    assert(t.last() == m[i as int]);
                    if i == 0 {
                        assert(json_items(t) == json_text(t[0]));
                        assert(out@ =~= start.push('[') + json_items(t));
                    } else {
                        assert(out@ =~= start.push('[') + json_items(t));
                    }
                }
                i += 1;
            }
            push_char(out, ']');
            assert(m.take(a@.len() as int) =~= m);
            assert(out@ =~= start + json_text(v.model()));
        }
        Value::Object(o) => {
            proof { lemma_model_pairs(o@); }
            let ghost m = model_pairs(o@);
            push_char(out, '{');
            let mut i: usize = 0;
            while i < o.len()
                invariant
                    *v == Value::Object(*o),
                    m == model_pairs(o@),
                    m.len() == o@.len(),
                    forall|j: int| 0 <= j < o@.len() ==> #[trigger] m[j] == (o@[j].0@, o@[j].1.model()),
                    i <= o@.len(),
                    out@ == start.push('{') + json_pairs(m.take(i as int)),
                decreases o.len() - i,
            {
                let ghost before = out@;
                if i > 0 {
                    push_char(out, ',');
                }
                let (k, x) = &o[i];
                write_str(out, k.as_str());
                push_char(out, ':');
                proof {
                    assert(decreases_to!(*v => (*v)->Object_0));
                    assert(decreases_to!(*o => o@));
                    assert(decreases_to!(o@ => o@[i as int]));
                    assert(decreases_to!(o@[i as int] => o@[i as int].1));
                }
                write(out, x);
                proof {
                    let t = m.take(i + 1);
                    assert(t.drop_last() =~= m.take(i as int));
                    assert(t.last() == m[i as int]);
                    if i == 0 {
                        assert(out@ =~= start.push('{') + json_pairs(t));
                    } else {
                        assert(out@ =~= start.push('{') + json_pairs(t));
                    }
                }
                i += 1;
            }
            push_char(out, '}');
            assert(m.take(o@.len() as int) =~= m);
            assert(out@ =~= start + json_text(v.model()));
        }
    }
}

/// The value of the first member from position `from` on whose key is `k`.
pub open spec fn first_match(ps: Seq<(Seq<char>, JVal)>, k: Seq<char>, from: int) -> Option<JVal>
    decreases ps.len() - from,
{
    if from < 0 || from >= ps.len() {
        None
    } else if ps[from].0 == k {
        Some(ps[from].1)
    } else {
        first_match(ps, k, from + 1)
    }
}

/// The value stored under `k` in an object (its first member with that
/// key); `None` for other values.
pub open spec fn jget(v: JVal, k: Seq<char>) -> Option<JVal> {
    match v {
        JVal::Object(o) => first_match(o, k, 0),
        _ => None,
    }
}

impl Value {
    /// The value stored under `key` in an object: the first member whose
    /// key equals `key`. `None` for a missing key and for non-objects.
    pub fn get(&self, key: &str) -> (r: Option<&Value>)
        ensures
            match r {
                Some(x) => jget(self.model(), key@) == Some(x.model()),
                None => jget(self.model(), key@) is None,
            },
    {
        if let Value::Object(o) = self {
            proof {
                lemma_model_pairs(o@);
            }
            let ghost m = model_pairs(o@);
            let mut i: usize = 0;
            while i < o.len()
                invariant
                    *self == Value::Object(*o),
                    m == model_pairs(o@),
                    m.len() == o@.len(),
                    forall|j: int| 0 <= j < o@.len() ==> #[trigger] m[j] == (o@[j].0@, o@[j].1.model()),
                    i <= o@.len(),
                    first_match(m, key@, 0) == first_match(m, key@, i as int),
                decreases o.len() - i,
            {
                assert(m[i as int] == (o@[i as int].0@, o@[i as int].1.model()));
                if crate::text::str_eq(o[i].0.as_str(), key) {
                    return Some(&o[i].1);
                }
                i += 1;
            }
        }
        None
    }

    pub fn as_str(&self) -> (r: Option<&str>)
        ensures
            match self {
                Value::Str(s) => r is Some && r->0@ == s@,
                _ => r is None,
            },
    {
        if let Value::Str(s) = self {
            Some(s.as_str())
        } else {
            None
        }
    }

    pub fn as_i64(&self) -> (r: Option<i64>)
        ensures
            match self {
                Value::Num(n) => r == Some(*n),
                _ => r is None,
            },
    {
        if let Value::Num(n) = self {
            Some(*n)
        } else {
            None
        }
    }

    /// The number, with negatives clamped to 0.
    pub fn as_u64(&self) -> (r: Option<u64>)
        ensures
            match self {
                Value::Num(n) => r == Some(if *n < 0 { 0u64 } else { *n as u64 }),
                _ => r is None,
            },
    {
        if let Value::Num(n) = self {
            Some(if *n < 0 { 0u64 } else { *n as u64 })
        } else {
            None
        }
    }

    pub fn as_bool(&self) -> (r: Option<bool>)
        ensures
            match self {
                Value::Bool(b) => r == Some(*b),
                _ => r is None,
            },
    {
        if let Value::Bool(b) = self {
            Some(*b)
        } else {
            None
        }
    }
}

} // verus!
