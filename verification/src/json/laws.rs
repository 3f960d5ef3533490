//! Serialization followed by parsing gives back the value serialized.

use vstd::prelude::*;
use vstd::utf8::char_u32_cast;
use crate::json::parser::{Parsed, at, code_char, digits_end, document, hex4, hex_at, hex_value, is_ws, items_at, members_at, number_at, string_at, string_body, value_at, ws_end};
use crate::json::value::{JVal, Value, hex_digit, json_esc, json_esc_char, json_items, json_pairs,
    json_str, json_text, model_items, model_pairs, lemma_model_items, lemma_model_pairs};
use crate::text::{dec, digit, is_digit, lemma_byte_len_take, lemma_dec_digits};

verus! {

/// Every number in the value fits in an `i64`.
pub open spec fn in_range(v: JVal) -> bool
    decreases v,
{
    match v {
        JVal::Num(n) => i64::MIN <= n <= i64::MAX,
        JVal::Array(a) => all_in_range(a),
        JVal::Object(o) => members_in_range(o),
        _ => true,
    }
}

pub open spec fn all_in_range(a: Seq<JVal>) -> bool
    decreases a,
{
    a.len() == 0 || (all_in_range(a.drop_last()) && in_range(a.last()))
}

pub open spec fn members_in_range(o: Seq<(Seq<char>, JVal)>) -> bool
    decreases o,
{
    o.len() == 0 || (members_in_range(o.drop_last()) && in_range(o.last().1))
}

pub(crate) proof fn lemma_all_in_range(a: Seq<JVal>)
    ensures
        all_in_range(a) == (forall|i: int| 0 <= i < a.len() ==> #[trigger] in_range(a[i])),
    decreases a.len(),
{
    if a.len() > 0 {
        lemma_all_in_range(a.drop_last());
        if forall|i: int| 0 <= i < a.len() ==> #[trigger] in_range(a[i]) {
            assert forall|i: int| 0 <= i < a.drop_last().len() implies #[trigger] in_range(a.drop_last()[i]) by {
                assert(a.drop_last()[i] == a[i]);
            }
            assert(in_range(a[a.len() - 1]));
            assert(all_in_range(a));
        }
        if all_in_range(a) {
            assert forall|i: int| 0 <= i < a.len() implies #[trigger] in_range(a[i]) by {
                if i < a.len() - 1 {
                    assert(a.drop_last()[i] == a[i]);
                }
            }
        }
    }
}

pub(crate) proof fn lemma_members_in_range(o: Seq<(Seq<char>, JVal)>)
    ensures
        members_in_range(o) == (forall|i: int| 0 <= i < o.len() ==> #[trigger] in_range(o[i].1)),
    decreases o.len(),
{
    if o.len() > 0 {
        lemma_members_in_range(o.drop_last());
        if forall|i: int| 0 <= i < o.len() ==> #[trigger] in_range(o[i].1) {
            assert forall|i: int| 0 <= i < o.drop_last().len() implies #[trigger] in_range(o.drop_last()[i].1) by {
                assert(o.drop_last()[i] == o[i]);
            }
            assert(in_range(o[o.len() - 1].1));
            assert(members_in_range(o));
        }
        if members_in_range(o) {
            assert forall|i: int| 0 <= i < o.len() implies #[trigger] in_range(o[i].1) by {
                if i < o.len() - 1 {
                    assert(o.drop_last()[i] == o[i]);
                }
            }
        }
    }
}

proof fn lemma_at_split(s: Seq<char>, p: int, x: Seq<char>, y: Seq<char>)
    requires
        at(s, p, x + y),
    ensures
        at(s, p, x),
        at(s, p + x.len(), y),
{
    let w = s.subrange(p, p + (x + y).len());
    assert(w == x + y);
    assert(s.subrange(p, p + x.len()) =~= w.subrange(0, x.len() as int));
    assert(w.subrange(0, x.len() as int) =~= x);
    assert(s.subrange(p + x.len(), p + x.len() + y.len()) =~= w.subrange(x.len() as int, w.len() as int));
    assert(w.subrange(x.len() as int, w.len() as int) =~= y);
}

proof fn lemma_at_index(s: Seq<char>, p: int, x: Seq<char>, i: int)
    requires
        at(s, p, x),
        0 <= i < x.len(),
    ensures
        s[p + i] == x[i],
{
    assert(s.subrange(p, p + x.len())[i] == s[p + i]);
}

proof fn lemma_json_esc_concat(a: Seq<char>, b: Seq<char>)
    ensures
        json_esc(a + b) == json_esc(a) + json_esc(b),
    decreases b.len(),
{
    if b.len() == 0 {
        assert(a + b =~= a);
        assert(json_esc(a) + json_esc(b) =~= json_esc(a));
    } else {
        lemma_json_esc_concat(a, b.drop_last());
        assert((a + b).drop_last() =~= a + b.drop_last());
        assert((a + b).last() == b.last());
        assert(json_esc(a + b) =~= json_esc(a) + json_esc(b));
    }
}

proof fn lemma_json_esc_front(t: Seq<char>)
    requires
        t.len() > 0,
    ensures
        json_esc(t) == json_esc_char(t[0]) + json_esc(t.drop_first()),
{
    lemma_json_esc_concat(seq![t[0]], t.drop_first());
    assert(seq![t[0]] + t.drop_first() =~= t);
    assert(seq![t[0]].drop_last() =~= Seq::<char>::empty());
    assert(json_esc(Seq::<char>::empty()) =~= Seq::<char>::empty());
    assert(seq![t[0]].last() == t[0]);
    assert(json_esc(seq![t[0]]) =~= json_esc_char(t[0]));
}

proof fn lemma_hex_digit(d: nat)
    requires
        d < 16,
    ensures
        hex_value(hex_digit(d)) == Some(d),
{
}

/// A string body written by the serializer reads back as the same characters.
proof fn lemma_string_rt(s: Seq<char>, q: int, t: Seq<char>, acc: Seq<char>)
    requires
        at(s, q, json_esc(t) + seq!['"']),
    ensures
        string_body(s, q, acc) == Parsed::Done(acc + t, q + json_esc(t).len() + 1),
    decreases t.len(),
{
    if t.len() == 0 {
        assert(json_esc(t) =~= Seq::<char>::empty());
        lemma_at_index(s, q, json_esc(t) + seq!['"'], 0);
        assert(acc + t =~= acc);
    } else {
        let c = t[0];
        let rest = t.drop_first();
        lemma_json_esc_front(t);
        let chunk = json_esc_char(c);
        assert(json_esc(t) + seq!['"'] =~= chunk + (json_esc(rest) + seq!['"']));
        lemma_at_split(s, q, chunk, json_esc(rest) + seq!['"']);
        lemma_string_rt(s, q + chunk.len(), rest, acc.push(c));
        assert(acc.push(c) + rest =~= acc + t);
        lemma_at_index(s, q, chunk, 0);
        if c == '"' || c == '\\' || c == '\n' || c == '\r' || c == '\t' {
            lemma_at_index(s, q, chunk, 1);
        } else if (c as u32) < 0x20 {
            lemma_at_index(s, q, chunk, 1);
            lemma_at_index(s, q, chunk, 2);
            lemma_at_index(s, q, chunk, 3);
            lemma_at_index(s, q, chunk, 4);
            lemma_at_index(s, q, chunk, 5);
            let hi = ((c as u32) / 16) as nat;
            let lo = ((c as u32) % 16) as nat;
            lemma_hex_digit(hi);
            lemma_hex_digit(lo);
            assert(hex_at(s, q + 2) == Some(0nat));
            assert(hex_at(s, q + 3) == Some(0nat));
            assert(hex_at(s, q + 4) == Some(hi));
            assert(hex_at(s, q + 5) == Some(lo));
            lemma_byte_len_take(s, q + 2);
            assert(hex4(s, q + 2) == Ok::<nat, Seq<char>>(0 * 4096 + 0 * 256 + hi * 16 + lo));
            assert(hi * 16 + lo == c as u32);
            vstd::utf8::char_is_scalar(c);
            char_u32_cast(c, c as u32);
            assert(code_char(hi * 16 + lo) == c);
        }
    }
}

proof fn lemma_items_front(b: Seq<JVal>)
    requires
        b.len() >= 2,
    ensures
        json_items(b) == json_text(b[0]) + seq![','] + json_items(b.drop_first()),
    decreases b.len(),
{
    if b.len() == 2 {
        assert(b.drop_last().len() == 1);
        assert(b.drop_first().len() == 1);
        assert(json_items(b.drop_first()) == json_text(b.drop_first()[0]));
        assert(b.drop_first()[0] == b.last());
        assert(json_items(b.drop_last()) == json_text(b.drop_last()[0]));
    } else {
        lemma_items_front(b.drop_last());
        assert(b.drop_last().drop_first() =~= b.drop_first().drop_last());
        assert(b.drop_first().last() == b.last());
        assert(b.drop_last()[0] == b[0]);
    }
}

proof fn lemma_pairs_front(o: Seq<(Seq<char>, JVal)>)
    requires
        o.len() >= 2,
    ensures
        json_pairs(o) == json_str(o[0].0) + seq![':'] + json_text(o[0].1) + seq![','] + json_pairs(o.drop_first()),
    decreases o.len(),
{
    let l = o.last();
    if o.len() == 2 {
        assert(o.drop_first().len() == 1);
        assert(o.drop_first()[0] == o.last());
        assert(o.drop_last()[0] == o[0]);
        assert(o.drop_last().len() == 1);
        assert(json_pairs(o.drop_first()) == json_str(l.0) + seq![':'] + json_text(l.1));
        assert(json_pairs(o.drop_last()) == json_str(o[0].0) + seq![':'] + json_text(o[0].1));
        assert(json_pairs(o) =~= json_str(o[0].0) + seq![':'] + json_text(o[0].1) + seq![','] + json_pairs(o.drop_first()));
    } else {
        lemma_pairs_front(o.drop_last());
        assert(o.drop_last().drop_first() =~= o.drop_first().drop_last());
        assert(o.drop_first().last() == o.last());
        assert(o.drop_last()[0] == o[0]);
        assert(json_pairs(o.drop_first()) == json_pairs(o.drop_first().drop_last()) + seq![','] + json_str(l.0) + seq![':'] + json_text(l.1));
        assert(json_pairs(o) =~= json_str(o[0].0) + seq![':'] + json_text(o[0].1) + seq![','] + json_pairs(o.drop_first()));
    }
}

/// The serialized text starts with a character that is not whitespace.
proof fn lemma_text_first(v: JVal)
    ensures
        json_text(v).len() >= 1,
        !is_ws(json_text(v)[0]),
        json_text(v)[0] != ']',
        json_text(v)[0] != '}',
{
    match v {
        JVal::Num(n) => {
            if n < 0 {
                lemma_dec_digits((-n) as nat);
            } else {
                lemma_dec_digits(n as nat);
            }
        },
        _ => {},
    }
}

/// What may follow a serialized value: nothing, or a character that is
/// not a digit.
pub open spec fn ends_clean(s: Seq<char>, e: int) -> bool {
    e >= s.len() || !is_digit(s[e])
}

/// A serialized value, found in a larger text and followed by a
/// non-digit, reads back as itself.
proof fn lemma_value_rt(s: Seq<char>, p: int, v: JVal)
    requires
        in_range(v),
        at(s, p, json_text(v)),
        ends_clean(s, p + json_text(v).len()),
    ensures
        value_at(s, p) == Parsed::Done(v, p + json_text(v).len()),
    decreases v, 2int,
{
    let t = json_text(v);
    lemma_text_first(v);
    lemma_at_index(s, p, t, 0);
    assert(ws_end(s, p) == p);
    reveal_strlit("null");
    reveal_strlit("true");
    reveal_strlit("false");
    match v {
        JVal::Null => {
            assert(s.subrange(p, p + 4) =~= "null"@);
        },
        JVal::Bool(b) => {
            if b {
                assert(s.subrange(p, p + 4) =~= "true"@);
            } else {
                assert(s.subrange(p, p + 5) =~= "false"@);
            }
        },
        JVal::Num(n) => {
            if n < 0 {
                let m = (-n) as nat;
                lemma_dec_digits(m);
                assert(t == seq!['-'] + dec(m));
                lemma_at_split(s, p, seq!['-'], dec(m));
                assert forall|i: int| p + 1 <= i < p + 1 + dec(m).len() implies is_digit(#[trigger] s[i]) by {
                    lemma_at_index(s, p + 1, dec(m), i - (p + 1));
                }
                lemma_digits_from(s, p + 1, p + 1 + dec(m).len());
                assert(s.subrange(p + 1, p + 1 + dec(m).len()) =~= dec(m));
                assert(number_at(s, p) == Parsed::Done(JVal::Num(-(m as int)), p + 1 + dec(m).len()));
            } else {
                let m = n as nat;
                lemma_dec_digits(m);
                assert forall|i: int| p <= i < p + dec(m).len() implies is_digit(#[trigger] s[i]) by {
                    lemma_at_index(s, p, dec(m), i - p);
                }
                lemma_digits_from(s, p, p + dec(m).len());
                assert(s.subrange(p, p + dec(m).len()) =~= dec(m));
                assert(is_digit(s[p]));
            }
        },
        JVal::Str(x) => {
            assert(t =~= seq!['"'] + (json_esc(x) + seq!['"']));
            lemma_at_split(s, p, seq!['"'], json_esc(x) + seq!['"']);
            lemma_string_rt(s, p + 1, x, Seq::empty());
            assert(Seq::<char>::empty() + x =~= x);
        },
        JVal::Array(a) => {
            lemma_array_rt(s, p, a);
        },
        JVal::Object(o) => {
            lemma_object_rt(s, p, o);
        },
    }
}

proof fn lemma_array_rt(s: Seq<char>, p: int, a: Seq<JVal>)
    requires
        in_range(JVal::Array(a)),
        at(s, p, json_text(JVal::Array(a))),
        ends_clean(s, p + json_text(JVal::Array(a)).len()),
    ensures
        value_at(s, p) == Parsed::Done(JVal::Array(a), p + json_text(JVal::Array(a)).len()),
    decreases a, 1int,
{
    let t = json_text(JVal::Array(a));
    assert(t =~= seq!['['] + (json_items(a) + seq![']']));
    lemma_at_index(s, p, t, 0);
    assert(ws_end(s, p) == p);
    lemma_at_split(s, p, seq!['['], json_items(a) + seq![']']);
    if a.len() == 0 {
        assert(json_items(a) =~= Seq::<char>::empty());
        lemma_at_index(s, p + 1, json_items(a) + seq![']'], 0);
        assert(ws_end(s, p + 1) == p + 1);
        assert(a =~= Seq::<JVal>::empty());
    } else {
        lemma_items_text_first(a);
        lemma_text_first(a[0]);
        lemma_at_index(s, p + 1, json_items(a) + seq![']'], 0);
        assert(ws_end(s, p + 1) == p + 1);
        lemma_all_in_range(a);
        lemma_items_rt(s, p + 1, a, Seq::empty());
        assert(Seq::<JVal>::empty() + a =~= a);

    }
}

proof fn lemma_object_rt(s: Seq<char>, p: int, o: Seq<(Seq<char>, JVal)>)
    requires
        in_range(JVal::Object(o)),
        at(s, p, json_text(JVal::Object(o))),
        ends_clean(s, p + json_text(JVal::Object(o)).len()),
    ensures
        value_at(s, p) == Parsed::Done(JVal::Object(o), p + json_text(JVal::Object(o)).len()),
    decreases o, 1int,
{
    let t = json_text(JVal::Object(o));
    assert(t =~= seq!['{'] + (json_pairs(o) + seq!['}']));
    lemma_at_index(s, p, t, 0);
    assert(ws_end(s, p) == p);
    lemma_at_split(s, p, seq!['{'], json_pairs(o) + seq!['}']);
    if o.len() == 0 {
        assert(json_pairs(o) =~= Seq::<char>::empty());
        lemma_at_index(s, p + 1, json_pairs(o) + seq!['}'], 0);
        assert(ws_end(s, p + 1) == p + 1);
        assert(o =~= Seq::<(Seq<char>, JVal)>::empty());
    } else {
        lemma_pairs_text_first(o);
        lemma_at_index(s, p + 1, json_pairs(o) + seq!['}'], 0);
        assert(ws_end(s, p + 1) == p + 1);
        lemma_members_in_range(o);
        lemma_members_rt(s, p + 1, o, Seq::empty());
        assert(Seq::<(Seq<char>, JVal)>::empty() + o =~= o);
    }
}

proof fn lemma_digits_from(s: Seq<char>, p: int, e: int)
    requires
        0 <= p <= e <= s.len(),
        forall|i: int| p <= i < e ==> is_digit(#[trigger] s[i]),
        e >= s.len() || !is_digit(s[e]),
    ensures
        digits_end(s, p) == e,
    decreases e - p,
{
    if p < e {
        lemma_digits_from(s, p + 1, e);
    }
}

proof fn lemma_items_text_first(a: Seq<JVal>)
    requires
        a.len() >= 1,
    ensures
        json_items(a).len() >= 1,
        json_items(a)[0] == json_text(a[0])[0],
    decreases a.len(),
{
    lemma_text_first(a[0]);
    if a.len() >= 2 {
        lemma_items_text_first(a.drop_last());
    }
}

proof fn lemma_pairs_text_first(o: Seq<(Seq<char>, JVal)>)
    requires
        o.len() >= 1,
    ensures
        json_pairs(o).len() >= 1,
        json_pairs(o)[0] == '"',
    decreases o.len(),
{
    if o.len() >= 2 {
        lemma_pairs_text_first(o.drop_last());
    }
}

proof fn lemma_items_rt(s: Seq<char>, q: int, b: Seq<JVal>, acc: Seq<JVal>)
    requires
        b.len() >= 1,
        forall|i: int| 0 <= i < b.len() ==> #[trigger] in_range(b[i]),
        at(s, q, json_items(b) + seq![']']),
    ensures
        items_at(s, q, acc) == Parsed::Done(JVal::Array(acc + b), q + json_items(b).len() + 1),
    decreases b, 0int,
{
    let v = b[0];
    let tv = json_text(v);
    assert(in_range(b[0]));
    if b.len() == 1 {
        assert(json_items(b) == tv);
        lemma_at_split(s, q, tv, seq![']']);
        lemma_at_index(s, q + tv.len(), seq![']'], 0);
        lemma_value_rt(s, q, v);
        assert(ws_end(s, q + tv.len()) == q + tv.len());
        assert(acc.push(v) =~= acc + b);
    } else {
        lemma_items_front(b);
        let rest = b.drop_first();
        assert(json_items(b) + seq![']'] =~= tv + (seq![','] + (json_items(rest) + seq![']'])));
        lemma_at_split(s, q, tv, seq![','] + (json_items(rest) + seq![']']));
        lemma_at_split(s, q + tv.len(), seq![','], json_items(rest) + seq![']']);
        lemma_at_index(s, q + tv.len(), seq![','], 0);
        lemma_value_rt(s, q, v);
        assert(ws_end(s, q + tv.len()) == q + tv.len());
        assert forall|i: int| 0 <= i < rest.len() implies #[trigger] in_range(rest[i]) by {
            assert(rest[i] == b[i + 1]);
        }
        lemma_items_rt(s, q + tv.len() + 1, rest, acc.push(v));
        assert(acc.push(v) + rest =~= acc + b);
    }
}

proof fn lemma_members_rt(s: Seq<char>, q: int, o: Seq<(Seq<char>, JVal)>, acc: Seq<(Seq<char>, JVal)>)
    requires
        o.len() >= 1,
        forall|i: int| 0 <= i < o.len() ==> #[trigger] in_range(o[i].1),
        at(s, q, json_pairs(o) + seq!['}']),
    ensures
        members_at(s, q, acc) == Parsed::Done(JVal::Object(acc + o), q + json_pairs(o).len() + 1),
    decreases o, 0int,
{
    let k = o[0].0;
    let v = o[0].1;
    let tk = json_str(k);
    let tv = json_text(v);
    assert(in_range(o[0].1));
    let tail = if o.len() == 1 { seq!['}'] } else { seq![','] + (json_pairs(o.drop_first()) + seq!['}']) };
    if o.len() == 1 {
        assert(json_pairs(o) == tk + seq![':'] + tv);
    } else {
        lemma_pairs_front(o);
    }
    assert(json_pairs(o) + seq!['}'] =~= tk + (seq![':'] + (tv + tail)));
    lemma_at_split(s, q, tk, seq![':'] + (tv + tail));
    lemma_at_split(s, q + tk.len(), seq![':'], tv + tail);
    lemma_at_split(s, q + tk.len() + 1, tv, tail);
    lemma_at_index(s, q, tk, 0);
    assert(ws_end(s, q) == q);
    assert(tk =~= seq!['"'] + (json_esc(k) + seq!['"']));
    lemma_at_split(s, q, seq!['"'], json_esc(k) + seq!['"']);
    lemma_string_rt(s, q + 1, k, Seq::empty());
    assert(Seq::<char>::empty() + k =~= k);
    assert(string_at(s, q) == Parsed::Done(k, q + tk.len()));
    lemma_at_index(s, q + tk.len(), seq![':'], 0);
    assert(ws_end(s, q + tk.len()) == q + tk.len());
    lemma_at_index(s, q + tk.len() + 1 + tv.len(), tail, 0);
    lemma_value_rt(s, q + tk.len() + 1, v);
    let r = q + tk.len() + 1 + tv.len();
    assert(ws_end(s, r) == r);
    if o.len() == 1 {
        assert(acc.push((k, v)) =~= acc + o);
    } else {
        let rest = o.drop_first();
        lemma_at_split(s, r, seq![','], json_pairs(rest) + seq!['}']);
        assert forall|i: int| 0 <= i < rest.len() implies #[trigger] in_range(rest[i].1) by {
            assert(rest[i] == o[i + 1]);
        }
        lemma_members_rt(s, r + 1, rest, acc.push((k, v)));
        assert(acc.push((k, v)) + rest =~= acc + o);
        assert(o[0] == (k, v));
    }
}

/// Parsing the serializer's text of a value gives back that value.
pub proof fn lemma_parse_serialize(v: JVal)
    requires
        in_range(v),
    ensures
        document(json_text(v)) == Parsed::Done(v, json_text(v).len() as int),
{
    let s = json_text(v);
    lemma_text_first(v);
    assert(ws_end(s, 0) == 0);
    assert(s.subrange(0, s.len() as int) =~= s);
    lemma_value_rt(s, 0, v);
    assert(ws_end(s, s.len() as int) == s.len());
}

/// Every number held by a `Value` fits in an `i64`.
pub proof fn lemma_model_in_range(v: Value)
    ensures
        in_range(v.model()),
    decreases v,
{
    match v {
        Value::Array(a) => {
            lemma_model_items(a@);
            lemma_all_in_range(model_items(a@));
            assert forall|i: int| 0 <= i < a@.len() implies #[trigger] in_range(model_items(a@)[i]) by {
                assert(decreases_to!(v => v->Array_0));
                assert(decreases_to!(v->Array_0 => a@));
                assert(decreases_to!(a@ => a@[i]));
                lemma_model_in_range(a@[i]);
            }
        },
        Value::Object(o) => {
            lemma_model_pairs(o@);
            lemma_members_in_range(model_pairs(o@));
            assert forall|i: int| 0 <= i < o@.len() implies #[trigger] in_range(model_pairs(o@)[i].1) by {
                assert(decreases_to!(v => v->Object_0));
                assert(decreases_to!(v->Object_0 => o@));
                assert(decreases_to!(o@ => o@[i]));
                assert(decreases_to!(o@[i] => o@[i].1));
                lemma_model_in_range(o@[i].1);
            }
        },
        _ => {},
    }
}

/// Serializing a `Value` and parsing the text gives back the same value.
pub proof fn lemma_value_roundtrip(v: Value)
    ensures
        document(json_text(v.model())) == Parsed::Done(v.model(), json_text(v.model()).len() as int),
{
    lemma_model_in_range(v);
    lemma_parse_serialize(v.model());
}

} // verus!
