//! The browser bridge's JSON shape for a `Reading`: the page hands
//! readings to JavaScript and back as this JSON, so the reading survives
//! the trip (all but the timestamps of its entries, which JSON does not
//! carry).

use vstd::prelude::*;
use crate::github::{bool_field, str_field};
use crate::json::laws::{in_range, lemma_all_in_range, lemma_members_in_range, lemma_parse_serialize};
use crate::json::parser::{Parsed, document};
use crate::json::value::{JVal, Value, jget, json_text, lemma_model_items, lemma_model_pairs, model_items, model_pairs};
use crate::metrics::{Corpse, Fate, Reading, SubjectKind, fate_label, kind_prefix};
use crate::text::string_of;
use crate::time::Utc;

verus! {

/// One entry as JSON.
pub open spec fn entry_json(c: Corpse) -> JVal {
    JVal::Object(seq![
        ("name"@, JVal::Str(c.name@)),
        ("url"@, JVal::Str(c.url@)),
        ("daysIdle"@, JVal::Num(c.days_idle as int)),
        ("stars"@, JVal::Num((c.stars as i64) as int)),
        ("fate"@, JVal::Str(fate_label(c.fate))),
        ("stillborn"@, JVal::Bool(c.stillborn)),
    ])
}

pub open spec fn entries_json(es: Seq<Corpse>) -> Seq<JVal> {
    es.map_values(|c: Corpse| entry_json(c))
}

pub open spec fn counts_json(c: Seq<u32>) -> Seq<JVal> {
    c.map_values(|n: u32| JVal::Num(n as int))
}

/// A reading as JSON: camel-case keys, numbers as JSON integers (stars
/// taken as signed 64-bit), `null` for an absent oldest corpse or last
/// push.
pub open spec fn reading_json(r: Reading) -> JVal {
    JVal::Object(seq![
        ("subject"@, JVal::Str(r.subject@)),
        ("kind"@, JVal::Str(kind_prefix(r.kind))),
        ("index"@, JVal::Num(r.index as int)),
        ("title"@, JVal::Str(r.title@)),
        ("flavor"@, JVal::Str(r.flavor@)),
        ("counts"@, JVal::Array(counts_json(r.counts@))),
        ("total"@, JVal::Num(r.total as int)),
        ("starsStranded"@, JVal::Num((r.stars_stranded as i64) as int)),
        ("oldestCorpse"@, match r.oldest_corpse {
            Some((n, d)) => JVal::Object(seq![("name"@, JVal::Str(n@)), ("daysIdle"@, JVal::Num(d as int))]),
            None => JVal::Null,
        }),
        ("stillborn"@, JVal::Num(r.stillborn as int)),
        ("daysSinceAnyPush"@, match r.days_since_any_push {
            Some(d) => JVal::Num(d as int),
            None => JVal::Null,
        }),
        ("lowSample"@, JVal::Bool(r.low_sample)),
        ("entries"@, JVal::Array(entries_json(r.entries@))),
    ])
}

fn obj(pairs: Vec<(String, Value)>) -> (v: Value)
    ensures
        v.model() == JVal::Object(model_pairs(pairs@)),
{
    Value::Object(pairs)
}

fn entry_value(c: &Corpse) -> (v: Value)
    ensures
        v.model() == entry_json(*c),
{
    let mut p: Vec<(String, Value)> = Vec::new();
    p.push((string_of("name"), Value::Str(string_of(c.name.as_str()))));
    p.push((string_of("url"), Value::Str(string_of(c.url.as_str()))));
    p.push((string_of("daysIdle"), Value::Num(c.days_idle as i64)));
    p.push((string_of("stars"), Value::Num(c.stars as i64)));
    p.push((string_of("fate"), Value::Str(string_of(c.fate.label()))));
    p.push((string_of("stillborn"), Value::Bool(c.stillborn)));
    proof {
        lemma_model_pairs(p@);
        assert(model_pairs(p@) =~= seq![
            ("name"@, JVal::Str(c.name@)),
            ("url"@, JVal::Str(c.url@)),
            ("daysIdle"@, JVal::Num(c.days_idle as int)),
            ("stars"@, JVal::Num((c.stars as i64) as int)),
            ("fate"@, JVal::Str(fate_label(c.fate))),
            ("stillborn"@, JVal::Bool(c.stillborn)),
        ]);
    }
    obj(p)
}

fn entries_value(es: &Vec<Corpse>) -> (v: Vec<Value>)
    ensures
        model_items(v@) == entries_json(es@),
{
    let mut v: Vec<Value> = Vec::new();
    let mut i: usize = 0;
    while i < es.len()
        invariant
            i <= es@.len(),
            v@.len() == i,
            forall|j: int| 0 <= j < i ==> #[trigger] v@[j].model() == entry_json(es@[j]),
        decreases es.len() - i,
    {
        v.push(entry_value(&es[i]));
        i += 1;
    }
    proof {
        lemma_model_items(v@);
        assert(model_items(v@) =~= entries_json(es@));
    }
    v
}

fn counts_value(c: &[u32; 5]) -> (v: Vec<Value>)
    ensures
        model_items(v@) == counts_json(c@),
{
    let mut v: Vec<Value> = Vec::new();
    let mut i: usize = 0;
    while i < 5
        invariant
            i <= 5,
            c@.len() == 5,
            v@.len() == i,
            forall|j: int| 0 <= j < i ==> #[trigger] v@[j].model() == JVal::Num(c@[j] as int),
        decreases 5 - i,
    {
        v.push(Value::Num(c[i] as i64));
        i += 1;
    }
    proof {
        lemma_model_items(v@);
        assert(model_items(v@) =~= counts_json(c@));
    }
    v
}

/// The JSON value of a reading.
pub fn reading_to_value(r: &Reading) -> (v: Value)
    ensures
        v.model() == reading_json(*r),
{
    let oldest = match &r.oldest_corpse {
        Some((n, d)) => {
            let mut p: Vec<(String, Value)> = Vec::new();
            p.push((string_of("name"), Value::Str(string_of(n.as_str()))));
            p.push((string_of("daysIdle"), Value::Num(*d as i64)));
            proof {
                lemma_model_pairs(p@);
                assert(model_pairs(p@) =~= seq![("name"@, JVal::Str(n@)), ("daysIdle"@, JVal::Num(*d as int))]);
            }
            obj(p)
        },
        None => Value::Null,
    };
    let days = match r.days_since_any_push {
        Some(d) => Value::Num(d as i64),
        None => Value::Null,
    };
    let counts = counts_value(&r.counts);
    let entries = entries_value(&r.entries);
    let mut p: Vec<(String, Value)> = Vec::new();
    p.push((string_of("subject"), Value::Str(string_of(r.subject.as_str()))));
    p.push((string_of("kind"), Value::Str(string_of(r.kind.prefix()))));
    p.push((string_of("index"), Value::Num(r.index as i64)));
    p.push((string_of("title"), Value::Str(string_of(r.title.as_str()))));
    p.push((string_of("flavor"), Value::Str(string_of(r.flavor.as_str()))));
    p.push((string_of("counts"), Value::Array(counts)));
    p.push((string_of("total"), Value::Num(r.total as i64)));
    p.push((string_of("starsStranded"), Value::Num(r.stars_stranded as i64)));
    p.push((string_of("oldestCorpse"), oldest));
    p.push((string_of("stillborn"), Value::Num(r.stillborn as i64)));
    p.push((string_of("daysSinceAnyPush"), days));
    p.push((string_of("lowSample"), Value::Bool(r.low_sample)));
    p.push((string_of("entries"), Value::Array(entries)));
    proof {
        lemma_model_pairs(p@);
        assert(model_pairs(p@) =~= match reading_json(*r) {
            JVal::Object(o) => o,
            _ => Seq::empty(),
        });
    }
    obj(p)
}

/// The JSON text of a reading.
pub fn serialize_reading(r: &Reading) -> (s: String)
    ensures
        s@ == crate::json::value::json_text(reading_json(*r)),
{
    let v = reading_to_value(r);
    crate::json::serialize(&v)
}


/// The number under `k`, 0 when absent or not a number.
pub open spec fn num_field(v: JVal, k: Seq<char>) -> int {
    match jget(v, k) {
        Some(JVal::Num(n)) => n,
        _ => 0,
    }
}

/// The string under `k`, empty when absent or not a string.
pub open spec fn text_field(v: JVal, k: Seq<char>) -> Seq<char> {
    match str_field(v, k) {
        Some(s) => s,
        None => Seq::empty(),
    }
}

/// A fate by its label; anything unknown reads as dead.
pub open spec fn fate_named(s: Option<Seq<char>>) -> Fate {
    match s {
        Some(t) => if t == "alive"@ {
            Fate::Alive
        } else if t == "cooling"@ {
            Fate::Cooling
        } else if t == "cold"@ {
            Fate::Cold
        } else if t == "buried"@ {
            Fate::Buried
        } else {
            Fate::Dead
        },
        None => Fate::Dead,
    }
}

/// Count `i` from the `counts` array: its `i`-th number cut to 32 bits, 0
/// when missing.
pub open spec fn count_at(v: JVal, i: int) -> u32 {
    match jget(v, "counts"@) {
        Some(JVal::Array(a)) => if 0 <= i < a.len() {
            match a[i] {
                JVal::Num(n) => n as u32,
                _ => 0u32,
            }
        } else {
            0u32
        },
        _ => 0u32,
    }
}

/// The oldest corpse: a `name` and its `daysIdle` under `oldestCorpse`.
pub open spec fn oldest_from(v: JVal) -> Option<(Seq<char>, u32)> {
    match jget(v, "oldestCorpse"@) {
        Some(JVal::Object(o)) => match str_field(JVal::Object(o), "name"@) {
            Some(n) => Some((n, num_field(JVal::Object(o), "daysIdle"@) as u32)),
            None => None,
        },
        _ => None,
    }
}

/// The objects among `items`, in order.
pub open spec fn objects_of(items: Seq<JVal>) -> Seq<JVal>
    decreases items.len(),
{
    if items.len() == 0 {
        Seq::empty()
    } else if items.last() is Object {
        objects_of(items.drop_last()).push(items.last())
    } else {
        objects_of(items.drop_last())
    }
}

/// The entry objects of a reading's JSON.
pub open spec fn entry_objects(v: JVal) -> Seq<JVal> {
    match jget(v, "entries"@) {
        Some(JVal::Array(a)) => objects_of(a),
        _ => Seq::empty(),
    }
}

/// `c` is the corpse the entry object `e` describes, dated `now`.
pub open spec fn entry_from(c: Corpse, e: JVal, now: Utc) -> bool {
    &&& c.name@ == text_field(e, "name"@)
    &&& c.url@ == text_field(e, "url"@)
    &&& c.days_idle == num_field(e, "daysIdle"@) as u32
    &&& c.stars == num_field(e, "stars"@) as u64
    &&& c.stillborn == bool_field(e, "stillborn"@)
    &&& c.fate == fate_named(str_field(e, "fate"@))
    &&& c.created_at == now
    &&& c.last_activity == now
}

/// `rd` is the reading the JSON object `v` describes, its entries dated
/// `now`: missing strings are empty, missing numbers 0 (cut to each
/// field's width), missing flags false.
pub open spec fn reading_from(rd: Reading, v: JVal, now: Utc) -> bool {
    &&& rd.subject@ == text_field(v, "subject"@)
    &&& rd.kind == (if str_field(v, "kind"@) == Some("org"@) { SubjectKind::Org } else { SubjectKind::User })
    &&& rd.index == num_field(v, "index"@) as u8
    &&& rd.title@ == text_field(v, "title"@)
    &&& rd.flavor@ == text_field(v, "flavor"@)
    &&& (forall|i: int| 0 <= i < 5 ==> #[trigger] rd.counts@[i] == count_at(v, i))
    &&& rd.total == num_field(v, "total"@) as u32
    &&& rd.stars_stranded == num_field(v, "starsStranded"@) as u64
    &&& match rd.oldest_corpse {
        Some((n, d)) => oldest_from(v) == Some((n@, d)),
        None => oldest_from(v) is None,
    }
    &&& rd.stillborn == num_field(v, "stillborn"@) as u32
    &&& rd.days_since_any_push == match jget(v, "daysSinceAnyPush"@) {
        Some(JVal::Num(n)) => Some(n as u32),
        _ => None,
    }
    &&& rd.low_sample == bool_field(v, "lowSample"@)
    &&& rd.entries@.len() == entry_objects(v).len()
    &&& forall|i: int| 0 <= i < rd.entries@.len() ==> entry_from(#[trigger] rd.entries@[i], entry_objects(v)[i], now)
}

fn text_or_empty(v: &Value, k: &str) -> (r: String)
    ensures
        r@ == text_field(v.model(), k@),
{
    match v.get(k) {
        Some(x) => match x.as_str() {
            Some(s) => string_of(s),
            None => String::new(),
        },
        None => String::new(),
    }
}

fn num_or_zero(v: &Value, k: &str) -> (r: i64)
    ensures
        r as int == num_field(v.model(), k@),
{
    match v.get(k) {
        Some(x) => match x.as_i64() {
            Some(n) => n,
            None => 0,
        },
        None => 0,
    }
}

fn flag_or_false(v: &Value, k: &str) -> (r: bool)
    ensures
        r == bool_field(v.model(), k@),
{
    match v.get(k) {
        Some(x) => match x.as_bool() {
            Some(b) => b,
            None => false,
        },
        None => false,
    }
}

fn fate_of_label(v: &Value) -> (f: Fate)
    ensures
        f == fate_named(str_field(v.model(), "fate"@)),
{
    proof {
        reveal_strlit("alive");
        reveal_strlit("cooling");
        reveal_strlit("cold");
        reveal_strlit("buried");
    }
    match v.get("fate") {
        Some(x) => match x.as_str() {
            Some(t) => {
                if crate::text::str_eq(t, "alive") {
                    Fate::Alive
                } else if crate::text::str_eq(t, "cooling") {
                    Fate::Cooling
                } else if crate::text::str_eq(t, "cold") {
                    Fate::Cold
                } else if crate::text::str_eq(t, "buried") {
                    Fate::Buried
                } else {
                    Fate::Dead
                }
            },
            None => Fate::Dead,
        },
        None => Fate::Dead,
    }
}

fn entry_of(e: &Value, now: Utc) -> (c: Corpse)
    ensures
        entry_from(c, e.model(), now),
{
    Corpse {
        name: text_or_empty(e, "name"),
        url: text_or_empty(e, "url"),
        days_idle: num_or_zero(e, "daysIdle") as u32,
        stars: num_or_zero(e, "stars") as u64,
        fate: fate_of_label(e),
        stillborn: flag_or_false(e, "stillborn"),
        created_at: now,
        last_activity: now,
    }
}

fn entries_of(arr: &Vec<Value>, now: Utc) -> (es: Vec<Corpse>)
    ensures
        es@.len() == objects_of(model_items(arr@)).len(),
        forall|i: int| 0 <= i < es@.len() ==> entry_from(#[trigger] es@[i], objects_of(model_items(arr@))[i], now),
{
    proof {
        lemma_model_items(arr@);
    }
    let ghost items = model_items(arr@);
    let mut es: Vec<Corpse> = Vec::new();
    let mut i: usize = 0;
    while i < arr.len()
        invariant
            items == model_items(arr@),
            items.len() == arr@.len(),
            forall|j: int| 0 <= j < arr@.len() ==> #[trigger] items[j] == arr@[j].model(),
            i <= arr@.len(),
            es@.len() == objects_of(items.take(i as int)).len(),
            forall|j: int| 0 <= j < es@.len() ==> entry_from(#[trigger] es@[j], objects_of(items.take(i as int))[j], now),
        decreases arr.len() - i,
    {
        let ghost before = objects_of(items.take(i as int));
        proof {
            let t = items.take(i + 1);
            assert(t.drop_last() =~= items.take(i as int));
            assert(t.last() == arr@[i as int].model());
        }
        if let Value::Object(_) = &arr[i] {
            let c = entry_of(&arr[i], now);
            let ghost es0 = es@;
            es.push(c);
            proof {
                assert(objects_of(items.take(i + 1)) == before.push(arr@[i as int].model()));
                assert forall|j: int| 0 <= j < es@.len() implies entry_from(#[trigger] es@[j], objects_of(items.take(i + 1))[j], now) by {
                    if j < before.len() {
                        assert(es@[j] == es0[j]);
                        assert(entry_from(es0[j], before[j], now));
                    }
                }
            }
        } else {
            proof {
                assert(objects_of(items.take(i + 1)) == before);
            }
        }
        i += 1;
    }
    proof {
        assert(items.take(arr@.len() as int) =~= items);
    }
    es
}


fn counts_of(v: &Value) -> (c: [u32; 5])
    ensures
        forall|i: int| 0 <= i < 5 ==> #[trigger] c@[i] == count_at(v.model(), i),
{
    let mut c: [u32; 5] = [0u32; 5];
    match v.get("counts") {
        Some(Value::Array(a)) => {
            proof {
                lemma_model_items(a@);
            }
            let mut i: usize = 0;
            while i < 5
                invariant
                    i <= 5,
                    c@.len() == 5,
                    jget(v.model(), "counts"@) == Some(JVal::Array(model_items(a@))),
                    model_items(a@).len() == a@.len(),
                    forall|j: int| 0 <= j < a@.len() ==> #[trigger] model_items(a@)[j] == a@[j].model(),
                    forall|j: int| 0 <= j < i ==> #[trigger] c@[j] == count_at(v.model(), j),
                    forall|j: int| i <= j < 5 ==> #[trigger] c@[j] == 0,
                decreases 5 - i,
            {
                if i < a.len() {
                    let n: i64 = match a[i].as_i64() {
                        Some(n) => n,
                        None => 0,
                    };
                    c.set(i, n as u32);
                } else {
                    c.set(i, 0);
                }
                i += 1;
            }
        },
        _ => {},
    }
    c
}

fn oldest_of(v: &Value) -> (r: Option<(String, u32)>)
    ensures
        match r {
            Some((n, d)) => oldest_from(v.model()) == Some((n@, d)),
            None => oldest_from(v.model()) is None,
        },
{
    match v.get("oldestCorpse") {
        Some(p) => match p {
            Value::Object(_) => {
                let days = num_or_zero(p, "daysIdle") as u32;
                match p.get("name") {
                    Some(x) => match x.as_str() {
                        Some(n) => Some((string_of(n), days)),
                        None => None,
                    },
                    None => None,
                }
            },
            _ => None,
        },
        None => None,
    }
}

/// The reading a JSON value describes, its entries dated `now`: `None`
/// unless it is an object.
pub fn value_to_reading_at(v: &Value, now: Utc) -> (r: Option<Reading>)
    ensures
        match v.model() {
            JVal::Object(_) => r matches Some(rd) && reading_from(rd, v.model(), now),
            _ => r is None,
        },
{
    if !(v matches Value::Object(_)) {
        return None;
    }
    proof {
        reveal_strlit("org");
    }
    let kind = match v.get("kind") {
        Some(x) => match x.as_str() {
            Some(t) => if crate::text::str_eq(t, "org") { SubjectKind::Org } else { SubjectKind::User },
            None => SubjectKind::User,
        },
        None => SubjectKind::User,
    };
    let entries = match v.get("entries") {
        Some(Value::Array(arr)) => entries_of(arr, now),
        _ => Vec::new(),
    };
    let days_since = match v.get("daysSinceAnyPush") {
        Some(x) => match x.as_i64() {
            Some(d) => Some(d as u32),
            None => None,
        },
        None => None,
    };
    let rd = Reading {
        subject: text_or_empty(v, "subject"),
        kind,
        index: num_or_zero(v, "index") as u8,
        title: text_or_empty(v, "title"),
        flavor: text_or_empty(v, "flavor"),
        counts: counts_of(v),
        total: num_or_zero(v, "total") as u32,
        stars_stranded: num_or_zero(v, "starsStranded") as u64,
        oldest_corpse: oldest_of(v),
        stillborn: num_or_zero(v, "stillborn") as u32,
        days_since_any_push: days_since,
        low_sample: flag_or_false(v, "lowSample"),
        entries,
    };
    assert(reading_from(rd, v.model(), now));
    Some(rd)
}

/// The reading a JSON value describes, its entries dated now: `None`
/// unless it is an object.
pub fn value_to_reading(v: &Value) -> (r: Option<Reading>)
    ensures
        match v.model() {
            JVal::Object(_) => r matches Some(rd) && exists|now: Utc| now.0 >= 0 && reading_from(rd, v.model(), now),
            _ => r is None,
        },
{
    value_to_reading_at(v, Utc::now())
}

/// The reading in the JSON text `s`, its entries dated `now`, if the text
/// parses to an object.
pub fn deserialize_reading_at(s: &str, now: Utc) -> (r: Option<Reading>)
    ensures
        match crate::json::parser::document(s@) {
            crate::json::parser::Parsed::Done(JVal::Object(o), _) => r matches Some(rd)
                && reading_from(rd, JVal::Object(o), now),
            _ => r is None,
        },
{
    match crate::json::parse(s) {
        Ok(v) => value_to_reading_at(&v, now),
        Err(_) => None,
    }
}

/// The reading in the JSON text `s`, its entries dated now, if the text
/// parses to an object.
pub fn deserialize_reading(s: &str) -> (r: Option<Reading>)
    ensures
        match crate::json::parser::document(s@) {
            crate::json::parser::Parsed::Done(JVal::Object(o), _) => r matches Some(rd)
                && exists|now: Utc| now.0 >= 0 && reading_from(rd, JVal::Object(o), now),
            _ => r is None,
        },
{
    deserialize_reading_at(s, Utc::now())
}


/// The fields of two readings agree, the entries' dates aside.
pub open spec fn same_reading(a: Reading, b: Reading) -> bool {
    &&& a.subject@ == b.subject@
    &&& a.kind == b.kind
    &&& a.index == b.index
    &&& a.title@ == b.title@
    &&& a.flavor@ == b.flavor@
    &&& a.counts@ == b.counts@
    &&& a.total == b.total
    &&& a.stars_stranded == b.stars_stranded
    &&& match (a.oldest_corpse, b.oldest_corpse) {
        (Some((n, d)), Some((m, e))) => n@ == m@ && d == e,
        (None, None) => true,
        _ => false,
    }
    &&& a.stillborn == b.stillborn
    &&& a.days_since_any_push == b.days_since_any_push
    &&& a.low_sample == b.low_sample
    &&& a.entries@.len() == b.entries@.len()
    &&& forall|i: int| 0 <= i < a.entries@.len() ==> same_entry(#[trigger] a.entries@[i], b.entries@[i])
}

/// Two entries agree but for their dates.
pub open spec fn same_entry(a: Corpse, b: Corpse) -> bool {
    &&& a.name@ == b.name@
    &&& a.url@ == b.url@
    &&& a.days_idle == b.days_idle
    &&& a.stars == b.stars
    &&& a.fate == b.fate
    &&& a.stillborn == b.stillborn
}

proof fn lemma_first_match_from(ps: Seq<(Seq<char>, JVal)>, k: Seq<char>, from: int, i: int)
    requires
        0 <= from <= i < ps.len(),
        ps[i].0 == k,
        forall|j: int| from <= j < i ==> ps[j].0 != k,
    ensures
        crate::json::value::first_match(ps, k, from) == Some(ps[i].1),
    decreases i - from,
{
    if from < i {
        lemma_first_match_from(ps, k, from + 1, i);
    }
}

/// The value under the key of member `i` of an object whose earlier keys
/// differ from it.
proof fn lemma_member(ps: Seq<(Seq<char>, JVal)>, i: int)
    requires
        0 <= i < ps.len(),
        forall|j: int| 0 <= j < i ==> ps[j].0 != ps[i].0,
    ensures
        jget(JVal::Object(ps), ps[i].0) == Some(ps[i].1),
{
    lemma_first_match_from(ps, ps[i].0, 0, i);
}

proof fn lemma_fate_back(f: Fate)
    ensures
        fate_named(Some(fate_label(f))) == f,
{
    reveal_strlit("alive");
    reveal_strlit("cooling");
    reveal_strlit("cold");
    reveal_strlit("dead");
    reveal_strlit("buried");
    assert(("alive"@).len() == 5 && ("cooling"@).len() == 7 && ("cold"@).len() == 4);
    assert(("dead"@).len() == 4 && ("buried"@).len() == 6);
    assert(("cold"@)[0] != ("dead"@)[0]);
}

proof fn lemma_objects_all(items: Seq<JVal>)
    requires
        forall|i: int| 0 <= i < items.len() ==> (#[trigger] items[i]) is Object,
    ensures
        objects_of(items) == items,
    decreases items.len(),
{
    if items.len() > 0 {
        lemma_objects_all(items.drop_last());
        assert(items.drop_last().push(items.last()) =~= items);
    }
}

proof fn lemma_entry_back(c: Corpse, e: Corpse, now: Utc)
    requires
        entry_from(e, entry_json(c), now),
    ensures
        same_entry(e, c),
{
    reveal_strlit("name");
    reveal_strlit("url");
    reveal_strlit("daysIdle");
    reveal_strlit("stars");
    reveal_strlit("fate");
    reveal_strlit("stillborn");
    reveal_strlit("alive");
    reveal_strlit("cooling");
    reveal_strlit("cold");
    reveal_strlit("dead");
    reveal_strlit("buried");
    let x = c.stars;
    assert(((x as i64) as int) as u64 == x) by (bit_vector);
    let v = entry_json(c);
    let ps = match v { JVal::Object(o) => o, _ => Seq::empty() };
    assert(ps[0].0 == "name"@);
    assert(("name"@).len() == 4);
    assert(ps[1].0 == "url"@);
    assert(("url"@).len() == 3);
    assert(ps[2].0 == "daysIdle"@);
    assert(("daysIdle"@).len() == 8);
    assert(ps[3].0 == "stars"@);
    assert(("stars"@).len() == 5);
    assert(ps[4].0 == "fate"@);
    assert(("fate"@).len() == 4);
    assert(ps[5].0 == "stillborn"@);
    assert(("stillborn"@).len() == 9);
    assert(("name"@)[0] != ("fate"@)[0]);
    lemma_member(ps, 0);
    lemma_member(ps, 1);
    lemma_member(ps, 2);
    lemma_member(ps, 3);
    lemma_member(ps, 4);
    lemma_member(ps, 5);
    assert(e.name@ == c.name@);
    assert(e.url@ == c.url@);
    assert(e.days_idle == c.days_idle);
    assert(num_field(v, "stars"@) == (x as i64) as int);
    assert(e.stars == c.stars);
    assert(e.stillborn == c.stillborn);
    assert(str_field(v, "fate"@) == Some(fate_label(c.fate)));
    lemma_fate_back(c.fate);
    assert(e.fate == c.fate);
}

/// A reading read back from its own JSON is the same reading, but for
/// its entries' dates, which become the time of reading.
pub proof fn law_reading_json_roundtrip(r: Reading, rd: Reading, now: Utc)
    requires
        reading_from(rd, reading_json(r), now),
    ensures
        same_reading(rd, r),
{
    reveal_strlit("subject");
    reveal_strlit("kind");
    reveal_strlit("index");
    reveal_strlit("title");
    reveal_strlit("flavor");
    reveal_strlit("counts");
    reveal_strlit("total");
    reveal_strlit("starsStranded");
    reveal_strlit("oldestCorpse");
    reveal_strlit("stillborn");
    reveal_strlit("daysSinceAnyPush");
    reveal_strlit("lowSample");
    reveal_strlit("entries");
    reveal_strlit("name");
    reveal_strlit("daysIdle");
    reveal_strlit("org");
    reveal_strlit("u");
    let v = reading_json(r);
    let ps = match v { JVal::Object(o) => o, _ => Seq::empty() };
    assert(ps[0].0 == "subject"@);
    assert(("subject"@).len() == 7);
    assert(ps[1].0 == "kind"@);
    assert(("kind"@).len() == 4);
    assert(ps[2].0 == "index"@);
    assert(("index"@).len() == 5);
    assert(ps[3].0 == "title"@);
    assert(("title"@).len() == 5);
    assert(ps[4].0 == "flavor"@);
    assert(("flavor"@).len() == 6);
    assert(ps[5].0 == "counts"@);
    assert(("counts"@).len() == 6);
    assert(ps[6].0 == "total"@);
    assert(("total"@).len() == 5);
    assert(ps[7].0 == "starsStranded"@);
    assert(("starsStranded"@).len() == 13);
    assert(ps[8].0 == "oldestCorpse"@);
    assert(("oldestCorpse"@).len() == 12);
    assert(ps[9].0 == "stillborn"@);
    assert(("stillborn"@).len() == 9);
    assert(ps[10].0 == "daysSinceAnyPush"@);
    assert(("daysSinceAnyPush"@).len() == 16);
    assert(ps[11].0 == "lowSample"@);
    assert(("lowSample"@).len() == 9);
    assert(ps[12].0 == "entries"@);
    assert(("entries"@).len() == 7);
    assert(("subject"@)[0] != ("entries"@)[0]);
    assert(("index"@)[0] != ("title"@)[0]);
    assert(("index"@)[0] != ("total"@)[0]);
    assert(("title"@)[1] != ("total"@)[1]);
    assert(("flavor"@)[0] != ("counts"@)[0]);
    assert(("stillborn"@)[0] != ("lowSample"@)[0]);
    lemma_member(ps, 0);
    lemma_member(ps, 1);
    lemma_member(ps, 2);
    lemma_member(ps, 3);
    lemma_member(ps, 4);
    lemma_member(ps, 5);
    lemma_member(ps, 6);
    lemma_member(ps, 7);
    lemma_member(ps, 8);
    lemma_member(ps, 9);
    lemma_member(ps, 10);
    lemma_member(ps, 11);
    lemma_member(ps, 12);
    match r.oldest_corpse {
        Some((n, d)) => {
            let os = seq![("name"@, JVal::Str(n@)), ("daysIdle"@, JVal::Num(d as int))];
            assert(("name"@).len() == 4 && ("daysIdle"@).len() == 8);
            lemma_member(os, 0);
            lemma_member(os, 1);
        },
        None => {},
    }
    let x = r.stars_stranded;
    assert(((x as i64) as int) as u64 == x) by (bit_vector);
    assert(rd.counts@ =~= r.counts@) by {
        let cj = counts_json(r.counts@);
        assert(jget(v, "counts"@) == Some(JVal::Array(cj)));
        assert forall|i: int| 0 <= i < 5 implies rd.counts@[i] == r.counts@[i] by {
            assert(cj[i] == JVal::Num(r.counts@[i] as int));
            assert(count_at(v, i) == rd.counts@[i]);
        }
    }
    assert(rd.subject@ == r.subject@);
    assert(("org"@).len() == 3 && ("u"@).len() == 1);
    assert(rd.kind == r.kind);
    assert(rd.index == r.index);
    assert(rd.total == r.total);
    assert(rd.stars_stranded == r.stars_stranded);
    assert(rd.stillborn == r.stillborn);
    assert(rd.days_since_any_push == r.days_since_any_push);
    assert(rd.low_sample == r.low_sample);
    let es = entries_json(r.entries@);
    assert forall|i: int| 0 <= i < es.len() implies (#[trigger] es[i]) is Object by {}
    lemma_objects_all(es);
    assert(jget(v, "entries"@) == Some(JVal::Array(es)));
    assert(entry_objects(v) == es);
    assert forall|i: int| 0 <= i < rd.entries@.len() implies same_entry(#[trigger] rd.entries@[i], r.entries@[i]) by {
        assert(entry_from(rd.entries@[i], es[i], now));
        lemma_entry_back(r.entries@[i], rd.entries@[i], now);
    }
}


proof fn lemma_entry_in_range(c: Corpse)
    ensures
        in_range(entry_json(c)),
{
    let ps = match entry_json(c) { JVal::Object(o) => o, _ => Seq::empty() };
    lemma_members_in_range(ps);
    assert forall|i: int| 0 <= i < ps.len() implies #[trigger] in_range(ps[i].1) by {}
}

proof fn lemma_reading_in_range(r: Reading)
    ensures
        in_range(reading_json(r)),
{
    let ps = match reading_json(r) { JVal::Object(o) => o, _ => Seq::empty() };
    let cj = counts_json(r.counts@);
    lemma_all_in_range(cj);
    assert forall|i: int| 0 <= i < cj.len() implies #[trigger] in_range(cj[i]) by {}
    let es = entries_json(r.entries@);
    lemma_all_in_range(es);
    assert forall|i: int| 0 <= i < es.len() implies #[trigger] in_range(es[i]) by {
        lemma_entry_in_range(r.entries@[i]);
    }
    match r.oldest_corpse {
        Some((n, d)) => {
            let os = seq![("name"@, JVal::Str(n@)), ("daysIdle"@, JVal::Num(d as int))];
            lemma_members_in_range(os);
        },
        None => {},
    }
    lemma_members_in_range(ps);
    assert forall|i: int| 0 <= i < ps.len() implies #[trigger] in_range(ps[i].1) by {}
}

/// The JSON text of a reading parses back to exactly its JSON value, so
/// `deserialize_reading` of `serialize_reading(r)` reads the reading
/// described by it.
pub proof fn law_reading_text_parses(r: Reading)
    ensures
        document(json_text(reading_json(r))) == Parsed::Done(reading_json(r), json_text(reading_json(r)).len() as int),
{
    lemma_reading_in_range(r);
    lemma_parse_serialize(reading_json(r));
}

} // verus!
