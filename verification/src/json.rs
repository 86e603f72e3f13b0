use vstd::prelude::*;

use crate::text::str_eq;

verus! {

/// A JSON document; numbers are kept as their text.
#[derive(Debug, PartialEq)]
pub enum JsonValue {
    Null,
    Bool(bool),
    Number(String),
    Str(String),
    Array(Vec<JsonValue>),
    Object(Vec<(String, JsonValue)>),
}

/// Mathematical model of a JSON document: an object is its list of entries.
pub enum JsonView {
    Null,
    Bool(bool),
    Number(Seq<char>),
    Str(Seq<char>),
    Array(Seq<JsonView>),
    Object(Seq<(Seq<char>, JsonView)>),
}

pub open spec fn json_view(v: &JsonValue) -> JsonView
    decreases v,
{
    match v {
        JsonValue::Null => JsonView::Null,
        JsonValue::Bool(b) => JsonView::Bool(*b),
        JsonValue::Number(s) => JsonView::Number(s@),
        JsonValue::Str(s) => JsonView::Str(s@),
        JsonValue::Array(a) => JsonView::Array(
            Seq::new(
                a@.len(),
                |i: int|
                    if 0 <= i < a@.len() {
                        json_view(&a@[i])
                    } else {
                        JsonView::Null
                    },
            ),
        ),
        JsonValue::Object(o) => JsonView::Object(
            Seq::new(
                o@.len(),
                |i: int|
                    if 0 <= i < o@.len() {
                        (o@[i].0@, json_view(&o@[i].1))
                    } else {
                        (Seq::empty(), JsonView::Null)
                    },
            ),
        ),
    }
}

/// Model of the entries of an object.
pub open spec fn entries_view(o: Seq<(String, JsonValue)>) -> Seq<(Seq<char>, JsonView)> {
    Seq::new(o.len(), |i: int| (o[i].0@, json_view(&o[i].1)))
}

/// Model of the items of an array.
pub open spec fn items_view(a: Seq<JsonValue>) -> Seq<JsonView> {
    Seq::new(a.len(), |i: int| json_view(&a[i]))
}

pub proof fn lemma_json_view_unfold(v: &JsonValue)
    ensures
        v matches JsonValue::Object(o) ==> json_view(v) == JsonView::Object(entries_view(o@)),
        v matches JsonValue::Array(a) ==> json_view(v) == JsonView::Array(items_view(a@)),
{
    match v {
        JsonValue::Object(o) => {
            if let JsonView::Object(e) = json_view(v) {
                assert(e =~= entries_view(o@));
            }
        },
        JsonValue::Array(a) => {
            if let JsonView::Array(e) = json_view(v) {
                assert(e =~= items_view(a@));
            }
        },
        _ => {},
    }
}

impl View for JsonValue {
    type V = JsonView;

    open spec fn view(&self) -> JsonView {
        json_view(self)
    }
}

/// Value of the first entry with key `k`.
pub open spec fn jget(o: Seq<(Seq<char>, JsonView)>, k: Seq<char>) -> Option<JsonView>
    decreases o.len(),
{
    if o.len() == 0 {
        None
    } else if o[0].0 == k {
        Some(o[0].1)
    } else {
        jget(o.drop_first(), k)
    }
}

/// The entries without key `k` (`Map::remove`).
pub open spec fn jremove(o: Seq<(Seq<char>, JsonView)>, k: Seq<char>) -> Seq<(Seq<char>, JsonView)>
    decreases o.len(),
{
    if o.len() == 0 {
        Seq::empty()
    } else {
        (if o[0].0 == k {
            Seq::empty()
        } else {
            seq![o[0]]
        }) + jremove(o.drop_first(), k)
    }
}

/// The entries with the value of the first entry with key `k` replaced by
/// `v`, or `(k, v)` appended when there is none (`Map::insert`).
pub open spec fn jinsert(o: Seq<(Seq<char>, JsonView)>, k: Seq<char>, v: JsonView) -> Seq<(Seq<char>, JsonView)>
    decreases o.len(),
{
    if o.len() == 0 {
        seq![(k, v)]
    } else if o[0].0 == k {
        seq![(k, v)] + o.drop_first()
    } else {
        seq![o[0]] + jinsert(o.drop_first(), k, v)
    }
}

pub(crate) proof fn lemma_entries_drop_first(o: Seq<(String, JsonValue)>)
    requires
        o.len() > 0,
    ensures
        entries_view(o).drop_first() == entries_view(o.drop_first()),
        entries_view(o)[0] == (o[0].0@, json_view(&o[0].1)),
{
    assert(entries_view(o).drop_first() =~= entries_view(o.drop_first()));
}

/// Position of the first entry with key `key`.
pub(crate) fn find_key(o: &Vec<(String, JsonValue)>, key: &str) -> (r: Option<usize>)
    ensures
        match jget(entries_view(o@), key@) {
            Some(v) => r matches Some(i) && i < o@.len() && o@[i as int].0@ == key@ && json_view(&o@[i as int].1) == v
                && forall|j: int| 0 <= j < i ==> o@[j].0@ != key@,
            None => r is None && forall|j: int| 0 <= j < o@.len() ==> o@[j].0@ != key@,
        },
{
    let ghost all = entries_view(o@);
    assert(all.skip(0) =~= all);
    let mut i: usize = 0;
    while i < o.len()
        invariant
            i <= o@.len(),
            all == entries_view(o@),
            jget(all, key@) == jget(all.skip(i as int), key@),
            forall|j: int| 0 <= j < i ==> o@[j].0@ != key@,
        decreases o@.len() - i,
    {
        assert(all.skip(i as int)[0] == all[i as int]);
        if str_eq(o[i].0.as_str(), key) {
            return Some(i);
        }
        assert(all.skip(i as int).drop_first() =~= all.skip(i + 1));
        i += 1;
    }
    assert(all.skip(i as int).len() == 0);
    None
}

/// Field `key` of an object (none for other values).
pub fn get_field<'a>(v: &'a JsonValue, key: &str) -> (r: Option<&'a JsonValue>)
    ensures
        match v@ {
            JsonView::Object(e) => match jget(e, key@) {
                Some(x) => r matches Some(f) && f@ == x,
                None => r is None,
            },
            _ => r is None,
        },
{
    proof {
        lemma_json_view_unfold(v);
    }
    match v {
        JsonValue::Object(o) => match find_key(o, key) {
            Some(i) => Some(&o[i].1),
            None => None,
        },
        _ => None,
    }
}

/// The boolean a value holds (`Value::as_bool`).
pub open spec fn view_bool(v: Option<JsonView>) -> Option<bool> {
    match v {
        Some(JsonView::Bool(b)) => Some(b),
        _ => None,
    }
}

/// The text a value holds (`Value::as_str`).
pub open spec fn view_str(v: Option<JsonView>) -> Option<Seq<char>> {
    match v {
        Some(JsonView::Str(s)) => Some(s),
        _ => None,
    }
}

/// The field of an object value, none for other values.
pub open spec fn view_field(v: JsonView, key: Seq<char>) -> Option<JsonView> {
    match v {
        JsonView::Object(e) => jget(e, key),
        _ => None,
    }
}

/// The boolean held by an optional value.
pub fn as_bool(v: Option<&JsonValue>) -> (r: Option<bool>)
    ensures
        r == view_bool(
            match v {
                Some(x) => Some(x@),
                None => None,
            },
        ),
{
    match v {
        Some(JsonValue::Bool(b)) => Some(*b),
        _ => None,
    }
}

/// The text held by an optional value.
pub fn as_str(v: Option<&JsonValue>) -> (r: Option<&String>)
    ensures
        match view_str(
            match v {
                Some(x) => Some(x@),
                None => None,
            },
        ) {
            Some(s) => r matches Some(t) && t@ == s,
            None => r is None,
        },
{
    match v {
        Some(JsonValue::Str(s)) => Some(s),
        _ => None,
    }
}

/// Removes the entries with key `key` from an object's entries.
pub fn obj_remove(o: Vec<(String, JsonValue)>, key: &str) -> (r: Vec<(String, JsonValue)>)
    ensures
        entries_view(r@) == jremove(entries_view(o@), key@),
{
    let ghost all = entries_view(o@);
    let mut rest = o;
    let mut out: Vec<(String, JsonValue)> = Vec::new();
    assert(entries_view(out@) + jremove(entries_view(rest@), key@) =~= jremove(all, key@));
    while rest.len() > 0
        invariant
            entries_view(out@) + jremove(entries_view(rest@), key@) == jremove(all, key@),
        decreases rest@.len(),
    {
        let ghost before = rest@;
        let e = rest.remove(0);
        proof {
            lemma_entries_drop_first(before);
            assert(rest@ == before.drop_first());
        }
        if !str_eq(e.0.as_str(), key) {
            let ghost prev = out@;
            out.push(e);
            assert(entries_view(out@) =~= entries_view(prev) + seq![entries_view(before)[0]]);
        }
        assert(entries_view(out@) + jremove(entries_view(rest@), key@) =~= jremove(all, key@));
    }
    assert(entries_view(out@) + Seq::<(Seq<char>, JsonView)>::empty() =~= entries_view(out@));
    out
}

/// Inserts `(key, value)` into an object's entries, replacing the value of an
/// entry with that key.
pub fn obj_insert(o: Vec<(String, JsonValue)>, key: String, value: JsonValue) -> (r: Vec<(String, JsonValue)>)
    ensures
        entries_view(r@) == jinsert(entries_view(o@), key@, value@),
{
    let mut o = o;
    match find_key(&o, key.as_str()) {
        Some(i) => {
            let ghost before = o@;
            let _old = o.remove(i);
            o.insert(i, (key, value));
            proof {
                lemma_jinsert_at(entries_view(before), i as int, key@, value@);
                assert(entries_view(o@) =~= entries_view(before).update(i as int, (key@, value@)));
            }
            o
        },
        None => {
            let ghost before = o@;
            proof {
                lemma_jinsert_absent(entries_view(before), key@, value@);
            }
            o.push((key, value));
            assert(entries_view(o@) =~= entries_view(before).push((key@, value@)));
            o
        },
    }
}

pub(crate) proof fn lemma_jinsert_at(e: Seq<(Seq<char>, JsonView)>, i: int, k: Seq<char>, v: JsonView)
    requires
        0 <= i < e.len(),
        e[i].0 == k,
        forall|j: int| 0 <= j < i ==> e[j].0 != k,
    ensures
        jinsert(e, k, v) == e.update(i, (k, v)),
    decreases i,
{
    if i == 0 {
        assert(seq![(k, v)] + e.drop_first() =~= e.update(0, (k, v)));
    } else {
        lemma_jinsert_at(e.drop_first(), i - 1, k, v);
        assert(seq![e[0]] + e.drop_first().update(i - 1, (k, v)) =~= e.update(i, (k, v)));
    }
}

proof fn lemma_jinsert_absent(e: Seq<(Seq<char>, JsonView)>, k: Seq<char>, v: JsonView)
    requires
        forall|j: int| 0 <= j < e.len() ==> e[j].0 != k,
    ensures
        jinsert(e, k, v) == e.push((k, v)),
    decreases e.len(),
{
    if e.len() > 0 {
        lemma_jinsert_absent(e.drop_first(), k, v);
        assert(seq![e[0]] + e.drop_first().push((k, v)) =~= e.push((k, v)));
    } else {
        assert(seq![(k, v)] =~= e.push((k, v)));
    }
}


/// A copy of a document (`Value::clone`).
pub fn json_clone(v: &JsonValue) -> (r: JsonValue)
    ensures
        r@ == v@,
    decreases v,
{
    proof {
        lemma_json_view_unfold(v);
    }
    match v {
        JsonValue::Null => JsonValue::Null,
        JsonValue::Bool(b) => JsonValue::Bool(*b),
        JsonValue::Number(s) => JsonValue::Number(s.clone()),
        JsonValue::Str(s) => JsonValue::Str(s.clone()),
        JsonValue::Array(a) => {
            let mut out: Vec<JsonValue> = Vec::new();
            let mut i: usize = 0;
            while i < a.len()
                invariant
                    i <= a@.len(),
                    *v == JsonValue::Array(*a),
                    items_view(out@) == items_view(a@).take(i as int),
                decreases a@.len() - i,
            {
                proof {
                    assert(decreases_to!(*v => v->Array_0));
                    assert(decreases_to!(*a => a@));
                    assert(decreases_to!(a@ => a@[i as int]));
                    assert(decreases_to!(*v => a@[i as int]));
                }
                let item = json_clone(&a[i]);
                let ghost prev = out@;
                out.push(item);
                assert(items_view(out@) =~= items_view(a@).take(i + 1)) by {
                    assert(items_view(out@) =~= items_view(prev).push(item@));
                }
                i += 1;
            }
            assert(items_view(a@).take(i as int) =~= items_view(a@));
            let r = JsonValue::Array(out);
            proof {
                lemma_json_view_unfold(&r);
            }
            r
        },
        JsonValue::Object(o) => {
            let mut out: Vec<(String, JsonValue)> = Vec::new();
            let mut i: usize = 0;
            while i < o.len()
                invariant
                    i <= o@.len(),
                    *v == JsonValue::Object(*o),
                    entries_view(out@) == entries_view(o@).take(i as int),
                decreases o@.len() - i,
            {
                proof {
                    assert(decreases_to!(*v => v->Object_0));
                    assert(decreases_to!(*o => o@));
                    assert(decreases_to!(o@ => o@[i as int]));
                    assert(decreases_to!(o@[i as int] => o@[i as int].1));
                    assert(decreases_to!(*v => o@[i as int].1));
                }
                let item = json_clone(&o[i].1);
                let key = o[i].0.clone();
                let ghost prev = out@;
                out.push((key, item));
                assert(entries_view(out@) =~= entries_view(o@).take(i + 1)) by {
                    assert(entries_view(out@) =~= entries_view(prev).push((key@, item@)));
                }
                i += 1;
            }
            assert(entries_view(o@).take(i as int) =~= entries_view(o@));
            let r = JsonValue::Object(out);
            proof {
                lemma_json_view_unfold(&r);
            }
            r
        },
    }
}

} // verus!
