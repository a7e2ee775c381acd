use vstd::prelude::*;

verus! {

/// Position of a value or statement in the script text.
#[derive(Clone, Copy, Debug, PartialEq, Eq, Structural)]
pub struct Interval {
    pub line: u32,
    pub column: u32,
}

/// The JSON-like value that messages carry and that component schemas are
/// written in. Numbers are integers, or the exact quotient `num / den` of
/// two integers (`den` not zero, of either sign) where a computation left
/// the integers.
#[derive(Debug, PartialEq)]
pub enum JsonValue {
    Null,
    Bool(bool),
    Number(i64),
    Quotient(i64, i64),
    String(String),
    Array(Vec<JsonValue>),
    Object(Vec<(String, JsonValue)>),
}

/// The mathematical value of a [`JsonValue`].
pub enum Json {
    Null,
    Bool(bool),
    Number(int),
    Quotient(int, int),
    Str(Seq<char>),
    Array(Seq<Json>),
    Object(Seq<(Seq<char>, Json)>),
}

pub open spec fn json_view(v: JsonValue) -> Json
    decreases v,
{
    match v {
        JsonValue::Null => Json::Null,
        JsonValue::Bool(b) => Json::Bool(b),
        JsonValue::Number(n) => Json::Number(n as int),
        JsonValue::Quotient(n, d) => Json::Quotient(n as int, d as int),
        JsonValue::String(s) => Json::Str(s@),
        JsonValue::Array(items) => Json::Array(json_seq_view(items@)),
        JsonValue::Object(entries) => Json::Object(entries_view(entries@)),
    }
}

pub open spec fn json_seq_view(s: Seq<JsonValue>) -> Seq<Json>
    decreases s,
{
    if s.len() == 0 {
        Seq::empty()
    } else {
        seq![json_view(s[0])] + json_seq_view(s.subrange(1, s.len() as int))
    }
}

pub open spec fn entries_view(s: Seq<(String, JsonValue)>) -> Seq<(Seq<char>, Json)>
    decreases s,
{
    if s.len() == 0 {
        Seq::empty()
    } else {
        seq![(s[0].0@, json_view(s[0].1))] + entries_view(s.subrange(1, s.len() as int))
    }
}

impl View for JsonValue {
    type V = Json;

    open spec fn view(&self) -> Json {
        json_view(*self)
    }
}

/// The value bound to `k` in an object: the first entry with that key.
pub open spec fn obj_lookup(m: Seq<(Seq<char>, Json)>, k: Seq<char>) -> Option<Json>
    decreases m.len(),
{
    if m.len() == 0 {
        None
    } else if m[0].0 == k {
        Some(m[0].1)
    } else {
        obj_lookup(m.drop_first(), k)
    }
}

/// Binds `k` to `v`: the first entry with key `k` takes the new value in its
/// place, or a new entry is added at the end.
pub open spec fn obj_insert(m: Seq<(Seq<char>, Json)>, k: Seq<char>, v: Json) -> Seq<(Seq<char>, Json)>
    decreases m.len(),
{
    if m.len() == 0 {
        seq![(k, v)]
    } else if m[0].0 == k {
        m.update(0, (k, v))
    } else {
        seq![m[0]] + obj_insert(m.drop_first(), k, v)
    }
}

/// Shallow merge of two objects: the entries of `b` are bound in order, so
/// that for a key in both the value of `b` wins.
pub open spec fn obj_merge(a: Seq<(Seq<char>, Json)>, b: Seq<(Seq<char>, Json)>) -> Seq<(Seq<char>, Json)>
    decreases b.len(),
{
    if b.len() == 0 {
        a
    } else {
        obj_merge(obj_insert(a, b[0].0, b[0].1), b.drop_first())
    }
}

pub(crate) proof fn lemma_seq_view_push(s: Seq<JsonValue>, x: JsonValue)
    ensures
        json_seq_view(s.push(x)) == json_seq_view(s).push(json_view(x)),
    decreases s.len(),
{
    if s.len() == 0 {
        assert(s.push(x).subrange(1, 1) =~= Seq::<JsonValue>::empty());
        reveal_with_fuel(json_seq_view, 2);
        assert(json_seq_view(s.push(x)) =~= seq![json_view(x)]);
    } else {
        assert(s.push(x).subrange(1, s.len() as int + 1) =~= s.subrange(1, s.len() as int).push(x));
        lemma_seq_view_push(s.subrange(1, s.len() as int), x);
        assert(json_seq_view(s.push(x)) =~= json_seq_view(s).push(json_view(x)));
    }
}

pub(crate) proof fn lemma_entries_view_push(s: Seq<(String, JsonValue)>, x: (String, JsonValue))
    ensures
        entries_view(s.push(x)) == entries_view(s).push((x.0@, json_view(x.1))),
    decreases s.len(),
{
    if s.len() == 0 {
        assert(s.push(x).subrange(1, 1) =~= Seq::<(String, JsonValue)>::empty());
        reveal_with_fuel(entries_view, 2);
        assert(entries_view(s.push(x)) =~= seq![(x.0@, json_view(x.1))]);
    } else {
        assert(s.push(x).subrange(1, s.len() as int + 1) =~= s.subrange(1, s.len() as int).push(x));
        lemma_entries_view_push(s.subrange(1, s.len() as int), x);
        assert(entries_view(s.push(x)) =~= entries_view(s).push((x.0@, json_view(x.1))));
    }
}

impl JsonValue {
    /// A copy with the same value.
    pub fn copy(&self) -> (r: JsonValue)
        ensures
            r@ == self@,
        decreases self,
    {
        match self {
            JsonValue::Null => JsonValue::Null,
            JsonValue::Bool(b) => JsonValue::Bool(*b),
            JsonValue::Number(n) => JsonValue::Number(*n),
            JsonValue::Quotient(n, d) => JsonValue::Quotient(*n, *d),
            JsonValue::String(s) => JsonValue::String(s.clone()),
            JsonValue::Array(items) => JsonValue::Array(copy_items(items)),
            JsonValue::Object(entries) => JsonValue::Object(copy_entries(entries)),
        }
    }
}

/// A copy of an array's items.
pub fn copy_items(items: &Vec<JsonValue>) -> (r: Vec<JsonValue>)
    ensures
        json_seq_view(r@) == json_seq_view(items@),
    decreases items,
{
    let mut out: Vec<JsonValue> = Vec::new();
    let mut i: usize = 0;
    while i < items.len()
        invariant
            i <= items@.len(),
            json_seq_view(out@) == json_seq_view(items@.subrange(0, i as int)),
        decreases items@.len() - i,
    {
        proof {
            assert(decreases_to!(*items => items@));
            assert(decreases_to!(items@ => items@[i as int]));
        }
        let v = items[i].copy();
        proof {
            lemma_seq_view_push(out@, v);
            lemma_seq_view_push(items@.subrange(0, i as int), items@[i as int]);
            assert(items@.subrange(0, i as int).push(items@[i as int]) =~= items@.subrange(0, i + 1));
        }
        out.push(v);
        i += 1;
    }
    assert(items@.subrange(0, i as int) =~= items@);
    out
}

/// A copy of an object's entries.
pub fn copy_entries(entries: &Vec<(String, JsonValue)>) -> (r: Vec<(String, JsonValue)>)
    ensures
        entries_view(r@) == entries_view(entries@),
    decreases entries,
{
    let mut out: Vec<(String, JsonValue)> = Vec::new();
    let mut i: usize = 0;
    while i < entries.len()
        invariant
            i <= entries@.len(),
            entries_view(out@) == entries_view(entries@.subrange(0, i as int)),
        decreases entries@.len() - i,
    {
        proof {
            assert(decreases_to!(*entries => entries@));
            assert(decreases_to!(entries@ => entries@[i as int]));
            assert(decreases_to!(entries@[i as int] => entries@[i as int].1));
        }
        let v = entries[i].1.copy();
        let e = (entries[i].0.clone(), v);
        proof {
            lemma_entries_view_push(out@, e);
            lemma_entries_view_push(entries@.subrange(0, i as int), entries@[i as int]);
            assert(entries@.subrange(0, i as int).push(entries@[i as int]) =~= entries@.subrange(0, i + 1));
        }
        out.push(e);
        i += 1;
    }
    assert(entries@.subrange(0, i as int) =~= entries@);
    out
}

} // verus!

verus! {

/// Whether two texts are the same.
pub fn text_eq(a: &str, b: &str) -> (r: bool)
    ensures
        r == (a@ == b@),
{
    let x = a.to_owned();
    let y = b.to_owned();
    x == y
}

} // verus!

verus! {

pub proof fn lemma_entries_view_index(s: Seq<(String, JsonValue)>)
    ensures
        entries_view(s).len() == s.len(),
        forall|i: int| 0 <= i < s.len() ==> #[trigger] entries_view(s)[i] == (s[i].0@, json_view(s[i].1)),
    decreases s.len(),
{
    if s.len() > 0 {
        let t = s.subrange(1, s.len() as int);
        lemma_entries_view_index(t);
        assert forall|i: int| 0 <= i < s.len() implies #[trigger] entries_view(s)[i] == (s[i].0@, json_view(s[i].1)) by {
            if i > 0 {
                assert(t[i - 1] == s[i]);
            }
        }
    }
}

pub proof fn lemma_obj_lookup_index(m: Seq<(Seq<char>, Json)>, k: Seq<char>, i: int)
    requires
        0 <= i <= m.len(),
        forall|j: int| 0 <= j < i ==> #[trigger] m[j].0 != k,
    ensures
        obj_lookup(m, k) == obj_lookup(m.subrange(i, m.len() as int), k),
    decreases i,
{
    if i > 0 {
        assert(m.drop_first().subrange(i - 1, m.drop_first().len() as int) =~= m.subrange(i, m.len() as int));
        assert forall|j: int| 0 <= j < i - 1 implies #[trigger] m.drop_first()[j].0 != k by {
            assert(m.drop_first()[j] == m[j + 1]);
        }
        lemma_obj_lookup_index(m.drop_first(), k, i - 1);
    } else {
        assert(m.subrange(0, m.len() as int) =~= m);
    }
}

/// The value bound to `key` in an object's entries.
pub fn json_get<'a>(entries: &'a Vec<(String, JsonValue)>, key: &str) -> (r: Option<&'a JsonValue>)
    ensures
        match r {
            Some(v) => obj_lookup(entries_view(entries@), key@) == Some(v@),
            None => obj_lookup(entries_view(entries@), key@) is None,
        },
{
    proof { lemma_entries_view_index(entries@); }
    let ghost m = entries_view(entries@);
    let mut i: usize = 0;
    while i < entries.len()
        invariant
            i <= entries@.len(),
            m == entries_view(entries@),
            m.len() == entries@.len(),
            forall|j: int| 0 <= j < i ==> #[trigger] m[j].0 != key@,
            forall|j: int| 0 <= j < entries@.len() ==> #[trigger] m[j] == (entries@[j].0@, json_view(entries@[j].1)),
        decreases entries@.len() - i,
    {
        if text_eq(entries[i].0.as_str(), key) {
            proof {
                lemma_obj_lookup_index(m, key@, i as int);
                assert(m.subrange(i as int, m.len() as int)[0] == m[i as int]);
            }
            return Some(&entries[i].1);
        }
        i += 1;
    }
    proof {
        lemma_obj_lookup_index(m, key@, i as int);
    }
    None
}

} // verus!

verus! {

pub proof fn lemma_json_seq_view_index(s: Seq<JsonValue>)
    ensures
        json_seq_view(s).len() == s.len(),
        forall|i: int| 0 <= i < s.len() ==> #[trigger] json_seq_view(s)[i] == json_view(s[i]),
    decreases s.len(),
{
    if s.len() > 0 {
        let t = s.subrange(1, s.len() as int);
        lemma_json_seq_view_index(t);
        assert forall|i: int| 0 <= i < s.len() implies #[trigger] json_seq_view(s)[i] == json_view(s[i]) by {
            if i > 0 {
                assert(t[i - 1] == s[i]);
            }
        }
    }
}

} // verus!

verus! {

/// Structural equality of two values.
pub fn json_eq(a: &JsonValue, b: &JsonValue) -> (r: bool)
    ensures
        r == (a@ == b@),
    decreases a,
{
    match (a, b) {
        (JsonValue::Null, JsonValue::Null) => true,
        (JsonValue::Bool(x), JsonValue::Bool(y)) => *x == *y,
        (JsonValue::Number(x), JsonValue::Number(y)) => *x == *y,
        (JsonValue::Quotient(n1, d1), JsonValue::Quotient(n2, d2)) => *n1 == *n2 && *d1 == *d2,
        (JsonValue::String(x), JsonValue::String(y)) => *x == *y,
        (JsonValue::Array(xs), JsonValue::Array(ys)) => {
            proof {
                lemma_json_seq_view_index(xs@);
                lemma_json_seq_view_index(ys@);
            }
            if xs.len() != ys.len() {
                return false;
            }
            let mut i: usize = 0;
            while i < xs.len()
                invariant
                    i <= xs@.len(),
                    xs@.len() == ys@.len(),
                    forall|j: int| 0 <= j < i ==> #[trigger] json_seq_view(xs@)[j] == json_seq_view(ys@)[j],
                    json_seq_view(xs@).len() == xs@.len(),
                    json_seq_view(ys@).len() == ys@.len(),
                    forall|j: int| 0 <= j < xs@.len() ==> #[trigger] json_seq_view(xs@)[j] == json_view(xs@[j]),
                    forall|j: int| 0 <= j < ys@.len() ==> #[trigger] json_seq_view(ys@)[j] == json_view(ys@[j]),
                    *a == JsonValue::Array(*xs),
                    *b == JsonValue::Array(*ys),
                decreases xs@.len() - i,
            {
                proof {
                    assert(decreases_to!(*a => *xs));
                    assert(decreases_to!(*xs => xs@));
                    assert(decreases_to!(xs@ => xs@[i as int]));
                }
                if !json_eq(&xs[i], &ys[i]) {
                    assert(json_seq_view(xs@)[i as int] != json_seq_view(ys@)[i as int]);
                    assert(a@ == Json::Array(json_seq_view(xs@)));
                    assert(b@ == Json::Array(json_seq_view(ys@)));
                    return false;
                }
                i += 1;
            }
            assert(json_seq_view(xs@) =~= json_seq_view(ys@));
            true
        },
        (JsonValue::Object(xs), JsonValue::Object(ys)) => {
            proof {
                lemma_entries_view_index(xs@);
                lemma_entries_view_index(ys@);
            }
            if xs.len() != ys.len() {
                return false;
            }
            let mut i: usize = 0;
            while i < xs.len()
                invariant
                    i <= xs@.len(),
                    xs@.len() == ys@.len(),
                    forall|j: int| 0 <= j < i ==> #[trigger] entries_view(xs@)[j] == entries_view(ys@)[j],
                    entries_view(xs@).len() == xs@.len(),
                    entries_view(ys@).len() == ys@.len(),
                    forall|j: int| 0 <= j < xs@.len() ==> #[trigger] entries_view(xs@)[j] == (xs@[j].0@, json_view(xs@[j].1)),
                    forall|j: int| 0 <= j < ys@.len() ==> #[trigger] entries_view(ys@)[j] == (ys@[j].0@, json_view(ys@[j].1)),
                    *a == JsonValue::Object(*xs),
                    *b == JsonValue::Object(*ys),
                decreases xs@.len() - i,
            {
                proof {
                    assert(decreases_to!(*a => *xs));
                    assert(decreases_to!(*xs => xs@));
                    assert(decreases_to!(xs@ => xs@[i as int]));
                    assert(decreases_to!(xs@[i as int] => xs@[i as int].1));
                }
                if !(xs[i].0 == ys[i].0) || !json_eq(&xs[i].1, &ys[i].1) {
                    assert(entries_view(xs@)[i as int] != entries_view(ys@)[i as int]);
                    assert(a@ == Json::Object(entries_view(xs@)));
                    assert(b@ == Json::Object(entries_view(ys@)));
                    return false;
                }
                i += 1;
            }
            assert(entries_view(xs@) =~= entries_view(ys@));
            true
        },
        _ => false,
    }
}

} // verus!
