use vstd::prelude::*;
use crate::error::{ErrorInfo, ErrorKind};
use crate::json::{
    copy_entries, copy_items, entries_view, json_get, json_seq_view, lemma_entries_view_index,
    lemma_entries_view_push, obj_insert, obj_lookup, obj_merge, text_eq, Interval, Json, JsonValue,
};
use crate::value::{fits_i64, Literal};

verus! {

/// How a component schema combines two values of one kind: booleans by
/// `or`, numbers by addition, texts and arrays by concatenation, objects by
/// a shallow merge where the later key wins.
pub open spec fn merge_json(a: Json, b: Json) -> Result<Json, ErrorKind> {
    match (a, b) {
        (Json::Null, Json::Null) => Ok(Json::Null),
        (Json::Bool(x), Json::Bool(y)) => Ok(Json::Bool(x || y)),
        (Json::Number(x), Json::Number(y)) => if fits_i64(x + y) {
            Ok(Json::Number(x + y))
        } else {
            Err(ErrorKind::Overflow)
        },
        (Json::Str(x), Json::Str(y)) => Ok(Json::Str(x + y)),
        (Json::Array(x), Json::Array(y)) => Ok(Json::Array(x + y)),
        (Json::Object(x), Json::Object(y)) => Ok(Json::Object(obj_merge(x, y))),
        _ => Err(ErrorKind::TypeMismatch),
    }
}

pub open spec fn json_outcome(r: Result<JsonValue, ErrorInfo>) -> Result<Json, ErrorKind> {
    match r {
        Ok(v) => Ok(v@),
        Err(e) => Err(e.kind),
    }
}

proof fn lemma_obj_insert_at(m: Seq<(Seq<char>, Json)>, k: Seq<char>, v: Json, j: int)
    requires
        0 <= j <= m.len(),
        forall|i: int| 0 <= i < j ==> #[trigger] m[i].0 != k,
        j < m.len() ==> m[j].0 == k,
    ensures
        obj_insert(m, k, v) == if j < m.len() { m.update(j, (k, v)) } else { m.push((k, v)) },
    decreases j,
{
    if j > 0 {
        let t = m.drop_first();
        assert forall|i: int| 0 <= i < j - 1 implies #[trigger] t[i].0 != k by {
            assert(t[i] == m[i + 1]);
        }
        lemma_obj_insert_at(t, k, v, j - 1);
        if j < m.len() {
            assert(seq![m[0]] + t.update(j - 1, (k, v)) =~= m.update(j, (k, v)));
        } else {
            assert(seq![m[0]] + t.push((k, v)) =~= m.push((k, v)));
        }
    } else if m.len() == 0 {
        assert(seq![(k, v)] =~= m.push((k, v)));
    }
}

/// Binds `k` to `v` in an object's entries.
fn obj_insert_exec(entries: &mut Vec<(String, JsonValue)>, k: String, v: JsonValue)
    ensures
        entries_view(final(entries)@) == obj_insert(entries_view(old(entries)@), k@, v@),
{
    proof { lemma_entries_view_index(entries@); }
    let ghost m = entries_view(entries@);
    let mut j: usize = 0;
    while j < entries.len()
        invariant
            j <= entries@.len(),
            m == entries_view(entries@),
            m.len() == entries@.len(),
            forall|i: int| 0 <= i < j ==> #[trigger] m[i].0 != k@,
            forall|i: int| 0 <= i < entries@.len() ==> #[trigger] m[i] == (entries@[i].0@, entries@[i].1@),
        ensures
            j <= entries@.len(),
            forall|i: int| 0 <= i < j ==> #[trigger] m[i].0 != k@,
            j < entries@.len() ==> m[j as int].0 == k@,
        decreases entries@.len() - j,
    {
        if text_eq(entries[j].0.as_str(), k.as_str()) {
            break;
        }
        j += 1;
    }
    proof { lemma_obj_insert_at(m, k@, v@, j as int); }
    if j < entries.len() {
        let ghost old_entries = entries@;
        entries.set(j, (k, v));
        proof {
            lemma_entries_view_index(entries@);
            assert(entries_view(entries@) =~= m.update(j as int, (k@, v@)));
        }
    } else {
        proof { lemma_entries_view_push(entries@, (k, v)); }
        entries.push((k, v));
    }
}

/// Combines two values of a component schema.
pub fn merge_values(lhs: &JsonValue, rhs: &JsonValue) -> (r: Result<JsonValue, ErrorInfo>)
    ensures
        json_outcome(r) == merge_json(lhs@, rhs@),
{
    match (lhs, rhs) {
        (JsonValue::Null, JsonValue::Null) => Ok(JsonValue::Null),
        (JsonValue::Bool(x), JsonValue::Bool(y)) => Ok(JsonValue::Bool(*x || *y)),
        (JsonValue::Number(x), JsonValue::Number(y)) => match x.checked_add(*y) {
            Some(s) => Ok(JsonValue::Number(s)),
            None => Err(ErrorInfo::new(ErrorKind::Overflow, "integer overflow in merge", Interval { line: 0, column: 0 })),
        },
        (JsonValue::String(x), JsonValue::String(y)) => {
            let mut s = x.clone();
            s.append(y.as_str());
            Ok(JsonValue::String(s))
        },
        (JsonValue::Array(x), JsonValue::Array(y)) => {
            let mut a = copy_items(x);
            let mut b = copy_items(y);
            let ghost (a0, b0) = (a@, b@);
            a.append(&mut b);
            proof { lemma_seq_view_concat(a0, b0); }
            Ok(JsonValue::Array(a))
        },
        (JsonValue::Object(x), JsonValue::Object(y)) => {
            let mut acc = copy_entries(x);
            let ghost m0 = entries_view(acc@);
            let ghost b = entries_view(y@);
            proof { lemma_entries_view_index(y@); }
            let mut i: usize = 0;
            assert(b.subrange(0, b.len() as int) =~= b);
            while i < y.len()
                invariant
                    i <= y@.len(),
                    b == entries_view(y@),
                    b.len() == y@.len(),
                    forall|j: int| 0 <= j < y@.len() ==> #[trigger] b[j] == (y@[j].0@, y@[j].1@),
                    obj_merge(m0, b) == obj_merge(entries_view(acc@), b.subrange(i as int, b.len() as int)),
                decreases y@.len() - i,
            {
                let ghost rest = b.subrange(i as int, b.len() as int);
                assert(rest.drop_first() =~= b.subrange(i + 1, b.len() as int));
                let v = y[i].1.copy();
                obj_insert_exec(&mut acc, y[i].0.clone(), v);
                i += 1;
            }
            Ok(JsonValue::Object(acc))
        },
        _ => Err(ErrorInfo::new(ErrorKind::TypeMismatch, "illegal merge between different kinds", Interval { line: 0, column: 0 })),
    }
}

proof fn lemma_seq_view_concat(a: Seq<JsonValue>, b: Seq<JsonValue>)
    ensures
        json_seq_view(a + b) == json_seq_view(a) + json_seq_view(b),
    decreases b.len(),
{
    if b.len() == 0 {
        assert(a + b =~= a);
        assert(json_seq_view(b) =~= Seq::<Json>::empty());
        assert(json_seq_view(a) + json_seq_view(b) =~= json_seq_view(a));
    } else {
        let b1 = b.drop_last();
        lemma_seq_view_concat(a, b1);
        assert(a + b =~= (a + b1).push(b.last()));
        assert(b =~= b1.push(b.last()));
        crate::json::lemma_seq_view_push(a + b1, b.last());
        crate::json::lemma_seq_view_push(b1, b.last());
        assert(json_seq_view(a) + json_seq_view(b1).push(crate::json::json_view(b.last())) =~= (json_seq_view(a) + json_seq_view(b1)).push(crate::json::json_view(b.last())));
    }
}

} // verus!

verus! {

/// Whether a schema field must be given as a parameter.
pub open spec fn required_spec(field: Seq<(Seq<char>, Json)>) -> bool {
    obj_lookup(field, "required"@) == Some(Json::Bool(true))
}

/// The zero value of a field's declared kind.
pub open spec fn zero_of(field: Seq<(Seq<char>, Json)>) -> Result<Json, ErrorKind> {
    match obj_lookup(field, "type"@) {
        Some(Json::Str(t)) => {
            if t == "Null"@ {
                Ok(Json::Null)
            } else if t == "Bool"@ {
                Ok(Json::Bool(false))
            } else if t == "Number"@ {
                Ok(Json::Number(0))
            } else if t == "String"@ {
                Ok(Json::Str(Seq::empty()))
            } else if t == "Array"@ {
                Ok(Json::Array(Seq::empty()))
            } else if t == "Object"@ {
                Ok(Json::Object(Seq::empty()))
            } else {
                Err(ErrorKind::UsageError)
            }
        },
        _ => Err(ErrorKind::UsageError),
    }
}

/// The rules of a rule list: the items of an array, or one null rule.
pub open spec fn rule_list(rules: Json) -> Seq<Json> {
    match rules {
        Json::Array(items) => items,
        _ => seq![Json::Null],
    }
}

/// Resolves field `key` of schema `h`, with the keys already being resolved
/// in `visited`: fetching a key a second time is a circular dependency. A
/// key that is not a field of the schema is null. Gives the value and the
/// keys visited after it. `fuel` bounds the depth of nested fetches; each
/// level that recurses has added a distinct field of `h` to `visited`, so
/// with the schema's length as fuel it cannot run out (a longer chain would
/// repeat a field, which the visited check catches first); running out is
/// reported as a cycle.
pub open spec fn fetch(h: Seq<(Seq<char>, Json)>, key: Seq<char>, visited: Seq<Seq<char>>, fuel: nat) -> (Result<Json, ErrorKind>, Seq<Seq<char>>)
    decreases fuel, 0nat, 0nat,
{
    if visited.contains(key) {
        (Err(ErrorKind::CircularDependency), visited)
    } else {
        let v1 = visited.push(key);
        match obj_lookup(h, key) {
            Some(Json::Object(field)) => {
                if required_spec(field) {
                    (Err(ErrorKind::MissingRequiredField), v1)
                } else if fuel == 0 {
                    (Err(ErrorKind::CircularDependency), v1)
                } else {
                    let (d, v2) = defaults(h, field, "default_value"@, v1, (fuel - 1) as nat);
                    match d {
                        Err(k) => (Err(k), v2),
                        Ok(dv) => {
                            let (a, v3) = defaults(h, field, "add_value"@, v2, (fuel - 1) as nat);
                            match a {
                                Err(k) => (Err(k), v3),
                                Ok(av) => (merge_json(dv, av), v3),
                            }
                        },
                    }
                }
            },
            _ => (Ok(Json::Null), v1),
        }
    }
}

/// One rule applied to `acc`: `$_get` merges in another field, then `$_set`
/// merges in a value.
pub open spec fn apply_rule(h: Seq<(Seq<char>, Json)>, rule: Json, acc: Json, visited: Seq<Seq<char>>, fuel: nat) -> (Result<Json, ErrorKind>, Seq<Seq<char>>)
    decreases fuel, 1nat, 0nat,
{
    match rule {
        Json::Object(f) => {
            let (r1, v1) = match obj_lookup(f, "$_get"@) {
                Some(Json::Str(dep)) => {
                    let (x, v) = fetch(h, dep, visited, fuel);
                    match x {
                        Ok(xv) => (merge_json(acc, xv), v),
                        Err(k) => (Err(k), v),
                    }
                },
                _ => (Ok(acc), visited),
            };
            match r1 {
                Err(k) => (Err(k), v1),
                Ok(a1) => match obj_lookup(f, "$_set"@) {
                    Some(s) => (merge_json(a1, s), v1),
                    None => (Ok(a1), v1),
                },
            }
        },
        _ => (Err(ErrorKind::UsageError), visited),
    }
}

/// The rules applied one after the other, from the first.
pub open spec fn fold_rules(h: Seq<(Seq<char>, Json)>, rules: Seq<Json>, acc: Json, visited: Seq<Seq<char>>, fuel: nat) -> (Result<Json, ErrorKind>, Seq<Seq<char>>)
    decreases fuel, 2nat, rules.len(),
{
    if rules.len() == 0 {
        (Ok(acc), visited)
    } else {
        let (r, v) = fold_rules(h, rules.drop_last(), acc, visited, fuel);
        match r {
            Err(k) => (Err(k), v),
            Ok(a) => apply_rule(h, rules.last(), a, v, fuel),
        }
    }
}

/// A field's zero value with its rule list under `rule_key` folded in.
pub open spec fn defaults(h: Seq<(Seq<char>, Json)>, field: Seq<(Seq<char>, Json)>, rule_key: Seq<char>, visited: Seq<Seq<char>>, fuel: nat) -> (Result<Json, ErrorKind>, Seq<Seq<char>>)
    decreases fuel, 3nat, 0nat,
{
    match zero_of(field) {
        Err(k) => (Err(k), visited),
        Ok(z) => match obj_lookup(field, rule_key) {
            None => (Ok(z), visited),
            Some(rules) => fold_rules(h, rule_list(rules), z, visited, fuel),
        },
    }
}

pub open spec fn visited_view(v: Seq<String>) -> Seq<Seq<char>> {
    v.map_values(|s: String| s@)
}

} // verus!

verus! {

fn usage(message: &str) -> (r: ErrorInfo)
    ensures
        r.kind == ErrorKind::UsageError,
{
    ErrorInfo::new(ErrorKind::UsageError, message, Interval { line: 0, column: 0 })
}

/// Whether a schema field is marked `"required": true`.
pub fn is_parameter_required(object: &Vec<(String, JsonValue)>) -> (r: bool)
    ensures
        r == required_spec(entries_view(object@)),
{
    proof { reveal_strlit("required"); }
    match json_get(object, "required") {
        Some(JsonValue::Bool(b)) => *b,
        _ => false,
    }
}

/// The zero value of the kind that a schema field declares under `"type"`.
pub fn create_default_object(object: &Vec<(String, JsonValue)>) -> (r: Result<JsonValue, ErrorInfo>)
    ensures
        json_outcome(r) == zero_of(entries_view(object@)),
{
    proof {
        reveal_strlit("type");
        reveal_strlit("Null");
        reveal_strlit("Bool");
        reveal_strlit("Number");
        reveal_strlit("String");
        reveal_strlit("Array");
        reveal_strlit("Object");
    }
    match json_get(object, "type") {
        Some(JsonValue::String(t)) => {
            let t = t.as_str();
            if text_eq(t, "Null") {
                Ok(JsonValue::Null)
            } else if text_eq(t, "Bool") {
                Ok(JsonValue::Bool(false))
            } else if text_eq(t, "Number") {
                Ok(JsonValue::Number(0))
            } else if text_eq(t, "String") {
                Ok(JsonValue::String(String::new()))
            } else if text_eq(t, "Array") {
                let items: Vec<JsonValue> = Vec::new();
                assert(json_seq_view(items@) =~= Seq::<Json>::empty());
                Ok(JsonValue::Array(items))
            } else if text_eq(t, "Object") {
                let entries: Vec<(String, JsonValue)> = Vec::new();
                assert(entries_view(entries@) =~= Seq::<(Seq<char>, Json)>::empty());
                Ok(JsonValue::Object(entries))
            } else {
                Err(usage("type not handled"))
            }
        },
        _ => Err(usage("a field must declare its type")),
    }
}

/// Whether `key` is among the visited keys.
fn visited_contains(visited: &Vec<String>, key: &str) -> (r: bool)
    ensures
        r == visited_view(visited@).contains(key@),
{
    let mut i: usize = 0;
    while i < visited.len()
        invariant
            i <= visited@.len(),
            forall|j: int| 0 <= j < i ==> #[trigger] visited@[j]@ != key@,
        decreases visited@.len() - i,
    {
        if text_eq(visited[i].as_str(), key) {
            assert(visited_view(visited@)[i as int] == key@);
            return true;
        }
        i += 1;
    }
    proof {
        if visited_view(visited@).contains(key@) {
            let j = choose|j: int| 0 <= j < visited_view(visited@).len() && visited_view(visited@)[j] == key@;
            assert(visited@[j]@ == key@);
        }
    }
    false
}

proof fn lemma_fold_err(h: Seq<(Seq<char>, Json)>, rules: Seq<Json>, acc: Json, visited: Seq<Seq<char>>, fuel: nat, n: int)
    requires
        0 <= n <= rules.len(),
        fold_rules(h, rules.subrange(0, n), acc, visited, fuel).0 is Err,
    ensures
        fold_rules(h, rules, acc, visited, fuel) == fold_rules(h, rules.subrange(0, n), acc, visited, fuel),
    decreases rules.len() - n,
{
    if n < rules.len() {
        assert(rules.subrange(0, n + 1).drop_last() =~= rules.subrange(0, n));
        lemma_fold_err(h, rules, acc, visited, fuel, n + 1);
    } else {
        assert(rules.subrange(0, n) =~= rules);
    }
}

/// Resolves field `key` of the schema `header`; see [`fetch`].
fn get_object(key: &str, header: &Vec<(String, JsonValue)>, visited: &mut Vec<String>, fuel: usize) -> (r: Result<JsonValue, ErrorInfo>)
    ensures
        (json_outcome(r), visited_view(final(visited)@)) == fetch(entries_view(header@), key@, visited_view(old(visited)@), fuel as nat),
    decreases fuel, 0nat, 0nat,
{
    proof {
        reveal_strlit("default_value");
        reveal_strlit("add_value");
    }
    if visited_contains(visited, key) {
        return Err(ErrorInfo::new(ErrorKind::CircularDependency, "circular dependency between fields", Interval { line: 0, column: 0 }));
    }
    let ghost v0 = visited_view(visited@);
    visited.push(key.to_owned());
    assert(visited_view(visited@) =~= v0.push(key@));
    match json_get(header, key) {
        Some(JsonValue::Object(object)) => {
            if is_parameter_required(object) {
                return Err(ErrorInfo::new(ErrorKind::MissingRequiredField, "no parameter was given for a required field", Interval { line: 0, column: 0 }));
            }
            if fuel == 0 {
                return Err(ErrorInfo::new(ErrorKind::CircularDependency, "circular dependency between fields", Interval { line: 0, column: 0 }));
            }
            let d = match get_default_object("default_value", object, header, visited, fuel - 1) {
                Ok(d) => d,
                Err(e) => {
                    return Err(e);
                },
            };
            let a = match get_default_object("add_value", object, header, visited, fuel - 1) {
                Ok(a) => a,
                Err(e) => {
                    return Err(e);
                },
            };
            merge_values(&d, &a)
        },
        _ => Ok(JsonValue::Null),
    }
}

/// Applies one rule to `acc`; see [`apply_rule`].
fn apply_one_rule(rule: &JsonValue, acc: JsonValue, header: &Vec<(String, JsonValue)>, visited: &mut Vec<String>, fuel: usize) -> (r: Result<JsonValue, ErrorInfo>)
    ensures
        (json_outcome(r), visited_view(final(visited)@)) == apply_rule(entries_view(header@), rule@, acc@, visited_view(old(visited)@), fuel as nat),
    decreases fuel, 1nat, 0nat,
{
    proof {
        reveal_strlit("$_get");
        reveal_strlit("$_set");
    }
    let function = match rule {
        JsonValue::Object(function) => function,
        _ => {
            return Err(usage("a rule must be an object"));
        },
    };
    let mut result = acc;
    if let Some(JsonValue::String(dependency)) = json_get(function, "$_get") {
        let fetched = match get_object(dependency.as_str(), header, visited, fuel) {
            Ok(v) => v,
            Err(e) => {
                return Err(e);
            },
        };
        result = match merge_values(&result, &fetched) {
            Ok(v) => v,
            Err(e) => {
                return Err(e);
            },
        };
    }
    match json_get(function, "$_set") {
        Some(value) => merge_values(&result, value),
        None => Ok(result),
    }
}

/// A field's zero value with the rules under `key` folded in; see
/// [`defaults`].
fn get_default_object(key: &str, object: &Vec<(String, JsonValue)>, header: &Vec<(String, JsonValue)>, visited: &mut Vec<String>, fuel: usize) -> (r: Result<JsonValue, ErrorInfo>)
    ensures
        (json_outcome(r), visited_view(final(visited)@)) == defaults(entries_view(header@), entries_view(object@), key@, visited_view(old(visited)@), fuel as nat),
    decreases fuel, 3nat, 0nat,
{
    let zero = match create_default_object(object) {
        Ok(z) => z,
        Err(e) => {
            return Err(e);
        },
    };
    let ghost h = entries_view(header@);
    let ghost v0 = visited_view(visited@);
    match json_get(object, key) {
        None => Ok(zero),
        Some(JsonValue::Array(items)) => {
            let ghost rules = json_seq_view(items@);
            let ghost z = zero@;
            proof { crate::json::lemma_json_seq_view_index(items@); }
            let mut result = zero;
            let mut i: usize = 0;
            while i < items.len()
                invariant
                    i <= items@.len(),
                    rules == json_seq_view(items@),
                    rules.len() == items@.len(),
                    forall|j: int| 0 <= j < items@.len() ==> #[trigger] rules[j] == items@[j]@,
                    fold_rules(h, rules.subrange(0, i as int), z, v0, fuel as nat) == (Ok::<Json, ErrorKind>(result@), visited_view(visited@)),
                    h == entries_view(header@),
                    obj_lookup(entries_view(object@), key@) == Some(Json::Array(rules)),
                    zero_of(entries_view(object@)) == Ok::<Json, ErrorKind>(z),
                    v0 == visited_view(old(visited)@),
                decreases items@.len() - i,
            {
                let ghost pre = rules.subrange(0, i + 1);
                assert(pre.drop_last() =~= rules.subrange(0, i as int));
                assert(pre.last() == items@[i as int]@);
                let ghost r0 = result@;
                let ghost vis0 = visited_view(visited@);
                assert(fold_rules(h, pre, z, v0, fuel as nat) == apply_rule(h, items@[i as int]@, r0, vis0, fuel as nat));
                match apply_one_rule(&items[i], result, header, visited, fuel) {
                    Ok(v) => {
                        result = v;
                    },
                    Err(e) => {
                        proof {
                            lemma_fold_err(h, rules, z, v0, fuel as nat, i + 1);
                        }
                        return Err(e);
                    },
                }
                i += 1;
            }
            assert(rules.subrange(0, i as int) =~= rules);
            Ok(result)
        },
        Some(_) => {
            proof {
                let one = seq![Json::Null];
                assert(one.drop_last() =~= Seq::<Json>::empty());
                assert(fold_rules(h, one.drop_last(), zero@, v0, fuel as nat) == (Ok::<Json, ErrorKind>(zero@), v0));
            }
            Err(usage("a rule must be an object"))
        },
    }
}

} // verus!

verus! {

/// The number of leading entries named `_primary`, which a component skips.
pub open spec fn primary_prefix(m: Seq<(Seq<char>, Json)>) -> nat
    decreases m.len(),
{
    if m.len() > 0 && m[0].0 == "_primary"@ {
        1 + primary_prefix(m.drop_first())
    } else {
        0
    }
}

/// The fields of a component built from the schema fields `part` of the
/// schema `h`, each resolved on its own.
pub open spec fn build_fields(h: Seq<(Seq<char>, Json)>, part: Seq<(Seq<char>, Json)>) -> Result<Seq<(Seq<char>, Json)>, ErrorKind>
    decreases part.len(),
{
    if part.len() == 0 {
        Ok(Seq::empty())
    } else {
        match build_fields(h, part.drop_last()) {
            Err(k) => Err(k),
            Ok(acc) => match fetch(h, part.last().0, Seq::empty(), h.len()).0 {
                Ok(v) => Ok(obj_insert(acc, part.last().0, v)),
                Err(k) => Err(k),
            },
        }
    }
}

/// The fields of the component that a schema describes: one per schema
/// field after the leading `_primary` entries. A schema that is not an
/// object describes no field.
pub open spec fn component_spec(header: Json) -> Result<Seq<(Seq<char>, Json)>, ErrorKind> {
    match header {
        Json::Object(m) => build_fields(m, m.subrange(primary_prefix(m) as int, m.len() as int)),
        _ => Ok(Seq::empty()),
    }
}

/// The component literal: an object labelled with the component's name.
fn get_result(name: &str, fields: Vec<(String, JsonValue)>, interval: Interval) -> (r: Literal)
    ensures
        r.content_type@ == name@,
        r.value() == Json::Object(entries_view(fields@)),
        r.interval == interval,
{
    Literal { content_type: name.to_owned(), primitive: JsonValue::Object(fields), interval }
}

proof fn lemma_build_err(h: Seq<(Seq<char>, Json)>, part: Seq<(Seq<char>, Json)>, n: int)
    requires
        0 <= n <= part.len(),
        build_fields(h, part.subrange(0, n)) is Err,
    ensures
        build_fields(h, part) == build_fields(h, part.subrange(0, n)),
    decreases part.len() - n,
{
    if n < part.len() {
        assert(part.subrange(0, n + 1).drop_last() =~= part.subrange(0, n));
        lemma_build_err(h, part, n + 1);
    } else {
        assert(part.subrange(0, n) =~= part);
    }
}

/// Builds the component named `name` from the schema `header`: each field
/// gets its kind's zero value with its `default_value` rules and then its
/// `add_value` rules merged in. Named parameters are not bound, so a
/// required field fails with `MissingRequiredField`; a field that depends on
/// itself fails with `CircularDependency`.
pub fn gen_generic_component(name: &str, interval: &Interval, _args: &Literal, header: &JsonValue) -> (r: Result<Literal, ErrorInfo>)
    ensures
        match r {
            Ok(lit) => lit.content_type@ == name@ && lit.interval == *interval
                && component_spec(header@) == Ok::<Seq<(Seq<char>, Json)>, ErrorKind>(lit.value()->Object_0) && lit.value() is Object,
            Err(e) => component_spec(header@) == Err::<Seq<(Seq<char>, Json)>, ErrorKind>(e.kind),
        },
{
    let mut fields: Vec<(String, JsonValue)> = Vec::new();
    assert(entries_view(fields@) =~= Seq::<(Seq<char>, Json)>::empty());
    if let JsonValue::Object(object) = header {
        let ghost m = entries_view(object@);
        proof {
            reveal_strlit("_primary");
            lemma_entries_view_index(object@);
        }
        let mut start: usize = 0;
        assert(m.subrange(0, m.len() as int) =~= m);
        while start < object.len() && text_eq(object[start].0.as_str(), "_primary")
            invariant
                start <= object@.len(),
                m == entries_view(object@),
                m.len() == object@.len(),
                forall|j: int| 0 <= j < object@.len() ==> #[trigger] m[j] == (object@[j].0@, object@[j].1@),
                primary_prefix(m) == start + primary_prefix(m.subrange(start as int, m.len() as int)),
            decreases object@.len() - start,
        {
            let ghost t = m.subrange(start as int, m.len() as int);
            assert(t.drop_first() =~= m.subrange(start + 1, m.len() as int));
            start += 1;
        }
        proof {
            let t = m.subrange(start as int, m.len() as int);
            if start < object.len() {
                assert(t[0] == m[start as int]);
            }
        }
        let ghost part = m.subrange(start as int, m.len() as int);
        let mut i: usize = start;
        assert(part.subrange(0, 0) =~= Seq::<(Seq<char>, Json)>::empty());
        while i < object.len()
            invariant
                start <= i <= object@.len(),
                m == entries_view(object@),
                m.len() == object@.len(),
                forall|j: int| 0 <= j < object@.len() ==> #[trigger] m[j] == (object@[j].0@, object@[j].1@),
                part == m.subrange(start as int, m.len() as int),
                header@ == Json::Object(m),
                primary_prefix(m) == start,
                build_fields(m, part.subrange(0, i - start)) == Ok::<Seq<(Seq<char>, Json)>, ErrorKind>(entries_view(fields@)),
            decreases object@.len() - i,
        {
            let ghost pre = part.subrange(0, i - start + 1);
            assert(pre.drop_last() =~= part.subrange(0, i - start));
            assert(pre.last() == m[i as int]);
            let mut visited: Vec<String> = Vec::new();
            assert(visited_view(visited@) =~= Seq::<Seq<char>>::empty());
            match get_object(object[i].0.as_str(), object, &mut visited, object.len()) {
                Ok(v) => {
                    obj_insert_exec(&mut fields, object[i].0.clone(), v);
                },
                Err(e) => {
                    proof { lemma_build_err(m, part, i - start + 1); }
                    return Err(e);
                },
            }
            i += 1;
        }
        assert(part.subrange(0, i - start) =~= part);
    }
    Ok(get_result(name, fields, *interval))
}

/// A field whose first default-value rule fetches the field itself is a
/// circular dependency: resolving it fails with `CircularDependency`.
pub proof fn law_self_dependency(h: Seq<(Seq<char>, Json)>, f: Seq<char>, field: Seq<(Seq<char>, Json)>, rules: Seq<Json>, rule: Seq<(Seq<char>, Json)>, fuel: nat)
    requires
        obj_lookup(h, f) == Some(Json::Object(field)),
        !required_spec(field),
        zero_of(field) is Ok,
        obj_lookup(field, "default_value"@) == Some(Json::Array(rules)),
        rules.len() > 0,
        rules[0] == Json::Object(rule),
        obj_lookup(rule, "$_get"@) == Some(Json::Str(f)),
        fuel > 0,
    ensures
        fetch(h, f, Seq::empty(), fuel).0 == Err::<Json, ErrorKind>(ErrorKind::CircularDependency),
{
    let v1 = Seq::<Seq<char>>::empty().push(f);
    assert(v1.contains(f)) by {
        assert(v1[0] == f);
    }
    assert(!Seq::<Seq<char>>::empty().contains(f));
    let z = zero_of(field)->Ok_0;
    let first = rules.subrange(0, 1);
    assert(first.drop_last() =~= Seq::<Json>::empty());
    assert(first.last() == rules[0]);
    assert(fetch(h, f, v1, (fuel - 1) as nat) == (Err::<Json, ErrorKind>(ErrorKind::CircularDependency), v1));
    assert(fold_rules(h, first.drop_last(), z, v1, (fuel - 1) as nat) == (Ok::<Json, ErrorKind>(z), v1));
    assert(apply_rule(h, rules[0], z, v1, (fuel - 1) as nat) == (Err::<Json, ErrorKind>(ErrorKind::CircularDependency), v1));
    assert(fold_rules(h, first, z, v1, (fuel - 1) as nat) == (Err::<Json, ErrorKind>(ErrorKind::CircularDependency), v1));
    lemma_fold_err(h, rules, z, v1, (fuel - 1) as nat, 1);
}

} // verus!
