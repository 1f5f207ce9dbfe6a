//! A plain model of the JSON values that a plan carries in `before`,
//! `after` and `replace_paths`, with the equality that JSON values have.
use vstd::prelude::*;
use crate::text::str_equal;


verus! {

broadcast use {
    vstd::std_specs::vec::axiom_vec_index_decreases,
    vstd::std_specs::vec::axiom_vec_decreases_to_view,
};

/// A JSON value. A number holds the text that `serde_json` writes for it,
/// so that two numbers are equal exactly when their texts are. An object
/// holds its members in the order of their keys, each key once, as
/// `serde_json`'s map keeps them.
#[derive(Debug)]
pub enum JsonValue {
    Null,
    Bool(bool),
    Number(String),
    Str(String),
    Array(Vec<JsonValue>),
    Object(Vec<(String, JsonValue)>),
}

/// One step of an attribute path such as `["ingress", 0, "from_port"]`.
/// `Other` holds the compact JSON text of a step that is neither a number
/// nor a string.
#[derive(Debug, Clone)]
pub enum PathSegment {
    Number(String),
    Str(String),
    Other(String),
}

/// Equality of JSON values: same kind and equal contents, members compared
/// in order.
pub open spec fn json_eq(a: JsonValue, b: JsonValue) -> bool
    decreases a,
{
    match a {
        JsonValue::Null => b is Null,
        JsonValue::Bool(x) => b matches JsonValue::Bool(y) && x == y,
        JsonValue::Number(x) => b matches JsonValue::Number(y) && x@ == y@,
        JsonValue::Str(x) => b matches JsonValue::Str(y) && x@ == y@,
        JsonValue::Array(xs) => match b {
            JsonValue::Array(ys) => elems_eq(xs@, ys@),
            _ => false,
        },
        JsonValue::Object(xs) => match b {
            JsonValue::Object(ys) => members_eq(xs@, ys@),
            _ => false,
        },
    }
}

/// Two arrays have the same length and equal elements at each position.
pub open spec fn elems_eq(xs: Seq<JsonValue>, ys: Seq<JsonValue>) -> bool
    decreases xs,
{
    if xs.len() == 0 {
        ys.len() == 0
    } else {
        &&& ys.len() == xs.len()
        &&& elems_eq(xs.drop_last(), ys.drop_last())
        &&& json_eq(xs.last(), ys.last())
    }
}

/// Two objects have the same number of members and, at each position, the
/// same key and equal values.
pub open spec fn members_eq(xs: Seq<(String, JsonValue)>, ys: Seq<(String, JsonValue)>) -> bool
    decreases xs,
{
    if xs.len() == 0 {
        ys.len() == 0
    } else {
        &&& ys.len() == xs.len()
        &&& members_eq(xs.drop_last(), ys.drop_last())
        &&& xs.last().0@ == ys.last().0@
        &&& json_eq(xs.last().1, ys.last().1)
    }
}

/// Every JSON value equals itself.
pub proof fn lemma_json_eq_reflexive(a: JsonValue)
    ensures
        json_eq(a, a),
    decreases a,
{
    match a {
        JsonValue::Array(xs) => {
            assert(decreases_to!(a => a->Array_0));
            lemma_elems_eq_reflexive(xs@);
        },
        JsonValue::Object(xs) => {
            assert(decreases_to!(a => a->Object_0));
            lemma_members_eq_reflexive(xs@);
        },
        _ => {},
    }
}

proof fn lemma_elems_eq_reflexive(xs: Seq<JsonValue>)
    ensures
        elems_eq(xs, xs),
    decreases xs,
{
    if xs.len() > 0 {
        lemma_elems_eq_reflexive(xs.drop_last());
        lemma_json_eq_reflexive(xs.last());
    }
}

proof fn lemma_members_eq_reflexive(xs: Seq<(String, JsonValue)>)
    ensures
        members_eq(xs, xs),
    decreases xs,
{
    if xs.len() > 0 {
        lemma_members_eq_reflexive(xs.drop_last());
        assert(decreases_to!(xs => xs.last()));
        lemma_json_eq_reflexive(xs.last().1);
    }
}

/// Equality of JSON values does not depend on the order of its arguments.
pub proof fn lemma_json_eq_symmetric(a: JsonValue, b: JsonValue)
    ensures
        json_eq(a, b) == json_eq(b, a),
    decreases a,
{
    match a {
        JsonValue::Array(xs) => {
            assert(decreases_to!(a => a->Array_0));
            if let JsonValue::Array(ys) = b {
                lemma_elems_eq_symmetric(xs@, ys@);
            }
        },
        JsonValue::Object(xs) => {
            assert(decreases_to!(a => a->Object_0));
            if let JsonValue::Object(ys) = b {
                lemma_members_eq_symmetric(xs@, ys@);
            }
        },
        _ => {},
    }
}

proof fn lemma_elems_eq_symmetric(xs: Seq<JsonValue>, ys: Seq<JsonValue>)
    ensures
        elems_eq(xs, ys) == elems_eq(ys, xs),
    decreases xs,
{
    if xs.len() > 0 && xs.len() == ys.len() {
        lemma_elems_eq_symmetric(xs.drop_last(), ys.drop_last());
        lemma_json_eq_symmetric(xs.last(), ys.last());
    }
}

proof fn lemma_members_eq_symmetric(xs: Seq<(String, JsonValue)>, ys: Seq<(String, JsonValue)>)
    ensures
        members_eq(xs, ys) == members_eq(ys, xs),
    decreases xs,
{
    if xs.len() > 0 && xs.len() == ys.len() {
        lemma_members_eq_symmetric(xs.drop_last(), ys.drop_last());
        assert(decreases_to!(xs => xs.last()));
        lemma_json_eq_symmetric(xs.last().1, ys.last().1);
    }
}

proof fn lemma_elems_eq_pointwise(xs: Seq<JsonValue>, ys: Seq<JsonValue>)
    ensures
        elems_eq(xs, ys) == (xs.len() == ys.len() && forall|i: int|
            0 <= i < xs.len() ==> #[trigger] json_eq(xs[i], ys[i])),
    decreases xs.len(),
{
    if xs.len() > 0 && xs.len() == ys.len() {
        lemma_elems_eq_pointwise(xs.drop_last(), ys.drop_last());
        if forall|i: int| 0 <= i < xs.len() ==> #[trigger] json_eq(xs[i], ys[i]) {
            assert forall|i: int| 0 <= i < xs.drop_last().len() implies #[trigger] json_eq(
                xs.drop_last()[i],
                ys.drop_last()[i],
            ) by {
                assert(json_eq(xs[i], ys[i]));
            }
            assert(json_eq(xs[xs.len() - 1], ys[ys.len() - 1]));
        }
        if elems_eq(xs, ys) {
            assert forall|i: int| 0 <= i < xs.len() implies #[trigger] json_eq(xs[i], ys[i]) by {
                if i < xs.len() - 1 {
                    assert(json_eq(xs.drop_last()[i], ys.drop_last()[i]));
                }
            }
        }
    }
}

proof fn lemma_members_eq_from_pointwise(xs: Seq<(String, JsonValue)>, ys: Seq<(String, JsonValue)>)
    requires
        xs.len() == ys.len(),
        forall|i: int| 0 <= i < xs.len() ==> #[trigger] member_eq_at(xs, ys, i),
    ensures
        members_eq(xs, ys),
    decreases xs.len(),
{
    if xs.len() > 0 {
        let dx = xs.drop_last();
        let dy = ys.drop_last();
        assert forall|i: int| 0 <= i < dx.len() implies #[trigger] member_eq_at(dx, dy, i) by {
            assert(member_eq_at(xs, ys, i));
            assert(dx[i] == xs[i] && dy[i] == ys[i]);
        }
        lemma_members_eq_from_pointwise(dx, dy);
        assert(member_eq_at(xs, ys, xs.len() - 1));
    }
}

/// The members at `i` of two objects have the same key and equal values.
pub open spec fn member_eq_at(xs: Seq<(String, JsonValue)>, ys: Seq<(String, JsonValue)>, i: int) -> bool {
    xs[i].0@ == ys[i].0@ && json_eq(xs[i].1, ys[i].1)
}

proof fn lemma_members_eq_pointwise(xs: Seq<(String, JsonValue)>, ys: Seq<(String, JsonValue)>)
    ensures
        members_eq(xs, ys) == (xs.len() == ys.len() && forall|i: int|
            0 <= i < xs.len() ==> #[trigger] member_eq_at(xs, ys, i)),
{
    if xs.len() == ys.len() && forall|i: int| 0 <= i < xs.len() ==> #[trigger] member_eq_at(xs, ys, i) {
        lemma_members_eq_from_pointwise(xs, ys);
    }
    if members_eq(xs, ys) {
        if xs.len() > 0 {
            assert(ys.len() == xs.len());
        } else {
            assert(ys.len() == 0);
        }
        assert forall|i: int| 0 <= i < xs.len() implies #[trigger] member_eq_at(xs, ys, i) by {
            lemma_members_eq_index(xs, ys, i);
        }
    }
}

/// Two JSON values are equal exactly when they are the same value: both
/// `null`; booleans with the same truth value; numbers with the same text;
/// strings with the same characters; arrays of the same length with equal
/// elements at each position; objects with the same number of members and,
/// at each position, the same key and equal values. Values of different
/// kinds are never equal.
pub proof fn lemma_json_eq_is_value_equality(a: JsonValue, b: JsonValue)
    ensures
        json_eq(a, b) == match (a, b) {
            (JsonValue::Null, JsonValue::Null) => true,
            (JsonValue::Bool(x), JsonValue::Bool(y)) => x == y,
            (JsonValue::Number(x), JsonValue::Number(y)) => x@ == y@,
            (JsonValue::Str(x), JsonValue::Str(y)) => x@ == y@,
            (JsonValue::Array(xs), JsonValue::Array(ys)) => xs@.len() == ys@.len() && forall|i: int|
                0 <= i < xs@.len() ==> #[trigger] json_eq(xs@[i], ys@[i]),
            (JsonValue::Object(xs), JsonValue::Object(ys)) => xs@.len() == ys@.len() && forall|i: int|
                0 <= i < xs@.len() ==> #[trigger] member_eq_at(xs@, ys@, i),
            _ => false,
        },
{
    match (a, b) {
        (JsonValue::Array(xs), JsonValue::Array(ys)) => lemma_elems_eq_pointwise(xs@, ys@),
        (JsonValue::Object(xs), JsonValue::Object(ys)) => lemma_members_eq_pointwise(xs@, ys@),
        _ => {},
    }
}

/// The members of an object; nothing for any other value.
pub open spec fn members(v: JsonValue) -> Seq<(String, JsonValue)> {
    match v {
        JsonValue::Object(ms) => ms@,
        _ => Seq::empty(),
    }
}

/// Whether `v` is an object with a member named `k`.
pub open spec fn has_key(v: JsonValue, k: Seq<char>) -> bool {
    exists|i: int| 0 <= i < members(v).len() && #[trigger] members(v)[i].0@ == k
}

/// The value of the first member named `k`, or `null` where there is none.
pub open spec fn member_value(ms: Seq<(String, JsonValue)>, k: Seq<char>) -> JsonValue
    decreases ms.len(),
{
    if ms.len() == 0 {
        JsonValue::Null
    } else if ms[0].0@ == k {
        ms[0].1
    } else {
        member_value(ms.drop_first(), k)
    }
}

/// The value that `v.get(k)` finds, with a missing member read as `null`.
pub open spec fn get_or_null(v: JsonValue, k: Seq<char>) -> JsonValue {
    member_value(members(v), k)
}

proof fn lemma_elems_eq_index(xs: Seq<JsonValue>, ys: Seq<JsonValue>, i: int)
    requires
        elems_eq(xs, ys),
        0 <= i < xs.len(),
    ensures
        json_eq(xs[i], ys[i]),
    decreases xs.len(),
{
    if i < xs.len() - 1 {
        lemma_elems_eq_index(xs.drop_last(), ys.drop_last(), i);
    }
}

proof fn lemma_members_eq_index(xs: Seq<(String, JsonValue)>, ys: Seq<(String, JsonValue)>, i: int)
    requires
        members_eq(xs, ys),
        0 <= i < xs.len(),
    ensures
        xs[i].0@ == ys[i].0@,
        json_eq(xs[i].1, ys[i].1),
    decreases xs.len(),
{
    if i < xs.len() - 1 {
        lemma_members_eq_index(xs.drop_last(), ys.drop_last(), i);
    }
}

/// Looking up a key finds the value of the first member with that key, and
/// `null` where no member has it (also for a value that is not an object).
pub proof fn lemma_get_or_null_finds_member(v: JsonValue, k: Seq<char>)
    ensures
        forall|i: int|
            0 <= i < members(v).len() && members(v)[i].0@ == k && (forall|j: int|
                0 <= j < i ==> members(v)[j].0@ != k) ==> get_or_null(v, k) == #[trigger] members(v)[i].1,
        !has_key(v, k) ==> get_or_null(v, k) == JsonValue::Null,
{
    lemma_member_value_first(members(v), k);
}

proof fn lemma_member_value_first(ms: Seq<(String, JsonValue)>, k: Seq<char>)
    ensures
        forall|i: int|
            0 <= i < ms.len() && ms[i].0@ == k && (forall|j: int| 0 <= j < i ==> ms[j].0@ != k)
                ==> member_value(ms, k) == #[trigger] ms[i].1,
        (forall|j: int| 0 <= j < ms.len() ==> ms[j].0@ != k) ==> member_value(ms, k) == JsonValue::Null,
    decreases ms.len(),
{
    if ms.len() > 0 {
        let rest = ms.drop_first();
        lemma_member_value_first(rest, k);
        assert forall|i: int|
            0 <= i < ms.len() && ms[i].0@ == k && (forall|j: int| 0 <= j < i ==> ms[j].0@ != k)
                implies member_value(ms, k) == #[trigger] ms[i].1 by {
            if i > 0 {
                assert(ms[0].0@ != k);
                assert(rest[i - 1] == ms[i]);
                assert forall|j: int| 0 <= j < i - 1 implies rest[j].0@ != k by {
                    assert(rest[j] == ms[j + 1]);
                }
            }
        }
        if forall|j: int| 0 <= j < ms.len() ==> ms[j].0@ != k {
            assert(ms[0].0@ != k);
            assert forall|j: int| 0 <= j < rest.len() implies rest[j].0@ != k by {
                assert(rest[j] == ms[j + 1]);
            }
        }
    }
}

/// Whether two JSON values are equal.
pub fn json_equal(a: &JsonValue, b: &JsonValue) -> (r: bool)
    ensures
        r == json_eq(*a, *b),
    decreases a,
{
    match a {
        JsonValue::Null => match b {
            JsonValue::Null => true,
            _ => false,
        },
        JsonValue::Bool(x) => match b {
            JsonValue::Bool(y) => *x == *y,
            _ => false,
        },
        JsonValue::Number(x) => match b {
            JsonValue::Number(y) => str_equal(x.as_str(), y.as_str()),
            _ => false,
        },
        JsonValue::Str(x) => match b {
            JsonValue::Str(y) => str_equal(x.as_str(), y.as_str()),
            _ => false,
        },
        JsonValue::Array(xs) => match b {
            JsonValue::Array(ys) => {
                let n = xs.len();
                if n != ys.len() {
                    return false;
                }
                let mut i: usize = 0;
                assert(xs@.take(0) =~= Seq::<JsonValue>::empty());
                assert(ys@.take(0) =~= Seq::<JsonValue>::empty());
                while i < n
                    invariant
                        *a == JsonValue::Array(*xs),
                        *b == JsonValue::Array(*ys),
                        n == xs.len(),
                        n == ys.len(),
                        i <= n,
                        elems_eq(xs@.take(i as int), ys@.take(i as int)),
                    decreases n - i,
                {
                    proof {
                        assert(decreases_to!(*a => (*a)->Array_0));
                        assert(decreases_to!(*xs => xs[i as int]));
                    }
                    if !json_equal(&xs[i], &ys[i]) {
                        proof {
                            if elems_eq(xs@, ys@) {
                                lemma_elems_eq_index(xs@, ys@, i as int);
                            }
                        }
                        return false;
                    }
                    assert(xs@.take(i + 1).drop_last() =~= xs@.take(i as int));
                    assert(ys@.take(i + 1).drop_last() =~= ys@.take(i as int));
                    i = i + 1;
                }
                assert(xs@.take(n as int) =~= xs@);
                assert(ys@.take(n as int) =~= ys@);
                true
            },
            _ => false,
        },
        JsonValue::Object(xs) => match b {
            JsonValue::Object(ys) => {
                let n = xs.len();
                if n != ys.len() {
                    return false;
                }
                let mut i: usize = 0;
                assert(xs@.take(0) =~= Seq::<(String, JsonValue)>::empty());
                assert(ys@.take(0) =~= Seq::<(String, JsonValue)>::empty());
                while i < n
                    invariant
                        *a == JsonValue::Object(*xs),
                        *b == JsonValue::Object(*ys),
                        n == xs.len(),
                        n == ys.len(),
                        i <= n,
                        members_eq(xs@.take(i as int), ys@.take(i as int)),
                    decreases n - i,
                {
                    proof {
                        assert(decreases_to!(*a => (*a)->Object_0));
                        assert(decreases_to!(*xs => xs[i as int]));
                        assert(decreases_to!(xs[i as int] => xs[i as int].1));
                    }
                    let same_key = str_equal(xs[i].0.as_str(), ys[i].0.as_str());
                    if !same_key || !json_equal(&xs[i].1, &ys[i].1) {
                        proof {
                            if members_eq(xs@, ys@) {
                                lemma_members_eq_index(xs@, ys@, i as int);
                            }
                        }
                        return false;
                    }
                    assert(xs@.take(i + 1).drop_last() =~= xs@.take(i as int));
                    assert(ys@.take(i + 1).drop_last() =~= ys@.take(i as int));
                    i = i + 1;
                }
                assert(xs@.take(n as int) =~= xs@);
                assert(ys@.take(n as int) =~= ys@);
                true
            },
            _ => false,
        },
    }
}

/// The value of the member named `k` of the object `v`, if it has one.
pub fn member_of<'a>(v: &'a JsonValue, k: &str) -> (r: Option<&'a JsonValue>)
    ensures
        r matches Some(x) ==> *x == get_or_null(*v, k@) && has_key(*v, k@),
        r is None ==> get_or_null(*v, k@) is Null && !has_key(*v, k@),
{
    match v {
        JsonValue::Object(ms) => {
            let n = ms.len();
            let mut i: usize = 0;
            assert(ms@.skip(0) =~= ms@);
            while i < n
                invariant
                    *v == JsonValue::Object(*ms),
                    n == ms.len(),
                    i <= n,
                    forall|j: int| 0 <= j < i ==> ms[j].0@ != k@,
                    member_value(ms@, k@) == member_value(ms@.skip(i as int), k@),
                decreases n - i,
            {
                if str_equal(ms[i].0.as_str(), k) {
                    assert(ms@.skip(i as int)[0] == ms@[i as int]);
                    return Some(&ms[i].1);
                }
                assert(ms@.skip(i as int).drop_first() =~= ms@.skip(i + 1));
                i = i + 1;
            }
            None
        },
        _ => None,
    }
}

} // verus!
