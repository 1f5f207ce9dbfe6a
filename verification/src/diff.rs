//! The shallow "what changed" hint for an update: the top-level object keys
//! whose value differs between `before` and `after`.
use vstd::prelude::*;
use crate::json::{JsonValue, json_eq, json_equal, lemma_json_eq_reflexive, lemma_json_eq_symmetric, has_key, get_or_null, member_of, members};
use crate::text::{lex_lt, str_less, str_equal, lemma_lex_lt_total, lemma_lex_lt_transitive,
    lemma_lex_lt_irreflexive, lemma_lex_lt_asymmetric};

verus! {

/// Each element orders strictly before the next: sorted, each once.
pub open spec fn strictly_sorted(s: Seq<Seq<char>>) -> bool {
    forall|i: int, j: int| 0 <= i < j < s.len() ==> #[trigger] lex_lt(s[i], s[j])
}

/// `k` is a top-level key of `before` or `after` whose values differ, a
/// missing member counting as `null`.
pub open spec fn key_changed(before: JsonValue, after: JsonValue, k: Seq<char>) -> bool {
    &&& has_key(before, k) || has_key(after, k)
    &&& !json_eq(get_or_null(before, k), get_or_null(after, k))
}

/// `s` lists, sorted and each once, exactly the keys that changed.
pub open spec fn lists_changed_keys(before: JsonValue, after: JsonValue, s: Seq<Seq<char>>) -> bool {
    &&& strictly_sorted(s)
    &&& forall|k: Seq<char>| s.contains(k) <==> key_changed(before, after, k)
}

/// The changed top-level keys of `before` and `after`, in order.
pub open spec fn changed_keys(before: JsonValue, after: JsonValue) -> Seq<Seq<char>> {
    choose|s: Seq<Seq<char>>| lists_changed_keys(before, after, s)
}

/// Two strictly sorted sequences with the same elements are equal.
pub proof fn lemma_strictly_sorted_unique(a: Seq<Seq<char>>, b: Seq<Seq<char>>)
    requires
        strictly_sorted(a),
        strictly_sorted(b),
        forall|k: Seq<char>| a.contains(k) <==> b.contains(k),
    ensures
        a == b,
    decreases a.len(),
{
    if a.len() == 0 {
        if b.len() > 0 {
            assert(b.contains(b[0]));
        }
        assert(a =~= b);
    } else {
        assert(a.contains(a[0]));
        assert(b.len() > 0);
        assert(b.contains(b[0]));
        let i = choose|i: int| 0 <= i < b.len() && b[i] == a[0];
        let j = choose|j: int| 0 <= j < a.len() && a[j] == b[0];
        if i > 0 {
            assert(lex_lt(b[0], b[i]));
            if j > 0 {
                assert(lex_lt(a[0], a[j]));
                lemma_lex_lt_asymmetric(a[0], b[0]);
            } else {
                lemma_lex_lt_irreflexive(a[0]);
            }
        }
        assert(a[0] == b[0]);
        let a1 = a.drop_first();
        let b1 = b.drop_first();
        assert forall|k: Seq<char>| a1.contains(k) <==> b1.contains(k) by {
            if a1.contains(k) {
                let p = choose|p: int| 0 <= p < a1.len() && a1[p] == k;
                assert(a[p + 1] == k);
                assert(lex_lt(a[0], a[p + 1]));
                lemma_lex_lt_irreflexive(k);
                assert(b.contains(k));
                let q = choose|q: int| 0 <= q < b.len() && b[q] == k;
                assert(q != 0);
                assert(b1[q - 1] == k);
            }
            if b1.contains(k) {
                let p = choose|p: int| 0 <= p < b1.len() && b1[p] == k;
                assert(b[p + 1] == k);
                assert(lex_lt(b[0], b[p + 1]));
                lemma_lex_lt_irreflexive(k);
                assert(a.contains(k));
                let q = choose|q: int| 0 <= q < a.len() && a[q] == k;
                assert(q != 0);
                assert(a1[q - 1] == k);
            }
        }
        lemma_strictly_sorted_unique(a1, b1);
        assert(a =~= seq![a[0]] + a1);
        assert(b =~= seq![b[0]] + b1);
    }
}

/// An element is in `s.push(x)` exactly when it is `x` or in `s`.
pub proof fn lemma_push_contains<A>(s: Seq<A>, x: A, y: A)
    ensures
        s.push(x).contains(y) == (s.contains(y) || y == x),
{
    if s.contains(y) {
        let p = choose|p: int| 0 <= p < s.len() && s[p] == y;
        assert(s.push(x)[p] == y);
    }
    if y == x {
        assert(s.push(x)[s.len() as int] == y);
    }
    if s.push(x).contains(y) {
        let p = choose|p: int| 0 <= p < s.push(x).len() && s.push(x)[p] == y;
        if p < s.len() {
            assert(s[p] == y);
        }
    }
}

/// The keys of an object's members, in order.
pub open spec fn member_names(ms: Seq<(String, JsonValue)>) -> Seq<Seq<char>> {
    ms.map_values(|m: (String, JsonValue)| m.0@)
}

/// Adds `k` to a sorted list of keys, unless it is there already.
fn insert_key(keys: &mut Vec<String>, k: &String)
    requires
        strictly_sorted(old(keys).deep_view()),
    ensures
        strictly_sorted(final(keys).deep_view()),
        final(keys).deep_view().to_set() == old(keys).deep_view().to_set().insert(k@),
{
    let ghost old_v = keys.deep_view();
    let n = keys.len();
    let mut i: usize = 0;
    while i < n && str_less(keys[i].as_str(), k.as_str())
        invariant
            n == keys.len(),
            keys.deep_view() == old_v,
            i <= n,
            forall|j: int| 0 <= j < i ==> lex_lt(#[trigger] old_v[j], k@),
        decreases n - i,
    {
        i = i + 1;
    }
    if i < n && str_equal(keys[i].as_str(), k.as_str()) {
        assert(old_v[i as int] == k@);
        assert(old_v.contains(k@));
        assert(old_v.to_set() =~= old_v.to_set().insert(k@));
        return;
    }
    proof {
        if i < n {
            lemma_lex_lt_total(old_v[i as int], k@);
        }
    }
    keys.insert(i, k.clone());
    let ghost new_v = keys.deep_view();
    assert(new_v =~= old_v.insert(i as int, k@));
    assert forall|a: int, b: int| 0 <= a < b < new_v.len() implies #[trigger] lex_lt(new_v[a], new_v[b]) by {
        if b < i {
        } else if b == i {
        } else if a < i {
            assert(lex_lt(old_v[a], k@));
            assert(lex_lt(k@, old_v[i as int]));
            if b - 1 > i {
                assert(lex_lt(old_v[i as int], old_v[b - 1]));
                lemma_lex_lt_transitive(k@, old_v[i as int], old_v[b - 1]);
            }
            lemma_lex_lt_transitive(old_v[a], k@, old_v[b - 1]);
        } else if a == i {
            if b - 1 > i {
                assert(lex_lt(old_v[i as int], old_v[b - 1]));
                lemma_lex_lt_transitive(k@, old_v[i as int], old_v[b - 1]);
            }
        } else {
            assert(lex_lt(old_v[a - 1], old_v[b - 1]));
        }
    }
    assert forall|s: Seq<char>| new_v.to_set().contains(s) <==> old_v.to_set().insert(k@).contains(s) by {
        if new_v.contains(s) {
            let p = choose|p: int| 0 <= p < new_v.len() && new_v[p] == s;
            if p < i {
                assert(old_v[p] == s);
            } else if p > i {
                assert(old_v[p - 1] == s);
            }
        }
        if old_v.contains(s) {
            let p = choose|p: int| 0 <= p < old_v.len() && old_v[p] == s;
            if p < i {
                assert(new_v[p] == s);
            } else {
                assert(new_v[p + 1] == s);
            }
        }
        if s == k@ {
            assert(new_v[i as int] == s);
        }
    }
    assert(new_v.to_set() =~= old_v.to_set().insert(k@));
}

/// The keys of the members of `v`, if it is an object.
pub open spec fn key_set(v: JsonValue) -> Set<Seq<char>> {
    Set::new(|k: Seq<char>| has_key(v, k))
}

/// Adds the top-level keys of `v` to a sorted list of keys.
fn add_member_keys(keys: &mut Vec<String>, v: &JsonValue)
    requires
        strictly_sorted(old(keys).deep_view()),
    ensures
        strictly_sorted(final(keys).deep_view()),
        final(keys).deep_view().to_set() == old(keys).deep_view().to_set().union(key_set(*v)),
{
    let ghost old_v = keys.deep_view();
    match v {
        JsonValue::Object(ms) => {
            let ghost names = member_names(ms@);
            let n = ms.len();
            let mut i: usize = 0;
            assert(names.take(0).to_set() =~= Set::<Seq<char>>::empty());
            assert(old_v.to_set() =~= old_v.to_set().union(Set::empty()));
            while i < n
                invariant
                    *v == JsonValue::Object(*ms),
                    names == member_names(ms@),
                    n == ms.len(),
                    i <= n,
                    strictly_sorted(keys.deep_view()),
                    keys.deep_view().to_set() == old_v.to_set().union(names.take(i as int).to_set()),
                decreases n - i,
            {
                insert_key(keys, &ms[i].0);
                proof {
                    assert(names[i as int] == ms@[i as int].0@);
                    assert(names.take(i + 1) =~= names.take(i as int).push(names[i as int]));
                    names.take(i as int).lemma_push_to_set_commute(names[i as int]);
                    assert(keys.deep_view().to_set() =~= old_v.to_set().union(names.take(i + 1).to_set()));
                }
                i = i + 1;
            }
            assert(names.take(n as int) =~= names);
            assert forall|s: Seq<char>| key_set(*v).contains(s) <==> names.to_set().contains(s) by {
                if has_key(*v, s) {
                    let j = choose|j: int| 0 <= j < members(*v).len() && #[trigger] members(*v)[j].0@ == s;
                    assert(names[j] == s);
                }
                if names.contains(s) {
                    let j = choose|j: int| 0 <= j < names.len() && names[j] == s;
                    assert(members(*v)[j].0@ == s);
                }
            }
            assert(key_set(*v) =~= names.to_set());
        },
        _ => {
            assert(key_set(*v) =~= Set::empty());
            assert(old_v.to_set() =~= old_v.to_set().union(Set::empty()));
        },
    }
}

/// The top-level object keys whose value differs between `before` and
/// `after`, sorted: keys added, removed or changed. A shallow hint, not a
/// deep diff: a change anywhere inside a member marks that member's key.
pub fn changed_top_level_keys(before: &JsonValue, after: &JsonValue) -> (r: Vec<String>)
    ensures
        lists_changed_keys(*before, *after, r.deep_view()),
        r.deep_view() == changed_keys(*before, *after),
{
    let mut keys: Vec<String> = Vec::new();
    assert(keys.deep_view().to_set() =~= Set::<Seq<char>>::empty());
    add_member_keys(&mut keys, before);
    add_member_keys(&mut keys, after);
    let ghost kv = keys.deep_view();
    assert forall|s: Seq<char>| kv.contains(s) <==> (has_key(*before, s) || has_key(*after, s)) by {
        assert(kv.to_set().contains(s) == kv.contains(s));
    }
    let null = JsonValue::Null;
    let mut changed: Vec<String> = Vec::new();
    let n = keys.len();
    let mut i: usize = 0;
    while i < n
        invariant
            n == keys.len(),
            kv == keys.deep_view(),
            null == JsonValue::Null,
            strictly_sorted(kv),
            forall|s: Seq<char>| kv.contains(s) <==> (has_key(*before, s) || has_key(*after, s)),
            i <= n,
            strictly_sorted(changed.deep_view()),
            i < n ==> forall|j: int|
                0 <= j < changed.deep_view().len() ==> lex_lt(#[trigger] changed.deep_view()[j], kv[i as int]),
            forall|s: Seq<char>|
                changed.deep_view().contains(s) <==> (kv.take(i as int).contains(s) && key_changed(*before, *after, s)),
        decreases n - i,
    {
        let k = keys[i].as_str();
        let bv = match member_of(before, k) {
            Some(x) => x,
            None => &null,
        };
        let av = match member_of(after, k) {
            Some(x) => x,
            None => &null,
        };
        let ghost old_c = changed.deep_view();
        let same = json_equal(bv, av);
        assert(kv.contains(kv[i as int]));
        assert(kv.take(i + 1) =~= kv.take(i as int).push(kv[i as int]));
        if !same {
            changed.push(keys[i].clone());
            assert(changed.deep_view() =~= old_c.push(kv[i as int]));
        }
        proof {
            let c = changed.deep_view();
            let t0 = kv.take(i as int);
            let t1 = kv.take(i + 1);
            let ki = kv[i as int];
            assert(t0.contains(ki) == false) by {
                if t0.contains(ki) {
                    let p = choose|p: int| 0 <= p < t0.len() && t0[p] == ki;
                    assert(lex_lt(kv[p], kv[i as int]));
                    lemma_lex_lt_irreflexive(ki);
                }
            }
            assert(key_changed(*before, *after, ki) == !same);
            assert forall|s: Seq<char>|
                c.contains(s) <==> (t1.contains(s) && key_changed(*before, *after, s)) by {
                lemma_push_contains(t0, ki, s);
                if !same {
                    lemma_push_contains(old_c, ki, s);
                }
            }
            assert forall|a: int, b: int| 0 <= a < b < c.len() implies #[trigger] lex_lt(c[a], c[b]) by {
                if !same && b == c.len() - 1 {
                    assert(lex_lt(old_c[a], kv[i as int]));
                } else {
                    assert(lex_lt(old_c[a], old_c[b]));
                }
            }
            if i + 1 < n {
                assert(lex_lt(kv[i as int], kv[i + 1]));
                assert forall|j: int| 0 <= j < c.len() implies lex_lt(#[trigger] c[j], kv[i + 1]) by {
                    if !same && j == c.len() - 1 {
                    } else {
                        assert(lex_lt(old_c[j], kv[i as int]));
                        lemma_lex_lt_transitive(old_c[j], kv[i as int], kv[i + 1]);
                    }
                }
            }
        }
        i = i + 1;
    }
    assert(kv.take(n as int) =~= kv);
    proof {
        let c = changed.deep_view();
        assert(lists_changed_keys(*before, *after, c));
        let chosen = changed_keys(*before, *after);
        assert(lists_changed_keys(*before, *after, chosen));
        lemma_strictly_sorted_unique(c, chosen);
    }
    changed
}

/// The keys that changed from `before` to `after` are those that changed
/// from `after` to `before`.
pub proof fn lemma_changed_keys_symmetric(before: JsonValue, after: JsonValue, s: Seq<Seq<char>>)
    ensures
        lists_changed_keys(before, after, s) == lists_changed_keys(after, before, s),
{
    assert forall|k: Seq<char>| key_changed(before, after, k) == key_changed(after, before, k) by {
        lemma_json_eq_symmetric(get_or_null(before, k), get_or_null(after, k));
    }
}

/// A value compared with itself has no changed keys.
pub proof fn lemma_changed_keys_of_same_value(v: JsonValue, s: Seq<Seq<char>>)
    ensures
        lists_changed_keys(v, v, s) <==> s.len() == 0,
{
    assert forall|k: Seq<char>| !key_changed(v, v, k) by {
        lemma_json_eq_reflexive(get_or_null(v, k));
    }
    if s.len() > 0 {
        assert(s.contains(s[0]));
    }
}

} // verus!
