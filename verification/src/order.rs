//! Resource changes in address order: the stable order by address that the
//! summary's sections use, and what it keeps of the order it starts from.
use vstd::prelude::*;
use vstd::multiset::Multiset;
use crate::plan::ResourceChange;
use crate::text::{str_less, lex_lt, lex_le, lemma_lex_lt_total, lemma_lex_lt_transitive,
    lemma_lex_lt_irreflexive, lemma_lex_le_transitive};

verus! {

/// The resource changes whose address is `k`.
pub open spec fn address_is(k: Seq<char>) -> spec_fn(ResourceChange) -> bool {
    |r: ResourceChange| r.address@ == k
}

/// Addresses never decrease along `s`.
pub open spec fn sorted_by_address(s: Seq<ResourceChange>) -> bool {
    forall|i: int, j: int| 0 <= i < j < s.len() ==> lex_le(#[trigger] s[i].address@, #[trigger] s[j].address@)
}

/// `r` is `t` ordered by address, where changes with the same address keep
/// the order they have in `t`.
pub open spec fn stably_sorted(r: Seq<ResourceChange>, t: Seq<ResourceChange>) -> bool {
    &&& sorted_by_address(r)
    &&& forall|k: Seq<char>| #[trigger] r.filter(address_is(k)) == t.filter(address_is(k))
}

/// The changes that references point to.
pub open spec fn derefs(s: Seq<&ResourceChange>) -> Seq<ResourceChange> {
    s.map_values(|r: &ResourceChange| *r)
}

proof fn lemma_filter_empty_all_fail(s: Seq<ResourceChange>, p: spec_fn(ResourceChange) -> bool)
    requires
        forall|i: int| 0 <= i < s.len() ==> !p(#[trigger] s[i]),
    ensures
        s.filter(p) == Seq::<ResourceChange>::empty(),
{
    s.lemma_all_neg_filter_empty(p);
    assert(s.filter(p) =~= Seq::<ResourceChange>::empty());
}

/// Filtering keeps the address order.
pub proof fn lemma_filter_sorted(s: Seq<ResourceChange>, p: spec_fn(ResourceChange) -> bool)
    requires
        sorted_by_address(s),
    ensures
        sorted_by_address(s.filter(p)),
    decreases s.len(),
{
    reveal(Seq::filter);
    if s.len() > 0 {
        let rest = s.drop_last();
        assert(sorted_by_address(rest)) by {
            assert forall|i: int, j: int| 0 <= i < j < rest.len() implies lex_le(
                #[trigger] rest[i].address@,
                #[trigger] rest[j].address@,
            ) by {
                assert(rest[i] == s[i] && rest[j] == s[j]);
            }
        }
        lemma_filter_sorted(rest, p);
        if p(s.last()) {
            let f = rest.filter(p);
            let g = f.push(s.last());
            assert forall|i: int, j: int| 0 <= i < j < g.len() implies lex_le(
                #[trigger] g[i].address@,
                #[trigger] g[j].address@,
            ) by {
                if j == g.len() - 1 {
                    assert(g[i] == f[i]);
                    assert(f.contains(f[i]));
                    rest.lemma_filter_contains_rev(p, f[i]);
                    let m = choose|m: int| 0 <= m < rest.len() && rest[m] == f[i];
                    assert(rest[m] == s[m]);
                    assert(lex_le(s[m].address@, s[s.len() - 1].address@));
                } else {
                    assert(g[i] == f[i] && g[j] == f[j]);
                }
            }
        }
    }
}

/// Filtering by two predicates in either order gives the same sequence.
pub proof fn lemma_filter_commutes(
    s: Seq<ResourceChange>,
    p: spec_fn(ResourceChange) -> bool,
    q: spec_fn(ResourceChange) -> bool,
)
    ensures
        s.filter(p).filter(q) == s.filter(q).filter(p),
    decreases s.len(),
{
    if s.len() > 0 {
        let rest = s.drop_last();
        let x = s.last();
        lemma_filter_commutes(rest, p, q);
        assert(s =~= rest.push(x));
        rest.lemma_filter_push(x, p);
        rest.lemma_filter_push(x, q);
        rest.filter(p).lemma_filter_push(x, q);
        rest.filter(q).lemma_filter_push(x, p);
    } else {
        reveal(Seq::filter);
    }
}

/// The stable order by address commutes with filtering.
pub proof fn lemma_stably_sorted_filter(
    r: Seq<ResourceChange>,
    t: Seq<ResourceChange>,
    p: spec_fn(ResourceChange) -> bool,
)
    requires
        stably_sorted(r, t),
    ensures
        stably_sorted(r.filter(p), t.filter(p)),
{
    lemma_filter_sorted(r, p);
    assert forall|k: Seq<char>| #[trigger] r.filter(p).filter(address_is(k)) == t.filter(p).filter(
        address_is(k),
    ) by {
        lemma_filter_commutes(r, p, address_is(k));
        lemma_filter_commutes(t, p, address_is(k));
        assert(r.filter(address_is(k)) == t.filter(address_is(k)));
    }
}

proof fn lemma_filter_count(s: Seq<ResourceChange>, p: spec_fn(ResourceChange) -> bool, x: ResourceChange)
    ensures
        s.filter(p).to_multiset().count(x) == if p(x) { s.to_multiset().count(x) } else { 0 },
    decreases s.len(),
{
    broadcast use vstd::multiset::group_multiset_axioms;
    broadcast use vstd::seq_lib::group_to_multiset_ensures;
    if s.len() == 0 {
        reveal(Seq::filter);
        assert(s.filter(p).len() == 0);
    } else {
        let rest = s.drop_last();
        let y = s.last();
        lemma_filter_count(rest, p, x);
        assert(s =~= rest.push(y));
        rest.lemma_filter_push(y, p);
    }
}

/// Ordering by address keeps every change: it is a permutation.
pub proof fn lemma_stably_sorted_same_elements(r: Seq<ResourceChange>, t: Seq<ResourceChange>)
    requires
        stably_sorted(r, t),
    ensures
        r.to_multiset() == t.to_multiset(),
        r.len() == t.len(),
{
    assert forall|x: ResourceChange| r.to_multiset().count(x) == t.to_multiset().count(x) by {
        let k = x.address@;
        lemma_filter_count(r, address_is(k), x);
        lemma_filter_count(t, address_is(k), x);
        assert(r.filter(address_is(k)) == t.filter(address_is(k)));
    }
    assert(r.to_multiset() =~= t.to_multiset());
    vstd::seq_lib::to_multiset_len(r);
    vstd::seq_lib::to_multiset_len(t);
}

/// Inserting the next change after every change whose address is not
/// greater than its own extends the stable order by one element.
proof fn lemma_insert_keeps_stable(
    r: Seq<ResourceChange>,
    t: Seq<ResourceChange>,
    p: int,
    x: ResourceChange,
)
    requires
        stably_sorted(r, t),
        0 <= p <= r.len(),
        forall|j: int| 0 <= j < p ==> lex_le(#[trigger] r[j].address@, x.address@),
        forall|j: int| p <= j < r.len() ==> lex_lt(x.address@, #[trigger] r[j].address@),
    ensures
        stably_sorted(r.insert(p, x), t.push(x)),
{
    let n = r.insert(p, x);
    assert forall|i: int, j: int| 0 <= i < j < n.len() implies lex_le(
        #[trigger] n[i].address@,
        #[trigger] n[j].address@,
    ) by {
        if j < p {
            assert(n[i] == r[i] && n[j] == r[j]);
        } else if j == p {
            assert(n[i] == r[i]);
        } else if i < p {
            assert(n[i] == r[i] && n[j] == r[j - 1]);
            lemma_lex_le_transitive(r[i].address@, x.address@, r[j - 1].address@);
        } else if i == p {
            assert(n[j] == r[j - 1]);
        } else {
            assert(n[i] == r[i - 1] && n[j] == r[j - 1]);
        }
    }
    let front = r.take(p);
    let back = r.skip(p);
    assert(r =~= front + back);
    assert(n =~= front + seq![x] + back);
    assert forall|k: Seq<char>| #[trigger] n.filter(address_is(k)) == t.push(x).filter(address_is(k)) by {
        let a = address_is(k);
        let ff = front.filter(a);
        let bf = back.filter(a);
        Seq::filter_distributes_over_add(front, back, a);
        Seq::filter_distributes_over_add(front + seq![x], back, a);
        Seq::filter_distributes_over_add(front, seq![x], a);
        t.lemma_filter_push(x, a);
        Seq::<ResourceChange>::empty().lemma_filter_push(x, a);
        assert(seq![x] =~= Seq::<ResourceChange>::empty().push(x));
        assert(Seq::<ResourceChange>::empty().filter(a) =~= Seq::<ResourceChange>::empty()) by {
            reveal(Seq::filter);
        }
        assert(r.filter(a) == t.filter(a));
        assert(r.filter(a) == ff + bf);
        assert(n.filter(a) == ff + seq![x].filter(a) + bf);
        if x.address@ == k {
            assert forall|j: int| 0 <= j < back.len() implies !a(#[trigger] back[j]) by {
                assert(back[j] == r[p + j]);
                lemma_lex_lt_irreflexive(k);
            }
            lemma_filter_empty_all_fail(back, a);
            assert(seq![x].filter(a) =~= seq![x]);
            assert(ff + seq![x] + bf =~= (ff + bf).push(x));
        } else {
            assert(seq![x].filter(a) =~= Seq::<ResourceChange>::empty());
            assert(ff + Seq::<ResourceChange>::empty() + bf =~= ff + bf);
        }
    }
}

/// References to the changes of `items`, ordered by address; changes with
/// the same address keep their order in `items`.
pub fn sort_by_address<'a>(items: &'a Vec<ResourceChange>) -> (r: Vec<&'a ResourceChange>)
    ensures
        stably_sorted(derefs(r@), items@),
{
    let mut sorted: Vec<&'a ResourceChange> = Vec::new();
    let n = items.len();
    let mut i: usize = 0;
    assert(derefs(sorted@) =~= items@.take(0));
    while i < n
        invariant
            n == items.len(),
            i <= n,
            stably_sorted(derefs(sorted@), items@.take(i as int)),
        decreases n - i,
    {
        let x = &items[i];
        let ghost before = derefs(sorted@);
        let m = sorted.len();
        let mut p: usize = 0;
        while p < m && !str_less(x.address.as_str(), sorted[p].address.as_str())
            invariant
                m == sorted.len(),
                before == derefs(sorted@),
                *x == items@[i as int],
                p <= m,
                forall|j: int| 0 <= j < p ==> lex_le(#[trigger] before[j].address@, x.address@),
            decreases m - p,
        {
            proof {
                lemma_lex_lt_total(x.address@, before[p as int].address@);
            }
            p = p + 1;
        }
        proof {
            assert forall|j: int| p <= j < before.len() implies lex_lt(x.address@, #[trigger] before[j].address@) by {
                assert(lex_lt(x.address@, before[p as int].address@));
                if j > p {
                    assert(lex_le(before[p as int].address@, before[j].address@));
                    if before[p as int].address@ != before[j].address@ {
                        lemma_lex_lt_transitive(x.address@, before[p as int].address@, before[j].address@);
                    }
                }
            }
            lemma_insert_keeps_stable(before, items@.take(i as int), p as int, *x);
        }
        sorted.insert(p, x);
        assert(derefs(sorted@) =~= before.insert(p as int, *x));
        assert(items@.take(i + 1) =~= items@.take(i as int).push(items@[i as int]));
        i = i + 1;
    }
    assert(items@.take(n as int) =~= items@);
    sorted
}

} // verus!
