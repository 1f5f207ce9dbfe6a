//! Bucketing a plan's resource changes by what they do, each bucket in
//! address order.
use vstd::prelude::*;
use crate::categorize::{ActionKind, ActionShape, categorize, shape_of, lemma_shape_meaning,
    lemma_unknown_keeps_actions};
use crate::order::{derefs, sort_by_address, stably_sorted, lemma_stably_sorted_filter,
    lemma_stably_sorted_same_elements};
use crate::plan::{Plan, ResourceChange};

verus! {

/// The resource changes of a plan, grouped by action and ordered by address
/// within each group. A replacement carries whether it creates before it
/// destroys; an unrecognized change carries its actions array.
#[derive(Debug)]
pub struct PlanSummary<'a> {
    pub creates: Vec<&'a ResourceChange>,
    pub updates: Vec<&'a ResourceChange>,
    pub deletes: Vec<&'a ResourceChange>,
    pub replaces: Vec<(&'a ResourceChange, bool)>,
    pub reads: Vec<&'a ResourceChange>,
    pub no_ops: Vec<&'a ResourceChange>,
    pub unknown: Vec<(&'a ResourceChange, Vec<String>)>,
}

/// The shape of a resource change's actions.
pub open spec fn change_shape(r: ResourceChange) -> ActionShape {
    shape_of(r.change.actions.deep_view())
}

pub open spec fn is_create() -> spec_fn(ResourceChange) -> bool {
    |r: ResourceChange| change_shape(r) is Create
}

pub open spec fn is_update() -> spec_fn(ResourceChange) -> bool {
    |r: ResourceChange| change_shape(r) is Update
}

pub open spec fn is_delete() -> spec_fn(ResourceChange) -> bool {
    |r: ResourceChange| change_shape(r) is Delete
}

pub open spec fn is_replace() -> spec_fn(ResourceChange) -> bool {
    |r: ResourceChange| change_shape(r) is Replace
}

pub open spec fn is_read() -> spec_fn(ResourceChange) -> bool {
    |r: ResourceChange| change_shape(r) is Read
}

pub open spec fn is_no_op() -> spec_fn(ResourceChange) -> bool {
    |r: ResourceChange| change_shape(r) is NoOp
}

pub open spec fn is_unknown() -> spec_fn(ResourceChange) -> bool {
    |r: ResourceChange| change_shape(r) is Unknown
}

/// The changes that the first components of `s` point to.
pub open spec fn firsts<X>(s: Seq<(&ResourceChange, X)>) -> Seq<ResourceChange> {
    s.map_values(|p: (&ResourceChange, X)| *p.0)
}

/// `s` groups the changes `t`: each group holds exactly the changes of `t`
/// of its kind, ordered by address, changes with one address in their order
/// in `t`; each replacement carries its order and each unrecognized change
/// its actions.
pub open spec fn is_summary_of(s: PlanSummary, t: Seq<ResourceChange>) -> bool {
    &&& stably_sorted(derefs(s.creates@), t.filter(is_create()))
    &&& stably_sorted(derefs(s.updates@), t.filter(is_update()))
    &&& stably_sorted(derefs(s.deletes@), t.filter(is_delete()))
    &&& stably_sorted(firsts(s.replaces@), t.filter(is_replace()))
    &&& stably_sorted(derefs(s.reads@), t.filter(is_read()))
    &&& stably_sorted(derefs(s.no_ops@), t.filter(is_no_op()))
    &&& stably_sorted(firsts(s.unknown@), t.filter(is_unknown()))
    &&& forall|i: int|
        0 <= i < s.replaces@.len() ==> change_shape(*(#[trigger] s.replaces@[i]).0)
            == (ActionShape::Replace { create_before_destroy: s.replaces@[i].1 })
    &&& forall|i: int|
        0 <= i < s.unknown@.len() ==> change_shape(*(#[trigger] s.unknown@[i]).0)
            == ActionShape::Unknown(s.unknown@[i].1.deep_view())
}

proof fn lemma_bucket_step(
    old_b: Seq<ResourceChange>,
    new_b: Seq<ResourceChange>,
    prefix: Seq<ResourceChange>,
    x: ResourceChange,
    p: spec_fn(ResourceChange) -> bool,
)
    requires
        old_b == prefix.filter(p),
        new_b == (if p(x) { old_b.push(x) } else { old_b }),
    ensures
        new_b == prefix.push(x).filter(p),
{
    prefix.lemma_filter_push(x, p);
}

/// Groups a plan's resource changes by what they do, each group in address
/// order.
pub fn summarize(plan: &Plan) -> (s: PlanSummary<'_>)
    ensures
        is_summary_of(s, plan.resource_changes@),
{
    let sorted = sort_by_address(&plan.resource_changes);
    let ghost ss = derefs(sorted@);
    let mut creates: Vec<&ResourceChange> = Vec::new();
    let mut updates: Vec<&ResourceChange> = Vec::new();
    let mut deletes: Vec<&ResourceChange> = Vec::new();
    let mut replaces: Vec<(&ResourceChange, bool)> = Vec::new();
    let mut reads: Vec<&ResourceChange> = Vec::new();
    let mut no_ops: Vec<&ResourceChange> = Vec::new();
    let mut unknown: Vec<(&ResourceChange, Vec<String>)> = Vec::new();
    let n = sorted.len();
    let mut i: usize = 0;
    proof {
        let e = ss.take(0);
        assert(e =~= Seq::<ResourceChange>::empty());
        reveal(Seq::filter);
        assert(derefs(creates@) =~= e.filter(is_create()));
        assert(derefs(updates@) =~= e.filter(is_update()));
        assert(derefs(deletes@) =~= e.filter(is_delete()));
        assert(firsts(replaces@) =~= e.filter(is_replace()));
        assert(derefs(reads@) =~= e.filter(is_read()));
        assert(derefs(no_ops@) =~= e.filter(is_no_op()));
        assert(firsts(unknown@) =~= e.filter(is_unknown()));
    }
    while i < n
        invariant
            n == sorted.len(),
            ss == derefs(sorted@),
            i <= n,
            derefs(creates@) == ss.take(i as int).filter(is_create()),
            derefs(updates@) == ss.take(i as int).filter(is_update()),
            derefs(deletes@) == ss.take(i as int).filter(is_delete()),
            firsts(replaces@) == ss.take(i as int).filter(is_replace()),
            derefs(reads@) == ss.take(i as int).filter(is_read()),
            derefs(no_ops@) == ss.take(i as int).filter(is_no_op()),
            firsts(unknown@) == ss.take(i as int).filter(is_unknown()),
            forall|j: int|
                0 <= j < replaces@.len() ==> change_shape(*(#[trigger] replaces@[j]).0)
                    == (ActionShape::Replace { create_before_destroy: replaces@[j].1 }),
            forall|j: int|
                0 <= j < unknown@.len() ==> change_shape(*(#[trigger] unknown@[j]).0)
                    == ActionShape::Unknown(unknown@[j].1.deep_view()),
        decreases n - i,
    {
        let rc: &ResourceChange = sorted[i];
        let ghost x = *rc;
        let ghost prefix = ss.take(i as int);
        let ghost (c0, u0, d0, r0, e0, o0, k0) = (
            derefs(creates@),
            derefs(updates@),
            derefs(deletes@),
            firsts(replaces@),
            derefs(reads@),
            derefs(no_ops@),
            firsts(unknown@),
        );
        let actions = rc.change.actions.as_slice();
        assert(actions.deep_view() =~= rc.change.actions.deep_view());
        let kind = categorize(actions);
        assert(kind@ == change_shape(x));
        let ghost replaces_before = replaces@;
        let ghost unknown_before = unknown@;
        match kind {
            ActionKind::Create => creates.push(rc),
            ActionKind::Update => updates.push(rc),
            ActionKind::Delete => deletes.push(rc),
            ActionKind::Replace { create_before_destroy } => replaces.push((rc, create_before_destroy)),
            ActionKind::Read => reads.push(rc),
            ActionKind::NoOp => no_ops.push(rc),
            ActionKind::Unknown(actions) => unknown.push((rc, actions)),
        }
        proof {
            assert(ss[i as int] == x);
            assert(ss.take(i + 1) =~= prefix.push(x));
            if is_create()(x) {
                assert(derefs(creates@) =~= c0.push(x));
            }
            if is_update()(x) {
                assert(derefs(updates@) =~= u0.push(x));
            }
            if is_delete()(x) {
                assert(derefs(deletes@) =~= d0.push(x));
            }
            if is_replace()(x) {
                assert(firsts(replaces@) =~= r0.push(x));
            }
            if is_read()(x) {
                assert(derefs(reads@) =~= e0.push(x));
            }
            if is_no_op()(x) {
                assert(derefs(no_ops@) =~= o0.push(x));
            }
            if is_unknown()(x) {
                assert(firsts(unknown@) =~= k0.push(x));
            }
            lemma_bucket_step(c0, derefs(creates@), prefix, x, is_create());
            lemma_bucket_step(u0, derefs(updates@), prefix, x, is_update());
            lemma_bucket_step(d0, derefs(deletes@), prefix, x, is_delete());
            lemma_bucket_step(r0, firsts(replaces@), prefix, x, is_replace());
            lemma_bucket_step(e0, derefs(reads@), prefix, x, is_read());
            lemma_bucket_step(o0, derefs(no_ops@), prefix, x, is_no_op());
            lemma_bucket_step(k0, firsts(unknown@), prefix, x, is_unknown());
            assert forall|j: int|
                0 <= j < replaces@.len() implies change_shape(*(#[trigger] replaces@[j]).0)
                    == (ActionShape::Replace { create_before_destroy: replaces@[j].1 }) by {
                if j < replaces_before.len() {
                    assert(replaces@[j] == replaces_before[j]);
                }
            }
            assert forall|j: int|
                0 <= j < unknown@.len() implies change_shape(*(#[trigger] unknown@[j]).0)
                    == ActionShape::Unknown(unknown@[j].1.deep_view()) by {
                if j < unknown_before.len() {
                    assert(unknown@[j] == unknown_before[j]);
                }
            }
        }
        i = i + 1;
    }
    let ghost t = plan.resource_changes@;
    proof {
        assert(ss.take(n as int) =~= ss);
        lemma_stably_sorted_filter(ss, t, is_create());
        lemma_stably_sorted_filter(ss, t, is_update());
        lemma_stably_sorted_filter(ss, t, is_delete());
        lemma_stably_sorted_filter(ss, t, is_replace());
        lemma_stably_sorted_filter(ss, t, is_read());
        lemma_stably_sorted_filter(ss, t, is_no_op());
        lemma_stably_sorted_filter(ss, t, is_unknown());
    }
    PlanSummary { creates, updates, deletes, replaces, reads, no_ops, unknown }
}

impl<'a> Default for PlanSummary<'a> {
    /// A summary with every group empty.
    fn default() -> (s: Self)
        ensures
            s.creates@.len() == 0,
            s.updates@.len() == 0,
            s.deletes@.len() == 0,
            s.replaces@.len() == 0,
            s.reads@.len() == 0,
            s.no_ops@.len() == 0,
            s.unknown@.len() == 0,
    {
        PlanSummary {
            creates: Vec::new(),
            updates: Vec::new(),
            deletes: Vec::new(),
            replaces: Vec::new(),
            reads: Vec::new(),
            no_ops: Vec::new(),
            unknown: Vec::new(),
        }
    }
}

impl<'a> PlanSummary<'a> {
    /// Whether any resource would be destroyed and recreated.
    pub fn has_replacements(&self) -> (r: bool)
        ensures
            r == (self.replaces@.len() > 0),
    {
        !self.replaces.is_empty()
    }

    /// Whether any resource would be deleted outright.
    pub fn has_deletes(&self) -> (r: bool)
        ensures
            r == (self.deletes@.len() > 0),
    {
        !self.deletes.is_empty()
    }

    /// The number of resources that would be created, updated, deleted or
    /// replaced.
    pub fn total_actionable(&self) -> (r: usize)
        requires
            self.creates@.len() + self.updates@.len() + self.deletes@.len() + self.replaces@.len()
                <= usize::MAX,
        ensures
            r == self.creates@.len() + self.updates@.len() + self.deletes@.len() + self.replaces@.len(),
    {
        self.creates.len() + self.updates.len() + self.deletes.len() + self.replaces.len()
    }
}

/// Whether a CI gate fails: on any replacement when `fail_on_replace` is
/// set, and on any delete or replacement when `fail_on_destroy` is set.
pub fn should_fail(summary: &PlanSummary, fail_on_replace: bool, fail_on_destroy: bool) -> (r: bool)
    ensures
        r == ((fail_on_replace && summary.replaces@.len() > 0) || (fail_on_destroy && (
        summary.deletes@.len() > 0 || summary.replaces@.len() > 0))),
{
    let mut fail = false;
    if fail_on_replace && summary.has_replacements() {
        fail = true;
    }
    if fail_on_destroy && (summary.has_deletes() || summary.has_replacements()) {
        fail = true;
    }
    fail
}

/// For a summary of a plan, `should_fail` is true exactly when the plan has
/// a replacement and either flag is set, or has a delete and
/// `fail_on_destroy` is set.
pub proof fn lemma_gate_follows_plan(
    s: PlanSummary,
    t: Seq<ResourceChange>,
    fail_on_replace: bool,
    fail_on_destroy: bool,
)
    requires
        is_summary_of(s, t),
    ensures
        ((fail_on_replace && s.replaces@.len() > 0) || (fail_on_destroy && (s.deletes@.len() > 0
            || s.replaces@.len() > 0))) <==> (((fail_on_replace || fail_on_destroy) && exists|i: int|
            0 <= i < t.len() && #[trigger] is_replace()(t[i])) || (fail_on_destroy && exists|i: int|
            0 <= i < t.len() && #[trigger] is_delete()(t[i]))),
{
    lemma_summary_flags(s, t);
}

/// The number of changes in `t` of each kind adds up to the number of
/// changes: every change has exactly one kind.
pub proof fn lemma_kinds_partition(t: Seq<ResourceChange>)
    ensures
        t.filter(is_create()).len() + t.filter(is_update()).len() + t.filter(is_delete()).len()
            + t.filter(is_replace()).len() + t.filter(is_read()).len() + t.filter(is_no_op()).len()
            + t.filter(is_unknown()).len() == t.len(),
    decreases t.len(),
{
    if t.len() == 0 {
        reveal(Seq::filter);
    } else {
        let rest = t.drop_last();
        let x = t.last();
        lemma_kinds_partition(rest);
        assert(t =~= rest.push(x));
        rest.lemma_filter_push(x, is_create());
        rest.lemma_filter_push(x, is_update());
        rest.lemma_filter_push(x, is_delete());
        rest.lemma_filter_push(x, is_replace());
        rest.lemma_filter_push(x, is_read());
        rest.lemma_filter_push(x, is_no_op());
        rest.lemma_filter_push(x, is_unknown());
    }
}

/// A filter keeps something exactly when some element passes it.
pub proof fn lemma_filter_nonempty(t: Seq<ResourceChange>, p: spec_fn(ResourceChange) -> bool)
    ensures
        t.filter(p).len() > 0 <==> exists|i: int| 0 <= i < t.len() && #[trigger] p(t[i]),
{
    t.filter_lemma(p);
    if t.filter(p).len() > 0 {
        let f = t.filter(p);
        assert(f.contains(f[0]));
        t.lemma_filter_contains_rev(p, f[0]);
        let i = choose|i: int| 0 <= i < t.len() && t[i] == f[0];
        assert(p(t[i]));
    }
    if exists|i: int| 0 <= i < t.len() && #[trigger] p(t[i]) {
        let i = choose|i: int| 0 <= i < t.len() && #[trigger] p(t[i]);
        assert(t.filter(p).contains(t[i]));
    }
}

/// Each group of a summary holds as many changes as the plan has of that
/// kind, and the groups together hold every change of the plan once.
pub proof fn lemma_summary_counts(s: PlanSummary, t: Seq<ResourceChange>)
    requires
        is_summary_of(s, t),
    ensures
        s.creates@.len() == t.filter(is_create()).len(),
        s.updates@.len() == t.filter(is_update()).len(),
        s.deletes@.len() == t.filter(is_delete()).len(),
        s.replaces@.len() == t.filter(is_replace()).len(),
        s.reads@.len() == t.filter(is_read()).len(),
        s.no_ops@.len() == t.filter(is_no_op()).len(),
        s.unknown@.len() == t.filter(is_unknown()).len(),
        s.creates@.len() + s.updates@.len() + s.deletes@.len() + s.replaces@.len() + s.reads@.len()
            + s.no_ops@.len() + s.unknown@.len() == t.len(),
{
    lemma_stably_sorted_same_elements(derefs(s.creates@), t.filter(is_create()));
    lemma_stably_sorted_same_elements(derefs(s.updates@), t.filter(is_update()));
    lemma_stably_sorted_same_elements(derefs(s.deletes@), t.filter(is_delete()));
    lemma_stably_sorted_same_elements(firsts(s.replaces@), t.filter(is_replace()));
    lemma_stably_sorted_same_elements(derefs(s.reads@), t.filter(is_read()));
    lemma_stably_sorted_same_elements(derefs(s.no_ops@), t.filter(is_no_op()));
    lemma_stably_sorted_same_elements(firsts(s.unknown@), t.filter(is_unknown()));
    lemma_kinds_partition(t);
}

/// A summary reports replacements exactly when the plan replaces some
/// resource, and deletes exactly when it deletes some resource outright.
pub proof fn lemma_summary_flags(s: PlanSummary, t: Seq<ResourceChange>)
    requires
        is_summary_of(s, t),
    ensures
        s.replaces@.len() > 0 <==> exists|i: int| 0 <= i < t.len() && #[trigger] is_replace()(t[i]),
        s.deletes@.len() > 0 <==> exists|i: int| 0 <= i < t.len() && #[trigger] is_delete()(t[i]),
{
    lemma_summary_counts(s, t);
    lemma_filter_nonempty(t, is_replace());
    lemma_filter_nonempty(t, is_delete());
}

/// The actionable count of a summary never overflows, and is the number of
/// the plan's changes that create, update, delete or replace.
pub proof fn lemma_summary_actionable(s: PlanSummary, t: Seq<ResourceChange>)
    requires
        is_summary_of(s, t),
        t.len() <= usize::MAX,
    ensures
        s.creates@.len() + s.updates@.len() + s.deletes@.len() + s.replaces@.len() <= usize::MAX,
        s.creates@.len() + s.updates@.len() + s.deletes@.len() + s.replaces@.len()
            == t.filter(is_create()).len() + t.filter(is_update()).len() + t.filter(is_delete()).len()
            + t.filter(is_replace()).len(),
{
    lemma_summary_counts(s, t);
}

/// The changes of a group ordered from `t.filter(p)` are exactly those of
/// `t` that pass `p`.
pub proof fn lemma_group_members(r: Seq<ResourceChange>, t: Seq<ResourceChange>, p: spec_fn(ResourceChange) -> bool)
    requires
        stably_sorted(r, t.filter(p)),
    ensures
        forall|i: int| 0 <= i < r.len() ==> #[trigger] p(r[i]),
        forall|j: int| 0 <= j < t.len() && #[trigger] p(t[j]) ==> r.contains(t[j]),
{
    broadcast use vstd::seq_lib::group_to_multiset_ensures;
    lemma_stably_sorted_same_elements(r, t.filter(p));
    t.filter_lemma(p);
    assert forall|i: int| 0 <= i < r.len() implies #[trigger] p(r[i]) by {
        assert(r.contains(r[i]));
        assert(r.to_multiset().count(r[i]) > 0);
        assert(t.filter(p).contains(r[i]));
        let k = choose|k: int| 0 <= k < t.filter(p).len() && t.filter(p)[k] == r[i];
        assert(p(t.filter(p)[k]));
    }
    assert forall|j: int| 0 <= j < t.len() && #[trigger] p(t[j]) implies r.contains(t[j]) by {
        assert(t.filter(p).contains(t[j]));
        assert(t.filter(p).to_multiset().count(t[j]) > 0);
    }
}

/// Each group of a plan's summary holds exactly the changes with its
/// actions array: creates `["create"]`, updates `["update"]`, deletes
/// `["delete"]`, reads `["read"]`, no-ops `["no-op"]`; replacements
/// `["create","delete"]` (marked create-before-destroy) or
/// `["delete","create"]`; unrecognized changes any other array, carried
/// unchanged.
pub proof fn lemma_summary_groups_by_actions(s: PlanSummary, t: Seq<ResourceChange>)
    requires
        is_summary_of(s, t),
    ensures
        forall|i: int| 0 <= i < s.creates@.len() ==> (#[trigger] s.creates@[i]).change.actions.deep_view() == seq!["create"@],
        forall|i: int| 0 <= i < s.updates@.len() ==> (#[trigger] s.updates@[i]).change.actions.deep_view() == seq!["update"@],
        forall|i: int| 0 <= i < s.deletes@.len() ==> (#[trigger] s.deletes@[i]).change.actions.deep_view() == seq!["delete"@],
        forall|i: int| 0 <= i < s.reads@.len() ==> (#[trigger] s.reads@[i]).change.actions.deep_view() == seq!["read"@],
        forall|i: int| 0 <= i < s.no_ops@.len() ==> (#[trigger] s.no_ops@[i]).change.actions.deep_view() == seq!["no-op"@],
        forall|i: int|
            0 <= i < s.replaces@.len() ==> (#[trigger] s.replaces@[i]).0.change.actions.deep_view() == if s.replaces@[i].1 {
                seq!["create"@, "delete"@]
            } else {
                seq!["delete"@, "create"@]
            },
        forall|i: int|
            0 <= i < s.unknown@.len() ==> (#[trigger] s.unknown@[i]).1.deep_view() == s.unknown@[i].0.change.actions.deep_view(),
        forall|j: int| 0 <= j < t.len() && (#[trigger] t[j]).change.actions.deep_view() == seq!["create"@] ==> derefs(s.creates@).contains(t[j]),
        forall|j: int| 0 <= j < t.len() && (#[trigger] t[j]).change.actions.deep_view() == seq!["update"@] ==> derefs(s.updates@).contains(t[j]),
        forall|j: int| 0 <= j < t.len() && (#[trigger] t[j]).change.actions.deep_view() == seq!["delete"@] ==> derefs(s.deletes@).contains(t[j]),
        forall|j: int| 0 <= j < t.len() && (#[trigger] t[j]).change.actions.deep_view() == seq!["read"@] ==> derefs(s.reads@).contains(t[j]),
        forall|j: int| 0 <= j < t.len() && (#[trigger] t[j]).change.actions.deep_view() == seq!["no-op"@] ==> derefs(s.no_ops@).contains(t[j]),
        forall|j: int|
            0 <= j < t.len() && ((#[trigger] t[j]).change.actions.deep_view() == seq!["create"@, "delete"@]
                || t[j].change.actions.deep_view() == seq!["delete"@, "create"@]) ==> firsts(s.replaces@).contains(t[j]),
{
    lemma_group_members(derefs(s.creates@), t, is_create());
    lemma_group_members(derefs(s.updates@), t, is_update());
    lemma_group_members(derefs(s.deletes@), t, is_delete());
    lemma_group_members(derefs(s.reads@), t, is_read());
    lemma_group_members(derefs(s.no_ops@), t, is_no_op());
    lemma_group_members(firsts(s.replaces@), t, is_replace());
    assert forall|i: int| 0 <= i < s.creates@.len() implies (#[trigger] s.creates@[i]).change.actions.deep_view() == seq!["create"@] by {
        assert(is_create()(derefs(s.creates@)[i]));
        lemma_shape_meaning(s.creates@[i].change.actions.deep_view());
    }
    assert forall|i: int| 0 <= i < s.updates@.len() implies (#[trigger] s.updates@[i]).change.actions.deep_view() == seq!["update"@] by {
        assert(is_update()(derefs(s.updates@)[i]));
        lemma_shape_meaning(s.updates@[i].change.actions.deep_view());
    }
    assert forall|i: int| 0 <= i < s.deletes@.len() implies (#[trigger] s.deletes@[i]).change.actions.deep_view() == seq!["delete"@] by {
        assert(is_delete()(derefs(s.deletes@)[i]));
        lemma_shape_meaning(s.deletes@[i].change.actions.deep_view());
    }
    assert forall|i: int| 0 <= i < s.reads@.len() implies (#[trigger] s.reads@[i]).change.actions.deep_view() == seq!["read"@] by {
        assert(is_read()(derefs(s.reads@)[i]));
        lemma_shape_meaning(s.reads@[i].change.actions.deep_view());
    }
    assert forall|i: int| 0 <= i < s.no_ops@.len() implies (#[trigger] s.no_ops@[i]).change.actions.deep_view() == seq!["no-op"@] by {
        assert(is_no_op()(derefs(s.no_ops@)[i]));
        lemma_shape_meaning(s.no_ops@[i].change.actions.deep_view());
    }
    assert forall|i: int|
        0 <= i < s.replaces@.len() implies (#[trigger] s.replaces@[i]).0.change.actions.deep_view() == if s.replaces@[i].1 {
            seq!["create"@, "delete"@]
        } else {
            seq!["delete"@, "create"@]
        } by {
        lemma_shape_meaning(s.replaces@[i].0.change.actions.deep_view());
    }
    assert forall|i: int|
        0 <= i < s.unknown@.len() implies (#[trigger] s.unknown@[i]).1.deep_view() == s.unknown@[i].0.change.actions.deep_view() by {
        lemma_unknown_keeps_actions(s.unknown@[i].0.change.actions.deep_view());
    }
    assert forall|j: int| 0 <= j < t.len() && (#[trigger] t[j]).change.actions.deep_view() == seq!["create"@] implies derefs(s.creates@).contains(t[j]) by {
        lemma_shape_meaning(t[j].change.actions.deep_view());
        assert(is_create()(t[j]));
    }
    assert forall|j: int| 0 <= j < t.len() && (#[trigger] t[j]).change.actions.deep_view() == seq!["update"@] implies derefs(s.updates@).contains(t[j]) by {
        lemma_shape_meaning(t[j].change.actions.deep_view());
        assert(is_update()(t[j]));
    }
    assert forall|j: int| 0 <= j < t.len() && (#[trigger] t[j]).change.actions.deep_view() == seq!["delete"@] implies derefs(s.deletes@).contains(t[j]) by {
        lemma_shape_meaning(t[j].change.actions.deep_view());
        assert(is_delete()(t[j]));
    }
    assert forall|j: int| 0 <= j < t.len() && (#[trigger] t[j]).change.actions.deep_view() == seq!["read"@] implies derefs(s.reads@).contains(t[j]) by {
        lemma_shape_meaning(t[j].change.actions.deep_view());
        assert(is_read()(t[j]));
    }
    assert forall|j: int| 0 <= j < t.len() && (#[trigger] t[j]).change.actions.deep_view() == seq!["no-op"@] implies derefs(s.no_ops@).contains(t[j]) by {
        lemma_shape_meaning(t[j].change.actions.deep_view());
        assert(is_no_op()(t[j]));
    }
    assert forall|j: int|
        0 <= j < t.len() && ((#[trigger] t[j]).change.actions.deep_view() == seq!["create"@, "delete"@]
            || t[j].change.actions.deep_view() == seq!["delete"@, "create"@]) implies firsts(s.replaces@).contains(t[j]) by {
        lemma_shape_meaning(t[j].change.actions.deep_view());
        assert(is_replace()(t[j]));
    }
}

} // verus!
