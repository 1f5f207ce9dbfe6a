//! Naming the action shapes of a resource change. Every change in a real
//! plan is one of a handful of documented action arrays; anything else is
//! reported as it is rather than guessed at.
use vstd::prelude::*;
use crate::text::str_equal;

verus! {

/// What a resource change does, named from its `change.actions` array.
#[derive(Debug, Clone, PartialEq, Eq)]
pub enum ActionKind {
    Create,
    Update,
    Delete,
    /// A replace. `create_before_destroy` is `true` for the
    /// `["create","delete"]` ordering, `false` for the default
    /// `["delete","create"]`.
    Replace { create_before_destroy: bool },
    Read,
    NoOp,
    /// Any actions array that is not one of the documented shapes, kept as
    /// it was found, since a later Terraform could add a shape not known here.
    Unknown(Vec<String>),
}

/// The meaning of an `ActionKind`, with the actions of `Unknown` as text.
pub enum ActionShape {
    Create,
    Update,
    Delete,
    Replace { create_before_destroy: bool },
    Read,
    NoOp,
    Unknown(Seq<Seq<char>>),
}

impl View for ActionKind {
    type V = ActionShape;

    open spec fn view(&self) -> ActionShape {
        match self {
            ActionKind::Create => ActionShape::Create,
            ActionKind::Update => ActionShape::Update,
            ActionKind::Delete => ActionShape::Delete,
            ActionKind::Replace { create_before_destroy } => ActionShape::Replace {
                create_before_destroy: *create_before_destroy,
            },
            ActionKind::Read => ActionShape::Read,
            ActionKind::NoOp => ActionShape::NoOp,
            ActionKind::Unknown(actions) => ActionShape::Unknown(actions.deep_view()),
        }
    }
}

/// The shape of an actions array: one of the seven documented arrays, or
/// `Unknown` with the array itself.
pub open spec fn shape_of(actions: Seq<Seq<char>>) -> ActionShape {
    if actions == seq!["create"@] {
        ActionShape::Create
    } else if actions == seq!["update"@] {
        ActionShape::Update
    } else if actions == seq!["delete"@] {
        ActionShape::Delete
    } else if actions == seq!["read"@] {
        ActionShape::Read
    } else if actions == seq!["no-op"@] {
        ActionShape::NoOp
    } else if actions == seq!["delete"@, "create"@] {
        ActionShape::Replace { create_before_destroy: false }
    } else if actions == seq!["create"@, "delete"@] {
        ActionShape::Replace { create_before_destroy: true }
    } else {
        ActionShape::Unknown(actions)
    }
}

proof fn lemma_action_words_differ()
    ensures
        "create"@ != "update"@,
        "create"@ != "delete"@,
        "create"@ != "read"@,
        "create"@ != "no-op"@,
        "update"@ != "delete"@,
        "update"@ != "read"@,
        "update"@ != "no-op"@,
        "delete"@ != "read"@,
        "delete"@ != "no-op"@,
        "read"@ != "no-op"@,
{
    reveal_strlit("create");
    reveal_strlit("update");
    reveal_strlit("delete");
    reveal_strlit("read");
    reveal_strlit("no-op");
    assert("create"@[0] != "update"@[0]);
    assert("create"@[0] != "delete"@[0]);
    assert("create"@.len() != "read"@.len());
    assert("create"@.len() != "no-op"@.len());
    assert("update"@[0] != "delete"@[0]);
    assert("update"@.len() != "read"@.len());
    assert("update"@.len() != "no-op"@.len());
    assert("delete"@.len() != "read"@.len());
    assert("delete"@.len() != "no-op"@.len());
    assert("read"@.len() != "no-op"@.len());
}

fn copy_strings(v: &[String]) -> (r: Vec<String>)
    ensures
        r.deep_view() == v.deep_view(),
{
    let mut r: Vec<String> = Vec::new();
    let n = v.len();
    let mut i: usize = 0;
    while i < n
        invariant
            n == v@.len(),
            i <= n,
            r.deep_view() =~= v.deep_view().take(i as int),
        decreases n - i,
    {
        let c = v[i].clone();
        r.push(c);
        assert(v.deep_view().take(i + 1) =~= v.deep_view().take(i as int).push(v@[i as int]@));
        i = i + 1;
    }
    r
}

/// Names the shape of an actions array.
pub fn categorize(actions: &[String]) -> (r: ActionKind)
    ensures
        r@ == shape_of(actions.deep_view()),
{
    let ghost a = actions.deep_view();
    proof {
        lemma_action_words_differ();
        assert(seq!["create"@][0] == "create"@);
        assert(seq!["update"@][0] == "update"@);
        assert(seq!["delete"@][0] == "delete"@);
        assert(seq!["read"@][0] == "read"@);
        assert(seq!["no-op"@][0] == "no-op"@);
        assert(seq!["delete"@, "create"@][0] == "delete"@);
        assert(seq!["create"@, "delete"@][0] == "create"@);
        assert(seq!["delete"@, "create"@][1] == "create"@);
        assert(seq!["create"@, "delete"@][1] == "delete"@);
    }
    let n = actions.len();
    assert(a.len() == n);
    assert(seq!["create"@].len() == 1 && seq!["update"@].len() == 1);
    if n == 1 {
        let w = actions[0].as_str();
        assert(a =~= seq![actions@[0]@]);
        if str_equal(w, "create") {
            return ActionKind::Create;
        } else if str_equal(w, "update") {
            return ActionKind::Update;
        } else if str_equal(w, "delete") {
            return ActionKind::Delete;
        } else if str_equal(w, "read") {
            return ActionKind::Read;
        } else if str_equal(w, "no-op") {
            return ActionKind::NoOp;
        }

    } else if n == 2 {
        let w0 = actions[0].as_str();
        let w1 = actions[1].as_str();
        assert(a =~= seq![actions@[0]@, actions@[1]@]);
        if str_equal(w0, "delete") && str_equal(w1, "create") {
            return ActionKind::Replace { create_before_destroy: false };
        } else if str_equal(w0, "create") && str_equal(w1, "delete") {
            return ActionKind::Replace { create_before_destroy: true };
        }

    }
    ActionKind::Unknown(copy_strings(actions))
}

/// An actions array is reported as unrecognized exactly when it is none of
/// the documented shapes, and then it is reported unchanged.
pub proof fn lemma_unknown_keeps_actions(actions: Seq<Seq<char>>)
    ensures
        shape_of(actions) is Unknown <==> !(actions == seq!["create"@] || actions == seq!["update"@]
            || actions == seq!["delete"@] || actions == seq!["read"@] || actions == seq!["no-op"@]
            || actions == seq!["delete"@, "create"@] || actions == seq!["create"@, "delete"@]),
        shape_of(actions) is Unknown ==> shape_of(actions) == ActionShape::Unknown(actions),
{
}

/// The two orders of a replacement are told apart.
pub proof fn lemma_replace_orders_differ()
    ensures
        shape_of(seq!["delete"@, "create"@]) == (ActionShape::Replace { create_before_destroy: false }),
        shape_of(seq!["create"@, "delete"@]) == (ActionShape::Replace { create_before_destroy: true }),
{
    lemma_action_words_differ();
    assert(seq!["delete"@, "create"@][0] == "delete"@);
    assert(seq!["create"@, "delete"@][0] == "create"@);
    assert(seq!["create"@, "delete"@][1] == "delete"@);
    assert(seq!["delete"@, "create"@].len() == 2);
    assert(seq!["create"@, "delete"@].len() == 2);
}

/// Each kind names exactly one actions array: `["create"]`, `["update"]`,
/// `["delete"]`, `["read"]`, `["no-op"]`, and for a replacement
/// `["create","delete"]` when it creates before it destroys and
/// `["delete","create"]` otherwise.
pub proof fn lemma_shape_meaning(actions: Seq<Seq<char>>)
    ensures
        shape_of(actions) is Create <==> actions == seq!["create"@],
        shape_of(actions) is Update <==> actions == seq!["update"@],
        shape_of(actions) is Delete <==> actions == seq!["delete"@],
        shape_of(actions) is Read <==> actions == seq!["read"@],
        shape_of(actions) is NoOp <==> actions == seq!["no-op"@],
        shape_of(actions) == (ActionShape::Replace { create_before_destroy: true }) <==> actions
            == seq!["create"@, "delete"@],
        shape_of(actions) == (ActionShape::Replace { create_before_destroy: false }) <==> actions
            == seq!["delete"@, "create"@],
{
    lemma_action_words_differ();
    assert(seq!["create"@][0] == "create"@);
    assert(seq!["update"@][0] == "update"@);
    assert(seq!["delete"@][0] == "delete"@);
    assert(seq!["read"@][0] == "read"@);
    assert(seq!["no-op"@][0] == "no-op"@);
    assert(seq!["delete"@, "create"@][0] == "delete"@);
    assert(seq!["create"@, "delete"@][0] == "create"@);
    assert(seq!["delete"@, "create"@][1] == "create"@);
    assert(seq!["create"@, "delete"@][1] == "delete"@);
    assert(seq!["create"@].len() == 1 && seq!["update"@].len() == 1 && seq!["delete"@].len() == 1);
    assert(seq!["read"@].len() == 1 && seq!["no-op"@].len() == 1);
    assert(seq!["delete"@, "create"@].len() == 2 && seq!["create"@, "delete"@].len() == 2);
}

} // verus!
