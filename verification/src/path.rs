//! Rendering of `replace_paths` attribute paths in the notation one would
//! write by hand: `ingress[0].from_port`.
use vstd::prelude::*;
use crate::json::PathSegment;

verus! {

/// `prefix` followed by a `.`, unless it is empty.
pub open spec fn dotted(prefix: Seq<char>) -> Seq<char> {
    if prefix.len() == 0 {
        prefix
    } else {
        prefix + "."@
    }
}

/// The rendering of a path: a number step is written `[n]`, any other step
/// is written after a `.`, where something has been written before it.
pub open spec fn rendered_path(path: Seq<PathSegment>) -> Seq<char>
    decreases path.len(),
{
    if path.len() == 0 {
        Seq::empty()
    } else {
        let prefix = rendered_path(path.drop_last());
        match path.last() {
            PathSegment::Number(n) => prefix + "["@ + n@ + "]"@,
            PathSegment::Str(s) => dotted(prefix) + s@,
            PathSegment::Other(t) => dotted(prefix) + t@,
        }
    }
}

/// Extending a path by one step extends its rendering by that step, at any
/// length: a number as `[n]`, any other step after a `.` unless nothing has
/// been written before it.
pub proof fn lemma_rendered_path_push(path: Seq<PathSegment>, step: PathSegment)
    ensures
        rendered_path(path.push(step)) == match step {
            PathSegment::Number(n) => rendered_path(path) + "["@ + n@ + "]"@,
            PathSegment::Str(t) => if rendered_path(path).len() == 0 {
                t@
            } else {
                rendered_path(path) + "."@ + t@
            },
            PathSegment::Other(t) => if rendered_path(path).len() == 0 {
                t@
            } else {
                rendered_path(path) + "."@ + t@
            },
        },
{
    assert(path.push(step).drop_last() =~= path);
    let prefix = rendered_path(path);
    if prefix.len() == 0 {
        match step {
            PathSegment::Str(t) => assert(prefix + t@ =~= t@),
            PathSegment::Other(t) => assert(prefix + t@ =~= t@),
            _ => {},
        }
    }
}

/// Every step of a path shows in its rendering: the rendering of a longer
/// path starts with that of the shorter one and adds at least the step's
/// own text.
pub proof fn lemma_rendered_path_grows(path: Seq<PathSegment>, step: PathSegment)
    ensures
        rendered_path(path.push(step)).len() >= rendered_path(path).len() + match step {
            PathSegment::Number(n) => n@.len() + 2,
            PathSegment::Str(t) => t@.len(),
            PathSegment::Other(t) => t@.len(),
        },
        rendered_path(path.push(step)).subrange(0, rendered_path(path).len() as int) == rendered_path(path),
{
    lemma_rendered_path_push(path, step);
    let prefix = rendered_path(path);
    let whole = rendered_path(path.push(step));
    match step {
        PathSegment::Number(n) => {
            reveal_strlit("[");
            reveal_strlit("]");
            assert(whole.subrange(0, prefix.len() as int) =~= prefix);
        },
        PathSegment::Str(t) => {
            reveal_strlit(".");
            assert(whole.subrange(0, prefix.len() as int) =~= prefix);
        },
        PathSegment::Other(t) => {
            reveal_strlit(".");
            assert(whole.subrange(0, prefix.len() as int) =~= prefix);
        },
    }
}

/// Renders an attribute path such as `["ingress", 0, "from_port"]` as
/// `ingress[0].from_port`.
pub fn render_path(path: &[PathSegment]) -> (r: String)
    ensures
        r@ == rendered_path(path@),
{
    let mut out = String::new();
    let n = path.len();
    let mut i: usize = 0;
    while i < n
        invariant
            n == path@.len(),
            i <= n,
            out@ == rendered_path(path@.take(i as int)),
        decreases n - i,
    {
        assert(path@.take(i + 1).drop_last() =~= path@.take(i as int));
        match &path[i] {
            PathSegment::Number(num) => {
                out.append("[");
                out.append(num.as_str());
                out.append("]");
            },
            PathSegment::Str(s) => {
                if !out.as_str().is_empty() {
                    out.append(".");
                }
                out.append(s.as_str());
            },
            PathSegment::Other(t) => {
                if !out.as_str().is_empty() {
                    out.append(".");
                }
                out.append(t.as_str());
            },
        }
        i = i + 1;
    }
    assert(path@.take(n as int) =~= path@);
    out
}

} // verus!
