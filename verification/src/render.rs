//! The text report: replacements first, then deletes, creates, updates and
//! unrecognized changes, reads and no-ops on request, and a summary line.
use vstd::prelude::*;
use crate::diff::{changed_keys, changed_top_level_keys, lists_changed_keys, lemma_strictly_sorted_unique};
use crate::json::{JsonValue, PathSegment};
use crate::order::derefs;
use crate::path::{render_path, rendered_path};
use crate::plan::{Change, ResourceChange};
use crate::summary::{PlanSummary, is_summary_of, lemma_summary_counts, is_create, is_update,
    is_delete, is_replace};
use crate::text::{decimal, join, lemma_join_contains, push_decimal, push_joined};

verus! {

/// The text that `{:?}` writes for a list of strings.
pub uninterp spec fn debug_list_text(items: Seq<Seq<char>>) -> Seq<char>;

/// Writes a list of strings with `Debug` (`format!("{:?}", ..)`), which
/// quotes and escapes each string and brackets the list. The contract names
/// the result, a function of the strings alone.
#[verifier::external_body]
fn debug_list(items: &Vec<String>) -> (r: String)
    ensures
        r@ == debug_list_text(items.deep_view()),
{
    format!("{:?}", items)
}

/// Parts written one after another.
pub open spec fn concat_all(parts: Seq<Seq<char>>) -> Seq<char>
    decreases parts.len(),
{
    if parts.len() == 0 {
        Seq::empty()
    } else {
        concat_all(parts.drop_last()) + parts.last()
    }
}

/// A titled section with a count and its lines, followed by a blank line;
/// nothing at all where there are no lines.
pub open spec fn section(title: Seq<char>, lines: Seq<Seq<char>>) -> Seq<char> {
    if lines.len() == 0 {
        Seq::empty()
    } else {
        title + " — "@ + decimal(lines.len()) + "\n"@ + concat_all(lines) + "\n"@
    }
}

/// The attribute paths that forced a replacement, rendered and separated by
/// commas; nothing where the plan names none.
pub open spec fn replace_reason(c: Change) -> Option<Seq<char>> {
    match c.replace_paths {
        None => None,
        Some(paths) => if paths.len() == 0 {
            None
        } else {
            Some(join(paths@.map_values(|p: Vec<PathSegment>| rendered_path(p@)), ", "@))
        },
    }
}

/// The line of a replacement, and where the plan names them, the line of
/// the paths that forced it.
pub open spec fn replace_line(r: ResourceChange, create_before_destroy: bool) -> Seq<char> {
    "  ~ "@ + r.address@ + "  ("@ + (if create_before_destroy {
        "create then destroy"@
    } else {
        "destroy then create"@
    }) + ")\n"@ + match replace_reason(r.change) {
        Some(reason) => "      forced by: "@ + reason + "\n"@,
        None => Seq::empty(),
    }
}

/// A line that lists a resource after a marker.
pub open spec fn simple_line(marker: Seq<char>, r: ResourceChange) -> Seq<char> {
    marker + r.address@ + "\n"@
}

/// An absent attribute value read as `null`.
pub open spec fn or_null(v: Option<JsonValue>) -> JsonValue {
    match v {
        Some(x) => x,
        None => JsonValue::Null,
    }
}

/// The line of an update, with the top-level attributes that changed.
pub open spec fn update_line(r: ResourceChange) -> Seq<char> {
    let changed = changed_keys(or_null(r.change.before), or_null(r.change.after));
    if changed.len() == 0 {
        "  ~ "@ + r.address@ + "\n"@
    } else {
        "  ~ "@ + r.address@ + "  (changed: "@ + join(changed, ", "@) + ")\n"@
    }
}

/// The line of a change whose actions are not recognized, with the actions.
pub open spec fn unknown_line(r: ResourceChange, actions: Seq<Seq<char>>) -> Seq<char> {
    "  ? "@ + r.address@ + "  (actions: "@ + debug_list_text(actions) + ")\n"@
}

/// The closing line with the four counts.
pub open spec fn summary_line(adds: nat, changes: nat, destroys: nat, replaces: nat) -> Seq<char> {
    "Summary: "@ + decimal(adds) + " to add, "@ + decimal(changes) + " to change, "@ + decimal(destroys)
        + " to destroy, "@ + decimal(replaces) + " to replace\n"@
}

pub open spec fn replace_lines(s: Seq<(&ResourceChange, bool)>) -> Seq<Seq<char>> {
    s.map_values(|p: (&ResourceChange, bool)| replace_line(*p.0, p.1))
}

pub open spec fn simple_lines(marker: Seq<char>, s: Seq<&ResourceChange>) -> Seq<Seq<char>> {
    derefs(s).map_values(|r: ResourceChange| simple_line(marker, r))
}

pub open spec fn update_lines(s: Seq<&ResourceChange>) -> Seq<Seq<char>> {
    derefs(s).map_values(|r: ResourceChange| update_line(r))
}

pub open spec fn unknown_lines(s: Seq<(&ResourceChange, Vec<String>)>) -> Seq<Seq<char>> {
    s.map_values(|p: (&ResourceChange, Vec<String>)| unknown_line(*p.0, p.1.deep_view()))
}

/// The sections that every report has, in their order: replacements,
/// deletes, creates, updates, unrecognized changes.
pub open spec fn main_sections(s: PlanSummary) -> Seq<char> {
    section("REPLACEMENTS (destroy and recreate)"@, replace_lines(s.replaces@))
        + section("DELETE"@, simple_lines("  - "@, s.deletes@))
        + section("CREATE"@, simple_lines("  + "@, s.creates@))
        + section("UPDATE"@, update_lines(s.updates@))
        + section("UNRECOGNIZED ACTIONS"@, unknown_lines(s.unknown@))
}

/// The sections of data-source reads and of unchanged resources.
pub open spec fn noop_sections(s: PlanSummary) -> Seq<char> {
    section("READ (data sources)"@, simple_lines("  = "@, s.reads@))
        + section("NO-OP"@, simple_lines("  = "@, s.no_ops@))
}

/// The report of a summary.
pub open spec fn rendered_text(s: PlanSummary, show_noop: bool) -> Seq<char> {
    main_sections(s) + (if show_noop { noop_sections(s) } else { Seq::empty() }) + summary_line(
        s.creates@.len(),
        s.updates@.len(),
        s.deletes@.len(),
        s.replaces@.len(),
    )
}

proof fn lemma_concat_push(parts: Seq<Seq<char>>, i: int)
    requires
        0 <= i < parts.len(),
    ensures
        concat_all(parts.take(i + 1)) == concat_all(parts.take(i)) + parts[i],
{
    assert(parts.take(i + 1).drop_last() =~= parts.take(i));
}

fn push_header(out: &mut String, title: &str, n: usize)
    ensures
        final(out)@ == old(out)@ + title@ + " — "@ + decimal(n as nat) + "\n"@,
{
    out.append(title);
    out.append(" — ");
    push_decimal(out, n);
    out.append("\n");
    assert(final(out)@ =~= old(out)@ + title@ + " — "@ + decimal(n as nat) + "\n"@);
}

/// Renders the paths that forced a replacement, if the plan names any.
fn describe_replace_reason(change: &Change) -> (r: Option<String>)
    ensures
        r matches Some(t) ==> replace_reason(*change) == Some(t@),
        r is None ==> replace_reason(*change) is None,
{
    match &change.replace_paths {
        None => None,
        Some(paths) => {
            if paths.len() == 0 {
                return None;
            }
            let ghost want = paths@.map_values(|p: Vec<PathSegment>| rendered_path(p@));
            let mut rendered: Vec<String> = Vec::new();
            let n = paths.len();
            let mut i: usize = 0;
            while i < n
                invariant
                    n == paths@.len(),
                    want == paths@.map_values(|p: Vec<PathSegment>| rendered_path(p@)),
                    i <= n,
                    rendered.deep_view() =~= want.take(i as int),
                decreases n - i,
            {
                let one = render_path(paths[i].as_slice());
                rendered.push(one);
                assert(want.take(i + 1) =~= want.take(i as int).push(want[i as int]));
                i = i + 1;
            }
            assert(want.take(n as int) =~= want);
            let mut out = String::new();
            push_joined(&mut out, &rendered, ", ");
            assert(out@ =~= join(want, ", "@));
            Some(out)
        },
    }
}

fn push_replace_section(out: &mut String, items: &Vec<(&ResourceChange, bool)>)
    ensures
        final(out)@ == old(out)@ + section("REPLACEMENTS (destroy and recreate)"@, replace_lines(items@)),
{
    let n = items.len();
    let ghost lines = replace_lines(items@);
    if n == 0 {
        assert(final(out)@ =~= old(out)@ + section("REPLACEMENTS (destroy and recreate)"@, lines));
        return;
    }
    push_header(out, "REPLACEMENTS (destroy and recreate)", n);
    let ghost start = out@;
    let mut i: usize = 0;
    assert(lines.take(0) =~= Seq::<Seq<char>>::empty());
    while i < n
        invariant
            n == items@.len(),
            lines == replace_lines(items@),
            i <= n,
            out@ == start + concat_all(lines.take(i as int)),
        decreases n - i,
    {
        let (rc, create_before_destroy) = items[i];
        let ghost before = out@;
        out.append("  ~ ");
        out.append(rc.address.as_str());
        out.append("  (");
        if create_before_destroy {
            out.append("create then destroy");
        } else {
            out.append("destroy then create");
        }
        out.append(")\n");
        match describe_replace_reason(&rc.change) {
            Some(reason) => {
                out.append("      forced by: ");
                out.append(reason.as_str());
                out.append("\n");
            },
            None => {},
        }
        proof {
            lemma_concat_push(lines, i as int);
            assert(out@ =~= before + lines[i as int]);
        }
        i = i + 1;
    }
    out.append("\n");
    assert(lines.take(n as int) =~= lines);
}

fn push_simple_section(out: &mut String, title: &str, marker: &str, items: &Vec<&ResourceChange>)
    ensures
        final(out)@ == old(out)@ + section(title@, simple_lines(marker@, items@)),
{
    let n = items.len();
    let ghost lines = simple_lines(marker@, items@);
    if n == 0 {
        assert(final(out)@ =~= old(out)@ + section(title@, lines));
        return;
    }
    push_header(out, title, n);
    let ghost start = out@;
    let mut i: usize = 0;
    assert(lines.take(0) =~= Seq::<Seq<char>>::empty());
    while i < n
        invariant
            n == items@.len(),
            lines == simple_lines(marker@, items@),
            i <= n,
            out@ == start + concat_all(lines.take(i as int)),
        decreases n - i,
    {
        let rc = items[i];
        let ghost before = out@;
        out.append(marker);
        out.append(rc.address.as_str());
        out.append("\n");
        proof {
            lemma_concat_push(lines, i as int);
            assert(out@ =~= before + lines[i as int]);
        }
        i = i + 1;
    }
    out.append("\n");
    assert(lines.take(n as int) =~= lines);
}

/// The value that an absent `before` or `after` stands for.
fn empty_value() -> (r: JsonValue)
    ensures
        r is Null,
{
    JsonValue::Null
}

fn push_update_section(out: &mut String, items: &Vec<&ResourceChange>)
    ensures
        final(out)@ == old(out)@ + section("UPDATE"@, update_lines(items@)),
{
    let n = items.len();
    let ghost lines = update_lines(items@);
    if n == 0 {
        assert(final(out)@ =~= old(out)@ + section("UPDATE"@, lines));
        return;
    }
    push_header(out, "UPDATE", n);
    let ghost start = out@;
    let mut i: usize = 0;
    let empty = empty_value();
    assert(lines.take(0) =~= Seq::<Seq<char>>::empty());
    while i < n
        invariant
            n == items@.len(),
            lines == update_lines(items@),
            empty == JsonValue::Null,
            i <= n,
            out@ == start + concat_all(lines.take(i as int)),
        decreases n - i,
    {
        let rc = items[i];
        let ghost before_text = out@;
        let before = match &rc.change.before {
            Some(v) => v,
            None => &empty,
        };
        let after = match &rc.change.after {
            Some(v) => v,
            None => &empty,
        };
        let changed = changed_top_level_keys(before, after);
        out.append("  ~ ");
        out.append(rc.address.as_str());
        if changed.is_empty() {
            out.append("\n");
        } else {
            out.append("  (changed: ");
            push_joined(out, &changed, ", ");
            out.append(")\n");
        }
        proof {
            lemma_concat_push(lines, i as int);
            assert(out@ =~= before_text + lines[i as int]);
        }
        i = i + 1;
    }
    out.append("\n");
    assert(lines.take(n as int) =~= lines);
}

fn push_unknown_section(out: &mut String, items: &Vec<(&ResourceChange, Vec<String>)>)
    ensures
        final(out)@ == old(out)@ + section("UNRECOGNIZED ACTIONS"@, unknown_lines(items@)),
{
    let n = items.len();
    let ghost lines = unknown_lines(items@);
    if n == 0 {
        assert(final(out)@ =~= old(out)@ + section("UNRECOGNIZED ACTIONS"@, lines));
        return;
    }
    push_header(out, "UNRECOGNIZED ACTIONS", n);
    let ghost start = out@;
    let mut i: usize = 0;
    assert(lines.take(0) =~= Seq::<Seq<char>>::empty());
    while i < n
        invariant
            n == items@.len(),
            lines == unknown_lines(items@),
            i <= n,
            out@ == start + concat_all(lines.take(i as int)),
        decreases n - i,
    {
        let rc = items[i].0;
        let actions = &items[i].1;
        let ghost before = out@;
        out.append("  ? ");
        out.append(rc.address.as_str());
        out.append("  (actions: ");
        let text = debug_list(actions);
        out.append(text.as_str());
        out.append(")\n");
        proof {
            lemma_concat_push(lines, i as int);
            assert(out@ =~= before + lines[i as int]);
        }
        i = i + 1;
    }
    out.append("\n");
    assert(lines.take(n as int) =~= lines);
}

/// Renders a summary as text: replacements first, then deletes, creates,
/// updates and unrecognized changes; data-source reads and unchanged
/// resources only when `show_noop` is set; then the summary line.
#[verifier::spinoff_prover]
pub fn render_text(summary: &PlanSummary, show_noop: bool) -> (r: String)
    ensures
        r@ == rendered_text(*summary, show_noop),
{
    let mut out = String::new();
    push_replace_section(&mut out, &summary.replaces);
    push_simple_section(&mut out, "DELETE", "  - ", &summary.deletes);
    push_simple_section(&mut out, "CREATE", "  + ", &summary.creates);
    push_update_section(&mut out, &summary.updates);
    push_unknown_section(&mut out, &summary.unknown);
    assert(out@ =~= main_sections(*summary));
    let ghost main = out@;
    if show_noop {
        push_simple_section(&mut out, "READ (data sources)", "  = ", &summary.reads);
        push_simple_section(&mut out, "NO-OP", "  = ", &summary.no_ops);
        assert(out@ =~= main + noop_sections(*summary));
    } else {
        assert(out@ =~= main + Seq::<char>::empty());
    }
    let ghost middle = out@;
    out.append("Summary: ");
    push_decimal(&mut out, summary.creates.len());
    out.append(" to add, ");
    push_decimal(&mut out, summary.updates.len());
    out.append(" to change, ");
    push_decimal(&mut out, summary.deletes.len());
    out.append(" to destroy, ");
    push_decimal(&mut out, summary.replaces.len());
    out.append(" to replace\n");
    assert(out@ =~= middle + summary_line(
        summary.creates@.len(),
        summary.updates@.len(),
        summary.deletes@.len(),
        summary.replaces@.len(),
    ));
    out
}

/// Asking for reads and no-ops only adds their two sections, just before
/// the summary line; without it those two sections are left out.
pub proof fn lemma_noop_sections_only_added(s: PlanSummary)
    ensures
        rendered_text(s, true) == main_sections(s) + noop_sections(s) + summary_line(
            s.creates@.len(),
            s.updates@.len(),
            s.deletes@.len(),
            s.replaces@.len(),
        ),
        rendered_text(s, false) == main_sections(s) + summary_line(
            s.creates@.len(),
            s.updates@.len(),
            s.deletes@.len(),
            s.replaces@.len(),
        ),
{
    let line = summary_line(s.creates@.len(), s.updates@.len(), s.deletes@.len(), s.replaces@.len());
    assert(main_sections(s) + Seq::<char>::empty() =~= main_sections(s));
}

/// The summary line of the report of a plan's summary counts the plan's
/// creates, updates, deletes and replacements.
pub proof fn lemma_report_counts(s: PlanSummary, t: Seq<ResourceChange>, show_noop: bool)
    requires
        is_summary_of(s, t),
    ensures
        rendered_text(s, show_noop) == main_sections(s) + (if show_noop {
            noop_sections(s)
        } else {
            Seq::empty()
        }) + ("Summary: "@ + decimal(t.filter(is_create()).len()) + " to add, "@ + decimal(
            t.filter(is_update()).len(),
        ) + " to change, "@ + decimal(t.filter(is_delete()).len()) + " to destroy, "@ + decimal(
            t.filter(is_replace()).len(),
        ) + " to replace\n"@),
{
    lemma_summary_counts(s, t);
    lemma_report_ends_with_counts(s, show_noop);
}

/// The report ends with the line `Summary: <creates> to add, <updates> to
/// change, <deletes> to destroy, <replacements> to replace`, each count the
/// size of its group, after the sections.
pub proof fn lemma_report_ends_with_counts(s: PlanSummary, show_noop: bool)
    ensures
        rendered_text(s, show_noop) == main_sections(s) + (if show_noop {
            noop_sections(s)
        } else {
            Seq::empty()
        }) + ("Summary: "@ + decimal(s.creates@.len()) + " to add, "@ + decimal(s.updates@.len())
            + " to change, "@ + decimal(s.deletes@.len()) + " to destroy, "@ + decimal(
            s.replaces@.len(),
        ) + " to replace\n"@),
{
}

/// The line of an update lists its changed keys, sorted and separated by
/// commas, or no list where none changed.
pub proof fn lemma_update_line_layout(r: ResourceChange, c: Seq<Seq<char>>)
    requires
        lists_changed_keys(or_null(r.change.before), or_null(r.change.after), c),
    ensures
        c.len() == 0 ==> update_line(r) == "  ~ "@ + r.address@ + "\n"@,
        c.len() > 0 ==> update_line(r) == "  ~ "@ + r.address@ + "  (changed: "@ + join(c, ", "@)
            + ")\n"@,
{
    let before = or_null(r.change.before);
    let after = or_null(r.change.after);
    let chosen = changed_keys(before, after);
    assert(lists_changed_keys(before, after, chosen));
    lemma_strictly_sorted_unique(c, chosen);
}

/// Every key that changed occurs in the line of the update, at the returned
/// position.
pub proof fn lemma_update_line_lists_every_changed_key(
    r: ResourceChange,
    c: Seq<Seq<char>>,
    k: Seq<char>,
) -> (at: int)
    requires
        lists_changed_keys(or_null(r.change.before), or_null(r.change.after), c),
        c.contains(k),
    ensures
        0 <= at,
        at + k.len() <= update_line(r).len(),
        update_line(r).subrange(at, at + k.len()) == k,
{
    lemma_update_line_layout(r, c);
    let i = choose|i: int| 0 <= i < c.len() && c[i] == k;
    let inner = lemma_join_contains(c, ", "@, i);
    let head = "  ~ "@ + r.address@ + "  (changed: "@;
    let line = update_line(r);
    assert(line == head + join(c, ", "@) + ")\n"@);
    assert(line.subrange(head.len() + inner, head.len() + inner + k.len()) =~= join(c, ", "@).subrange(
        inner,
        inner + k.len(),
    ));
    head.len() + inner
}

/// A section without lines is left out entirely.
pub proof fn lemma_empty_section_omitted(title: Seq<char>)
    ensures
        section(title, Seq::empty()) == Seq::<char>::empty(),
{
}

/// `part` occurs in `text` at position `at`.
pub open spec fn occurs_at(text: Seq<char>, part: Seq<char>, at: int) -> bool {
    &&& 0 <= at
    &&& at + part.len() <= text.len()
    &&& text.subrange(at, at + part.len()) == part
}

proof fn lemma_occurs_in_context(pre: Seq<char>, mid: Seq<char>, post: Seq<char>, part: Seq<char>, at: int)
    requires
        occurs_at(mid, part, at),
    ensures
        occurs_at(pre + mid + post, part, pre.len() + at),
{
    let whole = pre + mid + post;
    assert(whole.subrange(pre.len() + at, pre.len() + at + part.len()) =~= mid.subrange(at, at + part.len()));
}

proof fn lemma_occurs_prefix(text: Seq<char>, line: Seq<char>, head: Seq<char>, tail: Seq<char>, at: int)
    requires
        occurs_at(text, line, at),
        line == head + tail,
    ensures
        occurs_at(text, head, at),
{
    let window = text.subrange(at, at + line.len());
    assert(window == line);
    assert(text.subrange(at, at + head.len()) =~= window.subrange(0, head.len() as int));
    assert(line.subrange(0, head.len() as int) =~= head);
}

proof fn lemma_concat_all_contains(parts: Seq<Seq<char>>, i: int) -> (at: int)
    requires
        0 <= i < parts.len(),
    ensures
        occurs_at(concat_all(parts), parts[i], at),
    decreases parts.len(),
{
    let dl = parts.drop_last();
    let empty = Seq::<char>::empty();
    if i == parts.len() - 1 {
        assert(occurs_at(parts[i], parts[i], 0)) by {
            assert(parts[i].subrange(0, parts[i].len() as int) =~= parts[i]);
        }
        lemma_occurs_in_context(concat_all(dl), parts[i], empty, parts[i], 0);
        assert(concat_all(dl) + parts[i] + empty =~= concat_all(parts));
        concat_all(dl).len() as int
    } else {
        let a = lemma_concat_all_contains(dl, i);
        assert(dl[i] == parts[i]);
        lemma_occurs_in_context(empty, concat_all(dl), parts.last(), parts[i], a);
        assert(empty + concat_all(dl) + parts.last() =~= concat_all(parts));
        a
    }
}

proof fn lemma_section_contains(title: Seq<char>, lines: Seq<Seq<char>>, i: int) -> (at: int)
    requires
        0 <= i < lines.len(),
    ensures
        occurs_at(section(title, lines), lines[i], at),
{
    let a = lemma_concat_all_contains(lines, i);
    let head = title + " — "@ + decimal(lines.len()) + "\n"@;
    lemma_occurs_in_context(head, concat_all(lines), "\n"@, lines[i], a);
    head.len() + a
}

proof fn lemma_occurs_append(a: Seq<char>, b: Seq<char>, part: Seq<char>, at: int)
    requires
        occurs_at(a, part, at),
    ensures
        occurs_at(a + b, part, at),
{
    assert((a + b).subrange(at, at + part.len()) =~= a.subrange(at, at + part.len()));
}

proof fn lemma_occurs_prepend(a: Seq<char>, b: Seq<char>, part: Seq<char>, at: int)
    requires
        occurs_at(b, part, at),
    ensures
        occurs_at(a + b, part, a.len() + at),
{
    assert((a + b).subrange(a.len() + at, a.len() + at + part.len()) =~= b.subrange(at, at + part.len()));
}

proof fn lemma_main_in_report(s: PlanSummary, show_noop: bool, part: Seq<char>, at: int)
    requires
        occurs_at(main_sections(s), part, at),
    ensures
        occurs_at(rendered_text(s, show_noop), part, at),
{
    let x = if show_noop { noop_sections(s) } else { Seq::empty() };
    let line = summary_line(s.creates@.len(), s.updates@.len(), s.deletes@.len(), s.replaces@.len());
    lemma_occurs_append(main_sections(s), x, part, at);
    lemma_occurs_append(main_sections(s) + x, line, part, at);
}

/// Each create of a summary has its line `  + <address>` in the report.
pub proof fn lemma_report_lists_creates(s: PlanSummary, show_noop: bool, i: int) -> (at: int)
    requires
        0 <= i < s.creates@.len(),
    ensures
        occurs_at(rendered_text(s, show_noop), "  + "@ + s.creates@[i].address@ + "\n"@, at),
{
    let lines = simple_lines("  + "@, s.creates@);
    assert(lines[i] == simple_line("  + "@, *s.creates@[i]));
    let a = lemma_section_contains("CREATE"@, lines, i);
    let r = section("REPLACEMENTS (destroy and recreate)"@, replace_lines(s.replaces@));
    let d = section("DELETE"@, simple_lines("  - "@, s.deletes@));
    let c = section("CREATE"@, lines);
    let u = section("UPDATE"@, update_lines(s.updates@));
    let k = section("UNRECOGNIZED ACTIONS"@, unknown_lines(s.unknown@));
    lemma_occurs_prepend(r + d, c, lines[i], a);
    lemma_occurs_append(r + d + c, u, lines[i], (r + d).len() + a);
    lemma_occurs_append(r + d + c + u, k, lines[i], (r + d).len() + a);
    lemma_main_in_report(s, show_noop, lines[i], (r + d).len() + a);
    (r + d).len() + a
}

/// Each delete of a summary has its line `  - <address>` in the report.
pub proof fn lemma_report_lists_deletes(s: PlanSummary, show_noop: bool, i: int) -> (at: int)
    requires
        0 <= i < s.deletes@.len(),
    ensures
        occurs_at(rendered_text(s, show_noop), "  - "@ + s.deletes@[i].address@ + "\n"@, at),
{
    let lines = simple_lines("  - "@, s.deletes@);
    assert(lines[i] == simple_line("  - "@, *s.deletes@[i]));
    let a = lemma_section_contains("DELETE"@, lines, i);
    let r = section("REPLACEMENTS (destroy and recreate)"@, replace_lines(s.replaces@));
    let d = section("DELETE"@, lines);
    let c = section("CREATE"@, simple_lines("  + "@, s.creates@));
    let u = section("UPDATE"@, update_lines(s.updates@));
    let k = section("UNRECOGNIZED ACTIONS"@, unknown_lines(s.unknown@));
    lemma_occurs_prepend(r, d, lines[i], a);
    lemma_occurs_append(r + d, c, lines[i], r.len() + a);
    lemma_occurs_append(r + d + c, u, lines[i], r.len() + a);
    lemma_occurs_append(r + d + c + u, k, lines[i], r.len() + a);
    lemma_main_in_report(s, show_noop, lines[i], r.len() + a);
    r.len() + a
}

/// Each replacement of a summary has its line `  ~ <address>  (<order>)` in
/// the report, the order read from whether it creates before it destroys.
pub proof fn lemma_report_lists_replacements(s: PlanSummary, show_noop: bool, i: int) -> (at: int)
    requires
        0 <= i < s.replaces@.len(),
    ensures
        occurs_at(
            rendered_text(s, show_noop),
            "  ~ "@ + s.replaces@[i].0.address@ + "  ("@ + (if s.replaces@[i].1 {
                "create then destroy"@
            } else {
                "destroy then create"@
            }) + ")\n"@,
            at,
        ),
{
    let lines = replace_lines(s.replaces@);
    let rc = *s.replaces@[i].0;
    let head = "  ~ "@ + rc.address@ + "  ("@ + (if s.replaces@[i].1 {
        "create then destroy"@
    } else {
        "destroy then create"@
    }) + ")\n"@;
    let tail = match replace_reason(rc.change) {
        Some(reason) => "      forced by: "@ + reason + "\n"@,
        None => Seq::empty(),
    };
    assert(lines[i] == replace_line(rc, s.replaces@[i].1));
    assert(lines[i] =~= head + tail);
    let a = lemma_section_contains("REPLACEMENTS (destroy and recreate)"@, lines, i);
    let r = section("REPLACEMENTS (destroy and recreate)"@, lines);
    let d = section("DELETE"@, simple_lines("  - "@, s.deletes@));
    let c = section("CREATE"@, simple_lines("  + "@, s.creates@));
    let u = section("UPDATE"@, update_lines(s.updates@));
    let k = section("UNRECOGNIZED ACTIONS"@, unknown_lines(s.unknown@));
    lemma_occurs_prefix(r, lines[i], head, tail, a);
    lemma_occurs_append(r, d, head, a);
    lemma_occurs_append(r + d, c, head, a);
    lemma_occurs_append(r + d + c, u, head, a);
    lemma_occurs_append(r + d + c + u, k, head, a);
    lemma_main_in_report(s, show_noop, head, a);
    a
}

/// Each update of a summary has its line, starting `  ~ <address>`, in the
/// report.
pub proof fn lemma_report_lists_updates(s: PlanSummary, show_noop: bool, i: int) -> (at: int)
    requires
        0 <= i < s.updates@.len(),
    ensures
        occurs_at(rendered_text(s, show_noop), update_line(*s.updates@[i]), at),
        occurs_at(rendered_text(s, show_noop), "  ~ "@ + s.updates@[i].address@, at),
{
    let lines = update_lines(s.updates@);
    let rc = *s.updates@[i];
    assert(lines[i] == update_line(rc));
    let a = lemma_section_contains("UPDATE"@, lines, i);
    let r = section("REPLACEMENTS (destroy and recreate)"@, replace_lines(s.replaces@));
    let d = section("DELETE"@, simple_lines("  - "@, s.deletes@));
    let c = section("CREATE"@, simple_lines("  + "@, s.creates@));
    let u = section("UPDATE"@, lines);
    let k = section("UNRECOGNIZED ACTIONS"@, unknown_lines(s.unknown@));
    let head = "  ~ "@ + rc.address@;
    let changed = changed_keys(or_null(rc.change.before), or_null(rc.change.after));
    let tail = if changed.len() == 0 { "\n"@ } else { "  (changed: "@ + join(changed, ", "@) + ")\n"@ };
    assert(lines[i] =~= head + tail);
    lemma_occurs_prefix(u, lines[i], head, tail, a);
    lemma_occurs_prepend(r + d + c, u, lines[i], a);
    lemma_occurs_prepend(r + d + c, u, head, a);
    lemma_occurs_append(r + d + c + u, k, lines[i], (r + d + c).len() + a);
    lemma_occurs_append(r + d + c + u, k, head, (r + d + c).len() + a);
    lemma_main_in_report(s, show_noop, lines[i], (r + d + c).len() + a);
    lemma_main_in_report(s, show_noop, head, (r + d + c).len() + a);
    (r + d + c).len() + a
}

/// With `show_noop`, each data-source read and each unchanged resource has
/// its line `  = <address>` in the report.
pub proof fn lemma_report_lists_reads_and_no_ops(s: PlanSummary, i: int, j: int) -> (at: (int, int))
    requires
        0 <= i < s.reads@.len(),
        0 <= j < s.no_ops@.len(),
    ensures
        occurs_at(rendered_text(s, true), "  = "@ + s.reads@[i].address@ + "\n"@, at.0),
        occurs_at(rendered_text(s, true), "  = "@ + s.no_ops@[j].address@ + "\n"@, at.1),
{
    let rl = simple_lines("  = "@, s.reads@);
    let nl = simple_lines("  = "@, s.no_ops@);
    assert(rl[i] == simple_line("  = "@, *s.reads@[i]));
    assert(nl[j] == simple_line("  = "@, *s.no_ops@[j]));
    let a = lemma_section_contains("READ (data sources)"@, rl, i);
    let b = lemma_section_contains("NO-OP"@, nl, j);
    let line = summary_line(s.creates@.len(), s.updates@.len(), s.deletes@.len(), s.replaces@.len());
    let m = main_sections(s);
    let rs = section("READ (data sources)"@, rl);
    let ns = section("NO-OP"@, nl);
    assert(rendered_text(s, true) == m + (rs + ns) + line);
    lemma_occurs_append(rs, ns, rl[i], a);
    lemma_occurs_prepend(m, rs + ns, rl[i], a);
    lemma_occurs_append(m + (rs + ns), line, rl[i], m.len() + a);
    lemma_occurs_prepend(rs, ns, nl[j], b);
    lemma_occurs_prepend(m, rs + ns, nl[j], rs.len() + b);
    lemma_occurs_append(m + (rs + ns), line, nl[j], m.len() + rs.len() + b);
    (m.len() + a, m.len() + rs.len() + b)
}

/// Every attribute path that forced a replacement shows, rendered, in the
/// reason given for it.
pub proof fn lemma_reason_lists_every_path(c: Change, i: int) -> (at: int)
    requires
        c.replace_paths matches Some(paths) && 0 <= i < paths@.len(),
    ensures
        replace_reason(c) matches Some(reason) && occurs_at(reason, rendered_path(c.replace_paths->0@[i]@), at),
{
    let paths = c.replace_paths->0;
    let items = paths@.map_values(|p: Vec<PathSegment>| rendered_path(p@));
    assert(items[i] == rendered_path(paths@[i]@));
    lemma_join_contains(items, ", "@, i)
}

} // verus!
