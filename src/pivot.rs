//! The by-context view: every (context, task) pair of a list of projects,
//! grouped by context in lexicographic order of the contexts, each group
//! sorted by project with ties kept in their original order.

use vstd::prelude::*;
use crate::order::{lemma_seq_le_order, seq_le, seq_lt, str_le};
use crate::sort::{
    insert_by_key, lemma_of_key_push, of_key, stable_sorted, SortKey,
    lemma_filter_map_push,
};
use crate::project::{groups_view, task_views, Project, ProjectView};
use crate::status::TaskStatus;
use crate::task::{Task, TaskView};
use crate::token::views;

verus! {

/// The tasks of a sequence of status groups, group after group.
pub open spec fn flatten_groups(gs: Seq<(TaskStatus, Seq<TaskView>)>) -> Seq<TaskView>
    decreases gs.len(),
{
    if gs.len() == 0 {
        Seq::empty()
    } else {
        flatten_groups(gs.drop_last()) + gs.last().1
    }
}

/// The tasks of a sequence of projects, project after project.
pub open spec fn flat_spec(ps: Seq<ProjectView>) -> Seq<TaskView>
    decreases ps.len(),
{
    if ps.len() == 0 {
        Seq::empty()
    } else {
        flat_spec(ps.drop_last()) + flatten_groups(ps.last().groups)
    }
}

/// The views of a sequence of projects.
pub open spec fn project_views(ps: Seq<Project>) -> Seq<ProjectView> {
    ps.map_values(|p: Project| p@)
}

/// One pair for each context of `t`, in order.
pub open spec fn pairs_of(t: TaskView) -> Seq<(Seq<char>, TaskView)> {
    t.contexts.map_values(|c: Seq<char>| (c, t))
}

/// The (context, task) pairs of `ts`, task after task.
pub open spec fn context_pairs(ts: Seq<TaskView>) -> Seq<(Seq<char>, TaskView)>
    decreases ts.len(),
{
    if ts.len() == 0 {
        Seq::empty()
    } else {
        context_pairs(ts.drop_last()) + pairs_of(ts.last())
    }
}

/// Picks the tasks paired with context `c`.
pub open spec fn pick_context(c: Seq<char>) -> spec_fn((Seq<char>, TaskView)) -> Option<TaskView> {
    |e: (Seq<char>, TaskView)| if e.0 == c { Some(e.1) } else { None }
}

/// The tasks paired with context `c`, in order.
pub open spec fn entries(pairs: Seq<(Seq<char>, TaskView)>, c: Seq<char>) -> Seq<TaskView> {
    pairs.filter_map(pick_context(c))
}

/// The tasks that have one context.
pub struct ContextGroup {
    pub context: String,
    pub tasks: Vec<Task>,
}

/// The views of a sequence of context groups.
pub open spec fn context_groups_view(gs: Seq<ContextGroup>) -> Seq<(Seq<char>, Seq<TaskView>)> {
    gs.map_values(|g: ContextGroup| (g.context@, task_views(g.tasks@)))
}

/// `gs` is the by-context view of `pairs`: one group per context that
/// occurs, contexts in strictly increasing order, and each group the tasks
/// paired with its context, stably sorted by project.
pub open spec fn pivot_ok(
    gs: Seq<(Seq<char>, Seq<TaskView>)>,
    pairs: Seq<(Seq<char>, TaskView)>,
) -> bool {
    &&& forall|i: int, j: int| 0 <= i < j < gs.len() ==> seq_lt(gs[i].0, gs[j].0)
    &&& forall|c: Seq<char>|
        (exists|i: int| 0 <= i < gs.len() && gs[i].0 == c) <==> #[trigger] entries(
            pairs,
            c,
        ).len() > 0
    &&& forall|i: int| 0 <= i < gs.len() ==> stable_sorted(gs[i].1, entries(pairs, gs[i].0), SortKey::Project)
}

proof fn lemma_entries_push(
    pairs: Seq<(Seq<char>, TaskView)>,
    c: Seq<char>,
    t: TaskView,
    k: Seq<char>,
)
    ensures
        entries(pairs.push((c, t)), k) == if k == c {
            entries(pairs, k).push(t)
        } else {
            entries(pairs, k)
        },
{
    lemma_filter_map_push(pairs, (c, t), pick_context(k));
}

/// Adding a pair whose context already has a group: the task joins that
/// group at its place by project.
proof fn lemma_add_to_group(
    gs: Seq<(Seq<char>, Seq<TaskView>)>,
    pairs: Seq<(Seq<char>, TaskView)>,
    g: int,
    t: TaskView,
    r2: Seq<TaskView>,
)
    requires
        pivot_ok(gs, pairs),
        0 <= g < gs.len(),
        crate::sort::sorted_by(r2, SortKey::Project),
        forall|p: Seq<char>|
            #[trigger] of_key(r2, SortKey::Project, p) == if p == t.project {
                of_key(gs[g].1, SortKey::Project, p).push(t)
            } else {
                of_key(gs[g].1, SortKey::Project, p)
            },
    ensures
        pivot_ok(gs.update(g, (gs[g].0, r2)), pairs.push((gs[g].0, t))),
{
    let c = gs[g].0;
    let gs2 = gs.update(g, (c, r2));
    let pairs2 = pairs.push((c, t));
    assert forall|k: Seq<char>|
        (exists|i: int| 0 <= i < gs2.len() && gs2[i].0 == k) <==> #[trigger] entries(
            pairs2,
            k,
        ).len() > 0 by {
        lemma_entries_push(pairs, c, t, k);
        if exists|i: int| 0 <= i < gs2.len() && gs2[i].0 == k {
            let i = choose|i: int| 0 <= i < gs2.len() && gs2[i].0 == k;
            assert(gs[i].0 == k);
        }
        if exists|i: int| 0 <= i < gs.len() && gs[i].0 == k {
            let i = choose|i: int| 0 <= i < gs.len() && gs[i].0 == k;
            assert(gs2[i].0 == k);
        }
        if k == c {
            assert(gs2[g].0 == k);
        }
    }
    assert forall|i: int| 0 <= i < gs2.len() implies stable_sorted(
        gs2[i].1,
        entries(pairs2, gs2[i].0),
        SortKey::Project,
    ) by {
        lemma_entries_push(pairs, c, t, gs2[i].0);
        if i == g {
            assert forall|p: Seq<char>| #[trigger] of_key(r2, SortKey::Project, p) == of_key(
                entries(pairs2, c),
                SortKey::Project,
                p,
            ) by {
                lemma_of_key_push(entries(pairs, c), t, SortKey::Project, p);
            }
        } else {
            assert(gs[i].0 != c) by {
                if gs[i].0 == c {
                    if i < g {
                        assert(seq_lt(gs[i].0, gs[g].0));
                    } else {
                        assert(seq_lt(gs[g].0, gs[i].0));
                    }
                }
            }
        }
    }
    assert forall|i: int, j: int| 0 <= i < j < gs2.len() implies seq_lt(gs2[i].0, gs2[j].0) by {
        assert(gs2[i].0 == gs[i].0);
        assert(gs2[j].0 == gs[j].0);
    }
}

/// Adding a pair whose context has no group yet: a new group of that one
/// task stands between the contexts before and after it.
proof fn lemma_add_new_group(
    gs: Seq<(Seq<char>, Seq<TaskView>)>,
    pairs: Seq<(Seq<char>, TaskView)>,
    pos: int,
    c: Seq<char>,
    t: TaskView,
)
    requires
        pivot_ok(gs, pairs),
        0 <= pos <= gs.len(),
        forall|i: int| 0 <= i < pos ==> seq_lt(gs[i].0, c),
        forall|i: int| pos <= i < gs.len() ==> seq_lt(c, gs[i].0),
    ensures
        pivot_ok(gs.insert(pos, (c, seq![t])), pairs.push((c, t))),
{
    let gs2 = gs.insert(pos, (c, seq![t]));
    let pairs2 = pairs.push((c, t));
    assert forall|i: int| 0 <= i < gs.len() implies gs[i].0 != c by {
        lemma_seq_le_order(c, c, c);
    }
    assert(!(exists|i: int| 0 <= i < gs.len() && gs[i].0 == c));
    assert(entries(pairs, c).len() == 0);
    assert forall|i: int, j: int| 0 <= i < j < gs2.len() implies seq_lt(gs2[i].0, gs2[j].0) by {
        if j < pos {
            assert(gs2[i] == gs[i] && gs2[j] == gs[j]);
        } else if j == pos {
            assert(gs2[i] == gs[i]);
        } else if i < pos {
            assert(gs2[i] == gs[i] && gs2[j] == gs[j - 1]);
            lemma_seq_le_order(gs[i].0, c, gs[j - 1].0);
            lemma_seq_le_order(gs[j - 1].0, c, gs[i].0);
        } else if i == pos {
            assert(gs2[j] == gs[j - 1]);
        } else {
            assert(gs2[i] == gs[i - 1] && gs2[j] == gs[j - 1]);
        }
    }
    assert forall|k: Seq<char>|
        (exists|i: int| 0 <= i < gs2.len() && gs2[i].0 == k) <==> #[trigger] entries(
            pairs2,
            k,
        ).len() > 0 by {
        lemma_entries_push(pairs, c, t, k);
        if exists|i: int| 0 <= i < gs2.len() && gs2[i].0 == k {
            let i = choose|i: int| 0 <= i < gs2.len() && gs2[i].0 == k;
            if i < pos {
                assert(gs[i].0 == k);
            } else if i > pos {
                assert(gs[i - 1].0 == k);
            }
        }
        if exists|i: int| 0 <= i < gs.len() && gs[i].0 == k {
            let i = choose|i: int| 0 <= i < gs.len() && gs[i].0 == k;
            if i < pos {
                assert(gs2[i].0 == k);
            } else {
                assert(gs2[i + 1].0 == k);
            }
        }
        if k == c {
            assert(gs2[pos].0 == k);
        }
    }
    assert forall|i: int| 0 <= i < gs2.len() implies stable_sorted(
        gs2[i].1,
        entries(pairs2, gs2[i].0),
        SortKey::Project,
    ) by {
        lemma_entries_push(pairs, c, t, gs2[i].0);
        if i == pos {
            assert(entries(pairs, c) =~= Seq::<TaskView>::empty());
            assert(entries(pairs2, c) =~= seq![t]);
        } else if i < pos {
            assert(gs2[i] == gs[i]);
        } else {
            assert(gs2[i] == gs[i - 1]);
        }
    }
}

/// Adds the pair (`c`, `t`) to the by-context view `groups` of `pairs`.
fn add_entry(
    groups: &mut Vec<ContextGroup>,
    c: &String,
    t: &Task,
    Ghost(pairs): Ghost<Seq<(Seq<char>, TaskView)>>,
)
    requires
        pivot_ok(context_groups_view(old(groups)@), pairs),
    ensures
        pivot_ok(context_groups_view(final(groups)@), pairs.push((c@, t@))),
{
    let ghost gs = context_groups_view(groups@);
    let mut pos: usize = 0;
    while pos < groups.len() && str_le(groups[pos].context.as_str(), c.as_str())
        invariant
            pos <= groups@.len(),
            gs == context_groups_view(groups@),
            forall|i: int| 0 <= i < pos ==> seq_le(gs[i].0, c@),
        decreases groups@.len() - pos,
    {
        pos = pos + 1;
    }
    if pos > 0 && groups[pos - 1].context == *c {
        let g = pos - 1;
        let mut group = groups.remove(g);
        proof {
            assert(context_groups_view(groups@) =~= gs.remove(g as int));
            assert(gs[g as int] == (group.context@, task_views(group.tasks@)));
            assert(stable_sorted(gs[g as int].1, entries(pairs, gs[g as int].0), SortKey::Project));
        }
        insert_by_key(&mut group.tasks, t.cloned(), SortKey::Project);
        proof {
            lemma_add_to_group(gs, pairs, g as int, t@, task_views(group.tasks@));
        }
        groups.insert(g, group);
        assert(context_groups_view(groups@) =~= gs.update(
            g as int,
            (gs[g as int].0, task_views(group.tasks@)),
        ));
    } else {
        proof {
            if pos > 0 {
                assert(gs[pos - 1].0 == groups@[pos - 1].context@);
                assert(gs[pos - 1].0 != c@);
            }
            assert forall|i: int| 0 <= i < pos implies seq_lt(gs[i].0, c@) by {
                if i < pos - 1 {
                    let k = gs[pos - 1].0;
                    assert(seq_lt(gs[i].0, k));
                    lemma_seq_le_order(gs[i].0, k, c@);
                    lemma_seq_le_order(c@, k, c@);
                }
            }
            if pos < gs.len() {
                assert(gs[pos as int].0 == groups@[pos as int].context@);
                assert(!seq_le(gs[pos as int].0, c@));
            }
            assert forall|i: int| pos <= i < gs.len() implies seq_lt(c@, gs[i].0) by {
                if i > pos {
                    assert(seq_lt(gs[pos as int].0, gs[i].0));
                    lemma_seq_le_order(gs[pos as int].0, gs[i].0, c@);
                }
                assert(!seq_le(gs[i].0, c@));
                lemma_seq_le_order(c@, gs[i].0, c@);
            }
            lemma_add_new_group(gs, pairs, pos as int, c@, t@);
        }
        let mut tasks: Vec<Task> = Vec::new();
        tasks.push(t.cloned());
        let group = ContextGroup { context: c.clone(), tasks };
        assert(task_views(group.tasks@) =~= seq![t@]);
        groups.insert(pos, group);
        assert(context_groups_view(groups@) =~= gs.insert(pos as int, (c@, seq![t@])));
    }
}

/// Appends copies of `ts` to `out`.
fn append_tasks(out: &mut Vec<Task>, ts: &Vec<Task>)
    ensures
        task_views(final(out)@) == task_views(old(out)@) + task_views(ts@),
{
    let ghost start = task_views(out@);
    for m in 0..ts.len()
        invariant
            task_views(out@) == start + task_views(ts@.take(m as int)),
    {
        let ghost prev = out@;
        let t = ts[m].cloned();
        out.push(t);
        assert(task_views(out@) =~= task_views(prev).push(t@));
        assert(task_views(ts@.take(m + 1)) =~= task_views(ts@.take(m as int)).push(t@));
    }
    assert(ts@.take(ts@.len() as int) =~= ts@);
}

/// Every task of `projects`: project after project, group after group.
pub fn flat_tasks(projects: &Vec<Project>) -> (r: Vec<Task>)
    ensures
        task_views(r@) == flat_spec(project_views(projects@)),
{
    let ghost pv = project_views(projects@);
    let mut out: Vec<Task> = Vec::new();
    assert(pv.take(0) =~= Seq::<ProjectView>::empty());
    for i in 0..projects.len()
        invariant
            pv == project_views(projects@),
            task_views(out@) == flat_spec(pv.take(i as int)),
    {
        let groups = &projects[i].tasks;
        let ghost gv = groups_view(groups@);
        let ghost before = task_views(out@);
        assert(gv.take(0) =~= Seq::<(TaskStatus, Seq<TaskView>)>::empty());
        assert(before + flatten_groups(gv.take(0)) =~= before);
        for k in 0..groups.len()
            invariant
                gv == groups_view(groups@),
                task_views(out@) == before + flatten_groups(gv.take(k as int)),
        {
            append_tasks(&mut out, &groups[k].tasks);
            assert(gv.take(k + 1).drop_last() =~= gv.take(k as int));
            assert(gv.take(k + 1).last() == gv[k as int]);
            assert(task_views(out@) =~= before + flatten_groups(gv.take(k + 1)));
        }
        assert(gv.take(groups@.len() as int) =~= gv);
        assert(pv.take(i + 1).drop_last() =~= pv.take(i as int));
        assert(pv.take(i + 1).last() == pv[i as int]);
        assert(pv[i as int].groups == gv);
    }
    assert(pv.take(projects@.len() as int) =~= pv);
    out
}

/// The by-context view of `ts`.
fn pivot_tasks(ts: &Vec<Task>) -> (r: Vec<ContextGroup>)
    ensures
        pivot_ok(context_groups_view(r@), context_pairs(task_views(ts@))),
{
    let ghost tv = task_views(ts@);
    let mut groups: Vec<ContextGroup> = Vec::new();
    proof {
        assert(tv.take(0) =~= Seq::<TaskView>::empty());
        assert forall|c: Seq<char>| #[trigger]
            entries(Seq::<(Seq<char>, TaskView)>::empty(), c).len() == 0 by {}
        assert(context_groups_view(groups@) =~= Seq::<(Seq<char>, Seq<TaskView>)>::empty());
    }
    for i in 0..ts.len()
        invariant
            tv == task_views(ts@),
            pivot_ok(context_groups_view(groups@), context_pairs(tv.take(i as int))),
    {
        let t = &ts[i];
        let ghost base = context_pairs(tv.take(i as int));
        let ghost ps = pairs_of(t@);
        assert(base + ps.take(0) =~= base);
        for j in 0..t.contexts.len()
            invariant
                ps == pairs_of(t@),
                pivot_ok(context_groups_view(groups@), base + ps.take(j as int)),
        {
            add_entry(&mut groups, &t.contexts[j], t, Ghost(base + ps.take(j as int)));
            assert((base + ps.take(j as int)).push((t.contexts[j as int]@, t@)) =~= base
                + ps.take(j + 1));
        }
        assert(ps.take(t.contexts@.len() as int) =~= ps);
        assert(tv.take(i + 1).drop_last() =~= tv.take(i as int));
        assert(tv.take(i + 1).last() == t@);
    }
    assert(tv.take(ts@.len() as int) =~= tv);
    groups
}

/// The by-context view of `projects`: one group per context that occurs,
/// in increasing order of context; each group holds the tasks with that
/// context (once per occurrence), sorted by project, ties in the order of
/// `projects`, their status groups and their tasks.
pub fn pivot_by_context(projects: &Vec<Project>) -> (r: Vec<ContextGroup>)
    ensures
        pivot_ok(context_groups_view(r@), context_pairs(flat_spec(project_views(projects@)))),
{
    let flat = flat_tasks(projects);
    pivot_tasks(&flat)
}

} // verus!
