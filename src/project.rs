//! From the lines of one file to its project: selection of the task lines,
//! template inheritance, filtering, and grouping by status.

use vstd::prelude::*;
use crate::filter::TaskFilter;
use crate::status::TaskStatus;
use crate::task::{has_any_token, inherit_spec, is_bullet, parse_spec, Task, TaskView};
use crate::text::{starts_with, starts_with_str};
use crate::token::views;

verus! {

/// The views of a sequence of tasks.
pub open spec fn task_views(v: Seq<Task>) -> Seq<TaskView> {
    v.map_values(|t: Task| t@)
}

/// Whether `line` opens with the template marker `- @gtd`.
pub open spec fn is_template(line: Seq<char>) -> bool {
    starts_with(line, seq!['-', ' ', '@', 'g', 't', 'd'])
}

/// Whether `line` opens with the template marker `- @gtd`.
pub fn is_template_line(line: &str) -> (r: bool)
    ensures
        r == is_template(line@),
{
    let marker = "- @gtd";
    proof {
        reveal_strlit("- @gtd");
        assert(marker@ =~= seq!['-', ' ', '@', 'g', 't', 'd']);
    }
    starts_with_str(line, marker)
}

/// The first bullet line of `lines`.
pub open spec fn first_bullet(lines: Seq<Seq<char>>) -> Option<Seq<char>>
    decreases lines.len(),
{
    if lines.len() == 0 {
        None
    } else if is_bullet(lines[0]) {
        Some(lines[0])
    } else {
        first_bullet(lines.drop_first())
    }
}

/// The template task of a file: its first bullet line, when that line
/// opens with the template marker.
pub open spec fn template_of(file: Seq<char>, lines: Seq<Seq<char>>) -> Option<TaskView> {
    match first_bullet(lines) {
        Some(l) => if is_template(l) {
            Some(parse_spec(l, file))
        } else {
            None
        },
        None => None,
    }
}

/// The tasks of a file without template: its bullet lines that hold a token,
/// parsed, and kept by `f`.
pub open spec fn plain_tasks(file: Seq<char>, lines: Seq<Seq<char>>, f: TaskFilter) -> Seq<
    TaskView,
> {
    lines.filter_map(pick_plain(file, f))
}

/// The task of line `l` when a file without template keeps it.
pub open spec fn pick_plain(file: Seq<char>, f: TaskFilter) -> spec_fn(Seq<char>) -> Option<
    TaskView,
> {
    |l: Seq<char>|
        if is_bullet(l) && has_any_token(l) && f.keeps_spec(parse_spec(l, file)) {
            Some(parse_spec(l, file))
        } else {
            None
        }
}

/// The tasks of a file whose template task is `g`: every bullet line but
/// the template lines, parsed, with the defaults of `g` filled in.
pub open spec fn template_tasks(file: Seq<char>, lines: Seq<Seq<char>>, g: TaskView) -> Seq<
    TaskView,
> {
    lines.filter_map(
        |l: Seq<char>|
            if is_bullet(l) && !is_template(l) {
                Some(inherit_spec(parse_spec(l, file), g))
            } else {
                None
            },
    )
}

/// The tasks that file `file` with lines `lines` yields under filter `f`.
pub open spec fn file_tasks(file: Seq<char>, lines: Seq<Seq<char>>, f: TaskFilter) -> Seq<
    TaskView,
> {
    match template_of(file, lines) {
        Some(g) => template_tasks(file, lines, g),
        None => plain_tasks(file, lines, f),
    }
}

/// The index of the first bullet line of `lines`.
fn first_bullet_index(lines: &Vec<String>) -> (r: Option<usize>)
    ensures
        match r {
            Some(k) => k < lines@.len() && first_bullet(views(lines@)) == Some(lines@[k as int]@),
            None => first_bullet(views(lines@)) is None,
        },
{
    let mut k: usize = 0;
    assert(views(lines@).skip(0) =~= views(lines@));
    while k < lines.len()
        invariant
            k <= lines@.len(),
            first_bullet(views(lines@)) == first_bullet(views(lines@).skip(k as int)),
        decreases lines@.len() - k,
    {
        assert(views(lines@).skip(k as int)[0] == lines@[k as int]@);
        if crate::task::is_task_line(lines[k].as_str()) {
            return Some(k);
        }
        assert(views(lines@).skip(k as int).drop_first() =~= views(lines@).skip(k + 1));
        k = k + 1;
    }
    None
}

/// The tasks that the lines of file `file_name` yield: when the first bullet
/// line opens with `- @gtd` it is the template task and every other bullet
/// line becomes a task with its defaults; otherwise the bullet lines that hold
/// a token become tasks, and those that `filter` keeps remain.
pub fn select_tasks(file_name: &str, lines: &Vec<String>, filter: &TaskFilter) -> (r: Vec<Task>)
    ensures
        task_views(r@) == file_tasks(file_name@, views(lines@), *filter),
{
    let ghost ls = views(lines@);
    let mut out: Vec<Task> = Vec::new();
    let template = match first_bullet_index(lines) {
        Some(k) => if is_template_line(lines[k].as_str()) {
            Some(Task::from(lines[k].as_str(), file_name))
        } else {
            None
        },
        None => None,
    };
    assert(ls.take(0) =~= Seq::<Seq<char>>::empty());
    match template {
        Some(g) => {
            for i in 0..lines.len()
                invariant
                    ls == views(lines@),
                    template_of(file_name@, ls) == Some(g@),
                    task_views(out@) == template_tasks(file_name@, ls.take(i as int), g@),
            {
                let line = lines[i].as_str();
                let ghost prev = out@;
                if crate::task::is_task_line(line) && !is_template_line(line) {
                    let t = Task::from(line, file_name).inherit(&g);
                    out.push(t);
                    assert(task_views(out@) =~= task_views(prev).push(t@));
                }
                assert(ls.take(i + 1).drop_last() =~= ls.take(i as int));
                assert(ls.take(i + 1).last() == lines@[i as int]@);
            }
        },
        None => {
            for i in 0..lines.len()
                invariant
                    ls == views(lines@),
                    template_of(file_name@, ls) is None,
                    task_views(out@) == plain_tasks(file_name@, ls.take(i as int), *filter),
            {
                let line = lines[i].as_str();
                let ghost prev = out@;
                if crate::task::is_task_line(line) && Task::has_any_token(line) {
                    let t = Task::from(line, file_name);
                    if filter.keeps(&t) {
                        out.push(t);
                        assert(task_views(out@) =~= task_views(prev).push(t@));
                    }
                }
                assert(ls.take(i + 1).drop_last() =~= ls.take(i as int));
                assert(ls.take(i + 1).last() == lines@[i as int]@);
            }
        },
    }
    assert(ls.take(lines@.len() as int) =~= ls);
    out
}

/// The tasks of one status found in one file, in the file's order.
pub struct StatusGroup {
    pub status: TaskStatus,
    pub tasks: Vec<Task>,
}

/// The tasks of one file, grouped by status.
pub struct Project {
    pub file_name: String,
    /// One group per status present, in report order (`Wip`, `Review`,
    /// `Todo`, `NoStatus`).
    pub tasks: Vec<StatusGroup>,
}

/// A project as plain values.
pub struct ProjectView {
    pub file_name: Seq<char>,
    pub groups: Seq<(TaskStatus, Seq<TaskView>)>,
}

/// The views of a sequence of status groups.
pub open spec fn groups_view(gs: Seq<StatusGroup>) -> Seq<(TaskStatus, Seq<TaskView>)> {
    gs.map_values(|g: StatusGroup| (g.status, task_views(g.tasks@)))
}

impl View for Project {
    type V = ProjectView;

    open spec fn view(&self) -> ProjectView {
        ProjectView { file_name: self.file_name@, groups: groups_view(self.tasks@) }
    }
}

/// The order in which statuses are reported.
pub open spec fn report_order() -> Seq<TaskStatus> {
    seq![TaskStatus::Wip, TaskStatus::Review, TaskStatus::Todo, TaskStatus::NoStatus]
}

/// The tasks of `ts` whose status is `st`, in order.
pub open spec fn of_status(ts: Seq<TaskView>, st: TaskStatus) -> Seq<TaskView> {
    ts.filter_map(pick_status(st))
}

/// Picks the tasks of status `st`.
pub open spec fn pick_status(st: TaskStatus) -> spec_fn(TaskView) -> Option<TaskView> {
    |t: TaskView| if t.status == st { Some(t) } else { None }
}

/// The group of status `st` of `ts`, when `ts` has tasks of that status.
pub open spec fn pick_group(ts: Seq<TaskView>) -> spec_fn(TaskStatus) -> Option<
    (TaskStatus, Seq<TaskView>),
> {
    |st: TaskStatus|
        if of_status(ts, st).len() > 0 {
            Some((st, of_status(ts, st)))
        } else {
            None
        }
}

/// `ts` grouped by status: one group for each status present, in report order.
pub open spec fn group_by_status(ts: Seq<TaskView>) -> Seq<(TaskStatus, Seq<TaskView>)> {
    report_order().filter_map(pick_group(ts))
}

/// The tasks of `tasks` whose status is `st`, copied, in order.
fn tasks_of_status(tasks: &Vec<Task>, st: TaskStatus) -> (r: Vec<Task>)
    ensures
        task_views(r@) == of_status(task_views(tasks@), st),
        forall|m: int| 0 <= m < r@.len() ==> (#[trigger] r@[m]).status == st,
{
    let ghost tv = task_views(tasks@);
    let mut r: Vec<Task> = Vec::new();
    assert(tv.take(0) =~= Seq::<TaskView>::empty());
    for j in 0..tasks.len()
        invariant
            tv == task_views(tasks@),
            task_views(r@) == of_status(tv.take(j as int), st),
            forall|m: int| 0 <= m < r@.len() ==> (#[trigger] r@[m]).status == st,
    {
        let ghost prev = r@;
        if tasks[j].status == st {
            let t = tasks[j].cloned();
            r.push(t);
            assert(task_views(r@) =~= task_views(prev).push(t@));
        }
        assert(tv.take(j + 1).drop_last() =~= tv.take(j as int));
        assert(tv.take(j + 1).last() == tasks@[j as int]@);
    }
    assert(tv.take(tasks@.len() as int) =~= tv);
    r
}

/// The project of file `file_name` with `tasks`, grouped by status; none
/// when there is no task.
pub fn build_project(file_name: &str, tasks: &Vec<Task>) -> (r: Option<Project>)
    ensures
        r is None <==> tasks@.len() == 0,
        r matches Some(p) ==> p@ == (ProjectView {
            file_name: file_name@,
            groups: group_by_status(task_views(tasks@)),
        }),
        r matches Some(p) ==> p.wf(),
{
    if tasks.len() == 0 {
        return None;
    }
    let order = TaskStatus::all();
    let ghost ro = report_order();
    assert(order@ =~= ro);
    let mut groups: Vec<StatusGroup> = Vec::new();
    assert(ro.take(0) =~= Seq::<TaskStatus>::empty());
    for k in 0..order.len()
        invariant
            order@ == ro,
            ro == report_order(),
            groups_view(groups@) == ro.take(k as int).filter_map(pick_group(task_views(tasks@))),
            wf_groups(groups_view(groups@)),
            forall|i: int| 0 <= i < groups@.len() ==> rank((#[trigger] groups@[i]).status) < k,
    {
        let st = order[k];
        let of = tasks_of_status(tasks, st);
        let ghost prev = groups@;
        assert(rank(st) == k) by {
            if k == 0 {
            } else if k == 1 {
            } else if k == 2 {
            } else {
            }
        }
        if of.len() > 0 {
            let g = StatusGroup { status: st, tasks: of };
            groups.push(g);
            assert(groups_view(groups@) =~= groups_view(prev).push((st, task_views(g.tasks@))));
            let ghost gv = groups_view(groups@);
            assert forall|i: int, m: int| 0 <= i < gv.len() && 0 <= m < gv[i].1.len() implies (
            #[trigger] gv[i].1[m]).status == gv[i].0 by {
                if i == gv.len() - 1 {
                    assert(gv[i].1[m] == g.tasks@[m]@);
                } else {
                    assert(gv[i] == groups_view(prev)[i]);
                }
            }
            assert forall|i: int| 0 <= i < gv.len() implies (#[trigger] gv[i]).1.len() > 0 by {
                if i < gv.len() - 1 {
                    assert(gv[i] == groups_view(prev)[i]);
                }
            }
            assert forall|i: int, j: int| 0 <= i < j < gv.len() implies rank(gv[i].0) < rank(
                gv[j].0,
            ) by {
                assert(gv[i].0 == groups@[i].status);
                assert(gv[j].0 == groups@[j].status);
            }
        }
        assert(ro.take(k + 1).drop_last() =~= ro.take(k as int));
        assert(ro.take(k + 1).last() == st);
    }
    assert(ro.take(4) =~= ro);
    Some(Project { file_name: String::from_str(file_name), tasks: groups })
}

/// The place of a status in report order.
pub open spec fn rank(st: TaskStatus) -> int {
    match st {
        TaskStatus::Wip => 0,
        TaskStatus::Review => 1,
        TaskStatus::Todo => 2,
        TaskStatus::NoStatus => 3,
    }
}

/// Groups in report order, none empty, each holding only tasks of its status.
pub open spec fn wf_groups(gs: Seq<(TaskStatus, Seq<TaskView>)>) -> bool {
    &&& forall|i: int, j: int| 0 <= i < j < gs.len() ==> rank(gs[i].0) < rank(gs[j].0)
    &&& forall|i: int| 0 <= i < gs.len() ==> (#[trigger] gs[i]).1.len() > 0
    &&& forall|i: int, m: int|
        0 <= i < gs.len() && 0 <= m < gs[i].1.len() ==> (#[trigger] gs[i].1[m]).status == gs[i].0
}

impl Project {
    /// One non-empty group per status present, in report order (`Wip`,
    /// `Review`, `Todo`, `NoStatus`), each holding only tasks of its status.
    pub open spec fn wf(&self) -> bool {
        wf_groups(self@.groups)
    }

    /// The tasks of status `status`, if the project has any.
    pub fn get(&self, status: TaskStatus) -> (r: Option<&Vec<Task>>)
        ensures
            r matches Some(v) ==> exists|i: int|
                0 <= i < self@.groups.len() && #[trigger] self@.groups[i] == (
                status,
                task_views(v@),
            ),
            r is None ==> forall|i: int|
                0 <= i < self@.groups.len() ==> (#[trigger] self@.groups[i]).0 != status,
    {
        let mut i: usize = 0;
        while i < self.tasks.len()
            invariant
                i <= self.tasks@.len(),
                forall|j: int| 0 <= j < i ==> (#[trigger] self@.groups[j]).0 != status,
            decreases self.tasks@.len() - i,
        {
            assert(self@.groups[i as int] == (self.tasks@[i as int].status, task_views(
                self.tasks@[i as int].tasks@,
            )));
            if self.tasks[i].status == status {
                return Some(&self.tasks[i].tasks);
            }
            i = i + 1;
        }
        None
    }

    /// Whether the project has tasks of status `status`.
    pub fn contains_key(&self, status: TaskStatus) -> (r: bool)
        ensures
            r == exists|i: int| 0 <= i < self@.groups.len() && (#[trigger] self@.groups[i]).0 == status,
    {
        match self.get(status) {
            Some(_) => true,
            None => false,
        }
    }
}

} // verus!
