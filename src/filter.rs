//! The inclusion and exclusion rules that decide which tasks of an ordinary
//! file (one without a template task) are kept.

use vstd::prelude::*;
use crate::status::TaskStatus;
use crate::task::{is_flagless, Task, TaskView};
use crate::token::views;

verus! {

/// Which tasks of an ordinary file are kept.
pub struct TaskFilter {
    /// Keep only these statuses; none listed keeps every status.
    pub statuses: Vec<TaskStatus>,
    /// Keep only tasks with one of these contexts; none listed keeps all.
    pub contexts: Vec<String>,
    /// When no context is asked for, drop a task without status whose
    /// contexts all lie in this set.
    pub not_contexts: Vec<String>,
}

/// Whether `v` holds `s`.
pub fn contains_string(v: &Vec<String>, s: &String) -> (r: bool)
    ensures
        r == views(v@).contains(s@),
{
    let mut i: usize = 0;
    while i < v.len()
        invariant
            i <= v@.len(),
            forall|j: int| 0 <= j < i ==> v@[j]@ != s@,
        decreases v@.len() - i,
    {
        if v[i] == *s {
            assert(views(v@)[i as int] == s@);
            return true;
        }
        i = i + 1;
    }
    proof {
        if views(v@).contains(s@) {
            let j = choose|j: int| 0 <= j < views(v@).len() && views(v@)[j] == s@;
            assert(v@[j]@ == s@);
        }
    }
    false
}

/// Whether `v` holds `st`.
pub fn contains_status(v: &Vec<TaskStatus>, st: TaskStatus) -> (r: bool)
    ensures
        r == v@.contains(st),
{
    let mut i: usize = 0;
    while i < v.len()
        invariant
            i <= v@.len(),
            forall|j: int| 0 <= j < i ==> v@[j] != st,
        decreases v@.len() - i,
    {
        if v[i] == st {
            return true;
        }
        i = i + 1;
    }
    false
}

impl TaskFilter {
    /// A filter on `statuses` and `contexts`; the default exclusions apply
    /// only when no context is asked for.
    pub fn new(
        statuses: Vec<TaskStatus>,
        contexts: Vec<String>,
        default_not_context: Vec<String>,
    ) -> (r: TaskFilter)
        ensures
            r.statuses@ == statuses@,
            views(r.contexts@) == views(contexts@),
            views(r.not_contexts@) == if contexts@.len() == 0 {
                views(default_not_context@)
            } else {
                Seq::empty()
            },
    {
        let not_contexts = if contexts.len() == 0 {
            default_not_context
        } else {
            Vec::new()
        };
        assert(contexts@.len() != 0 ==> views(not_contexts@) =~= Seq::empty());
        TaskFilter { statuses, contexts, not_contexts }
    }

    /// Whether task `t` passes: it carries a status, a context or a date;
    /// its status is among those asked for; one of its contexts is among
    /// those asked for; and, when no context is asked for, it is not a task
    /// without status whose contexts all lie in the excluded set.
    pub open spec fn keeps_spec(&self, t: TaskView) -> bool {
        &&& !is_flagless(t)
        &&& (self.statuses@.len() == 0 || self.statuses@.contains(t.status))
        &&& (self.contexts@.len() == 0 || exists|i: int|
            0 <= i < t.contexts.len() && views(self.contexts@).contains(#[trigger] t.contexts[i]))
        &&& !(self.contexts@.len() == 0 && t.status == TaskStatus::NoStatus && t.contexts.len() > 0
            && forall|i: int|
            0 <= i < t.contexts.len() ==> views(self.not_contexts@).contains(
                #[trigger] t.contexts[i],
            ))
    }

    /// Whether `task` passes the filter.
    pub fn keeps(&self, task: &Task) -> (r: bool)
        ensures
            r == self.keeps_spec(task@),
    {
        if task.has_noflags() {
            return false;
        }
        if self.statuses.len() > 0 && !contains_status(&self.statuses, task.status) {
            return false;
        }
        let n = task.contexts.len();
        if self.contexts.len() > 0 {
            let mut found = false;
            let mut i: usize = 0;
            while i < n
                invariant
                    n == task.contexts@.len(),
                    i <= n,
                    found == exists|j: int|
                        0 <= j < i && views(self.contexts@).contains(
                            #[trigger] task@.contexts[j],
                        ),
                decreases n - i,
            {
                let hit = contains_string(&self.contexts, &task.contexts[i]);
                assert(task@.contexts[i as int] == task.contexts@[i as int]@);
                if hit {
                    found = true;
                }
                i = i + 1;
            }
            if !found {
                return false;
            }
        }
        if self.contexts.len() == 0 && task.status == TaskStatus::NoStatus && n > 0 {
            let mut all_out = true;
            let mut i: usize = 0;
            while i < n
                invariant
                    n == task.contexts@.len(),
                    i <= n,
                    all_out == forall|j: int|
                        0 <= j < i ==> views(self.not_contexts@).contains(
                            #[trigger] task@.contexts[j],
                        ),
                decreases n - i,
            {
                let hit = contains_string(&self.not_contexts, &task.contexts[i]);
                assert(task@.contexts[i as int] == task.contexts@[i as int]@);
                if !hit {
                    all_out = false;
                }
                i = i + 1;
            }
            if all_out {
                return false;
            }
        }
        true
    }
}

} // verus!
