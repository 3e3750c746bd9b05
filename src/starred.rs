//! Starring, as the relay server keeps it: a list of starred descriptions
//! that a request toggles, and the task list handed out with each task's
//! star flipped once per listing of its key, sorted by description.

use vstd::prelude::*;
use crate::filter::contains_string;
use crate::project::task_views;
use crate::sort::{insert_by_key, lemma_of_key_push, of_key, stable_sorted, SortKey};
use crate::task::{Task, TaskView};
use crate::token::views;

verus! {

/// `v` without the entries equal to `d`.
pub open spec fn without(v: Seq<Seq<char>>, d: Seq<char>) -> Seq<Seq<char>> {
    v.filter_map(|x: Seq<char>| if x == d { None } else { Some(x) })
}

/// Stars `description` when it is not starred, and unstars it (every copy
/// of it) when it is.
pub fn toggle_starred(starred: &mut Vec<String>, description: String)
    ensures
        views(final(starred)@) == if views(old(starred)@).contains(description@) {
            without(views(old(starred)@), description@)
        } else {
            views(old(starred)@).push(description@)
        },
{
    if contains_string(starred, &description) {
        let ghost old_v = views(starred@);
        let mut kept: Vec<String> = Vec::new();
        assert(old_v.take(0) =~= Seq::<Seq<char>>::empty());
        for i in 0..starred.len()
            invariant
                old_v == views(starred@),
                views(kept@) == without(old_v.take(i as int), description@),
        {
            let ghost prev = kept@;
            if starred[i] != description {
                let s = starred[i].clone();
                kept.push(s);
                assert(views(kept@) =~= views(prev).push(s@));
            }
            assert(old_v.take(i + 1).drop_last() =~= old_v.take(i as int));
            assert(old_v.take(i + 1).last() == starred@[i as int]@);
        }
        assert(old_v.take(old_v.len() as int) =~= old_v);
        *starred = kept;
    } else {
        let ghost prev = starred@;
        starred.push(description);
        assert(views(starred@) =~= views(prev).push(description@));
    }
}

/// How many times `k` occurs in `v`.
pub open spec fn count_in(v: Seq<Seq<char>>, k: Seq<char>) -> nat
    decreases v.len(),
{
    if v.len() == 0 {
        0
    } else {
        count_in(v.drop_last(), k) + if v.last() == k {
            1nat
        } else {
            0nat
        }
    }
}

/// `t` with its star flipped `flips` times.
pub open spec fn flip_star(t: TaskView, flips: nat) -> TaskView {
    TaskView {
        starred: if flips % 2 == 1 {
            !t.starred
        } else {
            t.starred
        },
        ..t
    }
}

/// The views of keyed tasks.
pub open spec fn keyed_views(v: Seq<(String, Task)>) -> Seq<(Seq<char>, TaskView)> {
    v.map_values(|e: (String, Task)| (e.0@, e.1@))
}

/// The tasks of `tasks`, each with its star flipped once per listing of its
/// key in `starred`.
pub open spec fn starred_views(
    tasks: Seq<(Seq<char>, TaskView)>,
    starred: Seq<Seq<char>>,
) -> Seq<TaskView> {
    tasks.map_values(|e: (Seq<char>, TaskView)| flip_star(e.1, count_in(starred, e.0)))
}

/// How many times `k` occurs in `v`.
fn count_string(v: &Vec<String>, k: &String) -> (r: usize)
    ensures
        r == count_in(views(v@), k@),
{
    let ghost vv = views(v@);
    let mut n: usize = 0;
    assert(vv.take(0) =~= Seq::<Seq<char>>::empty());
    for i in 0..v.len()
        invariant
            vv == views(v@),
            n == count_in(vv.take(i as int), k@),
            n <= i,
    {
        if v[i] == *k {
            n = n + 1;
        }
        assert(vv.take(i + 1).drop_last() =~= vv.take(i as int));
        assert(vv.take(i + 1).last() == v@[i as int]@);
    }
    assert(vv.take(vv.len() as int) =~= vv);
    n
}

/// The tasks of the keyed map `tasks`, each task's star flipped once for
/// every listing of its key in `starred`, sorted by description with ties
/// in the order of `tasks`.
pub fn add_starred(tasks: &Vec<(String, Task)>, starred: &Vec<String>) -> (r: Vec<Task>)
    ensures
        stable_sorted(
            task_views(r@),
            starred_views(keyed_views(tasks@), views(starred@)),
            SortKey::Description,
        ),
{
    let ghost sv = starred_views(keyed_views(tasks@), views(starred@));
    let mut out: Vec<Task> = Vec::new();
    assert(sv.take(0) =~= Seq::<TaskView>::empty());
    assert(task_views(out@) =~= Seq::<TaskView>::empty());
    for i in 0..tasks.len()
        invariant
            sv == starred_views(keyed_views(tasks@), views(starred@)),
            stable_sorted(task_views(out@), sv.take(i as int), SortKey::Description),
    {
        let flips = count_string(starred, &tasks[i].0);
        let mut t = tasks[i].1.cloned();
        if flips % 2 == 1 {
            t.starred = !t.starred;
        }
        assert(t@ == sv[i as int]);
        let ghost before = task_views(out@);
        insert_by_key(&mut out, t, SortKey::Description);
        assert(sv.take(i + 1) =~= sv.take(i as int).push(sv[i as int]));
        assert forall|p: Seq<char>| #[trigger] of_key(task_views(out@), SortKey::Description, p)
            == of_key(sv.take(i + 1), SortKey::Description, p) by {
            lemma_of_key_push(sv.take(i as int), sv[i as int], SortKey::Description, p);
        }
    }
    assert(sv.take(tasks@.len() as int) =~= sv);
    out
}

} // verus!
