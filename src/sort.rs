//! Stable sorting of tasks by a text key (project or description), stated
//! as: in order of key, and the tasks of each key in their original order.

use vstd::prelude::*;
use crate::order::{lemma_seq_le_order, seq_le, str_le};
use crate::project::task_views;
use crate::task::{Task, TaskView};

verus! {

/// The text by which tasks are sorted.
#[derive(Clone, Copy, PartialEq, Eq, Structural, Debug)]
pub enum SortKey {
    Project,
    Description,
}

/// The key of `t`.
pub open spec fn key_of(t: TaskView, by: SortKey) -> Seq<char> {
    match by {
        SortKey::Project => t.project,
        SortKey::Description => t.description,
    }
}

/// The key of `t`.
pub fn key_str(t: &Task, by: SortKey) -> (r: &str)
    ensures
        r@ == key_of(t@, by),
{
    match by {
        SortKey::Project => t.project.as_str(),
        SortKey::Description => t.description.as_str(),
    }
}

/// Picks the tasks whose key is `p`.
pub open spec fn pick_key(by: SortKey, p: Seq<char>) -> spec_fn(TaskView) -> Option<TaskView> {
    |t: TaskView| if key_of(t, by) == p { Some(t) } else { None }
}

/// The tasks of `ts` whose key is `p`, in order.
pub open spec fn of_key(ts: Seq<TaskView>, by: SortKey, p: Seq<char>) -> Seq<TaskView> {
    ts.filter_map(pick_key(by, p))
}

/// Whether `ts` is in order of key.
pub open spec fn sorted_by(ts: Seq<TaskView>, by: SortKey) -> bool {
    forall|i: int, j: int| 0 <= i < j < ts.len() ==> seq_le(key_of(ts[i], by), key_of(ts[j], by))
}

/// `r` is `ts` sorted by key, tasks of one key in their order in `ts`.
pub open spec fn stable_sorted(r: Seq<TaskView>, ts: Seq<TaskView>, by: SortKey) -> bool {
    &&& sorted_by(r, by)
    &&& forall|p: Seq<char>| #[trigger] of_key(r, by, p) == of_key(ts, by, p)
}

/// `filter_map` distributes over concatenation.
pub proof fn lemma_filter_map_concat<A, B>(x: Seq<A>, y: Seq<A>, f: spec_fn(A) -> Option<B>)
    ensures
        (x + y).filter_map(f) == x.filter_map(f) + y.filter_map(f),
    decreases y.len(),
{
    if y.len() == 0 {
        assert(x + y =~= x);
        assert(x.filter_map(f) + y.filter_map(f) =~= x.filter_map(f));
    } else {
        lemma_filter_map_concat(x, y.drop_last(), f);
        assert((x + y).drop_last() =~= x + y.drop_last());
        assert((x + y).last() == y.last());
        match f(y.last()) {
            Some(b) => {
                assert(x.filter_map(f) + y.filter_map(f) =~= x.filter_map(f) + y.drop_last().filter_map(f) + seq![b]);
            },
            None => {},
        }
    }
}

/// Each element of `x.filter_map(f)` is what `f` gives for an element of `x`.
pub proof fn lemma_filter_map_source<A, B>(x: Seq<A>, f: spec_fn(A) -> Option<B>, i: int)
    requires
        0 <= i < x.filter_map(f).len(),
    ensures
        exists|j: int| 0 <= j < x.len() && f(x[j]) == Some(x.filter_map(f)[i]),
    decreases x.len(),
{
    let y = x.drop_last().filter_map(f);
    match f(x.last()) {
        Some(b) => {
            assert(x.filter_map(f) == y + seq![b]);
            if i < y.len() {
                lemma_filter_map_source(x.drop_last(), f, i);
                let j = choose|j: int|
                    0 <= j < x.drop_last().len() && f(x.drop_last()[j]) == Some(y[i]);
                assert(x[j] == x.drop_last()[j]);
            } else {
                assert(f(x[x.len() - 1]) == Some(x.filter_map(f)[i]));
            }
        },
        None => {
            lemma_filter_map_source(x.drop_last(), f, i);
            let j = choose|j: int|
                0 <= j < x.drop_last().len() && f(x.drop_last()[j]) == Some(y[i]);
            assert(x[j] == x.drop_last()[j]);
        },
    }
}

/// `filter_map` of a sequence with one more element.
pub proof fn lemma_filter_map_push<A, B>(x: Seq<A>, a: A, f: spec_fn(A) -> Option<B>)
    ensures
        x.push(a).filter_map(f) == match f(a) {
            Some(b) => x.filter_map(f).push(b),
            None => x.filter_map(f),
        },
{
    assert(x.push(a).drop_last() =~= x);
    assert(x.push(a).last() == a);
    match f(a) {
        Some(b) => {
            assert(x.filter_map(f) + seq![b] =~= x.filter_map(f).push(b));
        },
        None => {},
    }
}

/// No task of key `p` leaves nothing to pick.
pub proof fn lemma_of_key_none(ts: Seq<TaskView>, by: SortKey, p: Seq<char>)
    requires
        forall|i: int| 0 <= i < ts.len() ==> key_of(ts[i], by) != p,
    ensures
        of_key(ts, by, p) == Seq::<TaskView>::empty(),
    decreases ts.len(),
{
    if ts.len() > 0 {
        lemma_of_key_none(ts.drop_last(), by, p);
    }
}

/// Inserting `t` after the tasks whose key comes before or equals its own
/// keeps the order and adds `t` last among the tasks of its key.
pub proof fn lemma_insert_by_key(r: Seq<TaskView>, pos: int, t: TaskView, by: SortKey)
    requires
        sorted_by(r, by),
        0 <= pos <= r.len(),
        forall|i: int| 0 <= i < pos ==> seq_le(key_of(r[i], by), key_of(t, by)),
        pos < r.len() ==> !seq_le(key_of(r[pos], by), key_of(t, by)),
    ensures
        sorted_by(r.insert(pos, t), by),
        forall|p: Seq<char>|
            #[trigger] of_key(r.insert(pos, t), by, p) == if p == key_of(t, by) {
                of_key(r, by, p).push(t)
            } else {
                of_key(r, by, p)
            },
{
    let r2 = r.insert(pos, t);
    assert forall|j: int| pos <= j < r.len() implies !seq_le(key_of(r[j], by), key_of(t, by)) by {
        lemma_seq_le_order(key_of(r[pos], by), key_of(r[j], by), key_of(t, by));
    }
    assert forall|i: int, j: int| 0 <= i < j < r2.len() implies seq_le(
        key_of(r2[i], by),
        key_of(r2[j], by),
    ) by {
        if j < pos {
        } else if j == pos {
        } else if i < pos {
            lemma_seq_le_order(key_of(r2[i], by), key_of(t, by), key_of(r2[j], by));
            lemma_seq_le_order(key_of(t, by), key_of(r2[j], by), key_of(t, by));
        } else if i == pos {
            lemma_seq_le_order(key_of(t, by), key_of(r2[j], by), key_of(t, by));
        } else {
        }
    }
    let a = r.take(pos);
    let b = r.skip(pos);
    assert(r =~= a + b);
    assert(r2 =~= a + seq![t] + b);
    assert forall|p: Seq<char>| #[trigger] of_key(r2, by, p) == if p == key_of(t, by) {
        of_key(r, by, p).push(t)
    } else {
        of_key(r, by, p)
    } by {
        let f = pick_key(by, p);
        lemma_filter_map_concat(a + seq![t], b, f);
        lemma_filter_map_concat(a, seq![t], f);
        lemma_filter_map_concat(a, b, f);
        assert(seq![t].drop_last() =~= Seq::<TaskView>::empty());
        assert(seq![t].last() == t);
        assert(of_key(r2, by, p) == of_key(a + seq![t], by, p) + of_key(b, by, p));
        assert(of_key(a + seq![t], by, p) == of_key(a, by, p) + of_key(seq![t], by, p));
        assert(of_key(r, by, p) == of_key(a, by, p) + of_key(b, by, p));
        assert(of_key(seq![t], by, p) == if key_of(t, by) == p { seq![t] } else { Seq::<TaskView>::empty() }) by {
            assert(Seq::<TaskView>::empty().filter_map(f) =~= Seq::<TaskView>::empty());
            if key_of(t, by) == p {
                assert(Seq::<TaskView>::empty() + seq![t] =~= seq![t]);
            }
        }
        if p == key_of(t, by) {
            assert forall|i: int| 0 <= i < b.len() implies key_of(b[i], by) != p by {
                lemma_seq_le_order(p, p, p);
            }
            lemma_of_key_none(b, by, p);
            assert(of_key(a, by, p) + seq![t] + of_key(b, by, p) =~= (of_key(a, by, p)
                + of_key(b, by, p)).push(t));
        } else {
            assert(of_key(a, by, p) + Seq::<TaskView>::empty() + of_key(b, by, p) =~= of_key(
                a,
                by,
                p,
            ) + of_key(b, by, p));
        }
    }
}

/// Inserts `t` after the tasks whose key comes before or equals its own.
pub fn insert_by_key(v: &mut Vec<Task>, t: Task, by: SortKey)
    requires
        sorted_by(task_views(old(v)@), by),
    ensures
        sorted_by(task_views(final(v)@), by),
        forall|p: Seq<char>|
            #[trigger] of_key(task_views(final(v)@), by, p) == if p == key_of(t@, by) {
                of_key(task_views(old(v)@), by, p).push(t@)
            } else {
                of_key(task_views(old(v)@), by, p)
            },
{
    let ghost r = task_views(v@);
    let mut pos: usize = 0;
    while pos < v.len() && str_le(key_str(&v[pos], by), key_str(&t, by))
        invariant
            pos <= v@.len(),
            r == task_views(v@),
            forall|i: int| 0 <= i < pos ==> seq_le(key_of(r[i], by), key_of(t@, by)),
        decreases v@.len() - pos,
    {
        pos = pos + 1;
    }
    proof {
        lemma_insert_by_key(r, pos as int, t@, by);
    }
    let ghost tv = t@;
    v.insert(pos, t);
    assert(task_views(v@) =~= r.insert(pos as int, tv));
}

/// The tasks of key `p` after one more task.
pub proof fn lemma_of_key_push(ts: Seq<TaskView>, t: TaskView, by: SortKey, p: Seq<char>)
    ensures
        of_key(ts.push(t), by, p) == if p == key_of(t, by) {
            of_key(ts, by, p).push(t)
        } else {
            of_key(ts, by, p)
        },
{
    lemma_filter_map_push(ts, t, pick_key(by, p));
}


} // verus!
