//! The store's sort machine: three total orders over tasks, a stable
//! insertion sort specified as a recursive function, the laws that hold of
//! it (idempotence, stability of the completion order), and the executable
//! sort proved to return exactly the specified order.

use vstd::prelude::*;
use crate::task::{Task, TaskView, views};

verus! {

broadcast use vstd::seq_lib::group_to_multiset_ensures, vstd::multiset::group_multiset_axioms;

/// The active ordering of the task list.
#[derive(Clone, Copy, PartialEq, Eq, Structural, Debug)]
pub enum SortMode {
    /// Newest created first (descending created date).
    CreatedDate,
    /// Soonest target first (ascending target date).
    TargetDate,
    /// Incomplete before complete, otherwise stable.
    Completion,
}

/// The comparator of each mode, as a total preorder on task views.
pub open spec fn task_le(m: SortMode, a: TaskView, b: TaskView) -> bool {
    match m {
        SortMode::CreatedDate => b.created_date.spec_le(a.created_date),
        SortMode::TargetDate => a.target_date.spec_le(b.target_date),
        SortMode::Completion => !a.completed || b.completed,
    }
}

pub proof fn lemma_task_le_total(m: SortMode, a: TaskView, b: TaskView)
    ensures
        task_le(m, a, b) || task_le(m, b, a),
{
}

pub proof fn lemma_task_le_trans(m: SortMode, a: TaskView, b: TaskView, c: TaskView)
    requires
        task_le(m, a, b),
        task_le(m, b, c),
    ensures
        task_le(m, a, c),
{
}

/// Inserts `x` after every element `e` with `task_le(m, e, x)`: the
/// placement a stable insertion makes.
pub open spec fn insert_le(m: SortMode, x: TaskView, s: Seq<TaskView>) -> Seq<TaskView>
    decreases s.len(),
{
    if s.len() == 0 {
        seq![x]
    } else if task_le(m, s[0], x) {
        seq![s[0]] + insert_le(m, x, s.drop_first())
    } else {
        seq![x] + s
    }
}

/// Stable insertion sort: the exact order the store shows after a re-sort.
pub open spec fn isort(m: SortMode, s: Seq<TaskView>) -> Seq<TaskView>
    decreases s.len(),
{
    if s.len() == 0 {
        Seq::empty()
    } else {
        insert_le(m, s.last(), isort(m, s.drop_last()))
    }
}

pub open spec fn sorted_by(m: SortMode, s: Seq<TaskView>) -> bool {
    forall|i: int, j: int| 0 <= i < j < s.len() ==> task_le(m, s[i], s[j])
}

pub proof fn lemma_insert_le(m: SortMode, x: TaskView, s: Seq<TaskView>)
    ensures
        insert_le(m, x, s).len() == s.len() + 1,
        insert_le(m, x, s).to_multiset() == s.to_multiset().insert(x),
        sorted_by(m, s) ==> sorted_by(m, insert_le(m, x, s)),
    decreases s.len(),
{
    let r = insert_le(m, x, s);
    if s.len() == 0 {
        assert(seq![x] =~= Seq::<TaskView>::empty().push(x));
        assert(r.to_multiset() =~= s.to_multiset().insert(x));
    } else if task_le(m, s[0], x) {
        let df = s.drop_first();
        lemma_insert_le(m, x, df);
        let rr = insert_le(m, x, df);
        assert(r =~= rr.insert(0, s[0]));
        assert(s =~= df.insert(0, s[0]));
        assert(r.to_multiset() =~= s.to_multiset().insert(x));
        if sorted_by(m, s) {
            assert forall|i: int, j: int| 0 <= i < j < df.len() implies task_le(m, df[i], df[j]) by {
                assert(df[i] == s[i + 1]);
                assert(df[j] == s[j + 1]);
            }
            assert(sorted_by(m, df));
            assert(sorted_by(m, rr));
            assert forall|j: int| 0 <= j < rr.len() implies task_le(m, s[0], rr[j]) by {
                assert(rr.contains(rr[j]));
                assert(rr.to_multiset().count(rr[j]) > 0);
                if rr[j] == x {
                } else {
                    assert(df.to_multiset().count(rr[j]) > 0);
                    assert(df.contains(rr[j]));
                    let k = choose|k: int| 0 <= k < df.len() && df[k] == rr[j];
                    assert(df[k] == s[k + 1]);
                    assert(task_le(m, s[0], s[k + 1]));
                }
            }
            assert forall|i: int, j: int| 0 <= i < j < r.len() implies task_le(m, r[i], r[j]) by {
                if i == 0 {
                    assert(r[j] == rr[j - 1]);
                } else {
                    assert(r[i] == rr[i - 1]);
                    assert(r[j] == rr[j - 1]);
                }
            }
        }
    } else {
        assert(r =~= s.insert(0, x));
        assert(r.to_multiset() =~= s.to_multiset().insert(x));
        if sorted_by(m, s) {
            lemma_task_le_total(m, s[0], x);
            assert forall|i: int, j: int| 0 <= i < j < r.len() implies task_le(m, r[i], r[j]) by {
                if i == 0 {
                    assert(r[j] == s[j - 1]);
                    if j == 1 {
                    } else {
                        lemma_task_le_trans(m, x, s[0], s[j - 1]);
                    }
                } else {
                    assert(r[i] == s[i - 1]);
                    assert(r[j] == s[j - 1]);
                }
            }
        }
    }
}

/// The sort returns a permutation of its input, in sorted order.
pub proof fn lemma_isort(m: SortMode, s: Seq<TaskView>)
    ensures
        isort(m, s).len() == s.len(),
        isort(m, s).to_multiset() == s.to_multiset(),
        sorted_by(m, isort(m, s)),
    decreases s.len(),
{
    if s.len() == 0 {
    } else {
        let t = s.drop_last();
        lemma_isort(m, t);
        lemma_insert_le(m, s.last(), isort(m, t));
        assert(s =~= t.push(s.last()));
        assert(s.to_multiset() == t.to_multiset().insert(s.last()));
    }
}

/// When every element of `s` sorts no later than `x`, stable insertion
/// appends `x` at the end.
pub proof fn lemma_insert_le_all(m: SortMode, x: TaskView, s: Seq<TaskView>)
    requires
        forall|k: int| 0 <= k < s.len() ==> task_le(m, #[trigger] s[k], x),
    ensures
        insert_le(m, x, s) == s.push(x),
    decreases s.len(),
{
    if s.len() == 0 {
        assert(insert_le(m, x, s) =~= s.push(x));
    } else {
        let df = s.drop_first();
        assert forall|k: int| 0 <= k < df.len() implies task_le(m, #[trigger] df[k], x) by {
            assert(df[k] == s[k + 1]);
        }
        lemma_insert_le_all(m, x, df);
        assert(insert_le(m, x, s) =~= s.push(x));
    }
}

/// Inserting between a prefix that sorts no later than `x` and a suffix
/// whose head sorts strictly after `x` places `x` exactly between them.
pub proof fn lemma_insert_le_mid(m: SortMode, x: TaskView, a: Seq<TaskView>, b: Seq<TaskView>)
    requires
        forall|k: int| 0 <= k < a.len() ==> task_le(m, #[trigger] a[k], x),
        b.len() > 0 ==> !task_le(m, b[0], x),
    ensures
        insert_le(m, x, a + b) == a + seq![x] + b,
    decreases a.len(),
{
    let s = a + b;
    if a.len() == 0 {
        if b.len() == 0 {
            assert(insert_le(m, x, s) =~= a + seq![x] + b);
        } else {
            assert(s[0] == b[0]);
            assert(insert_le(m, x, s) =~= a + seq![x] + b);
        }
    } else {
        assert(s.len() > 0);
        assert(s[0] == a[0]);
        assert(task_le(m, s[0], x));
        let adf = a.drop_first();
        assert forall|k: int| 0 <= k < adf.len() implies task_le(m, #[trigger] adf[k], x) by {
            assert(adf[k] == a[k + 1]);
        }
        lemma_insert_le_mid(m, x, adf, b);
        assert(s.drop_first() =~= adf + b);
        assert(insert_le(m, x, s) =~= a + seq![x] + b);
    }
}

/// Sorting an already-sorted sequence leaves it unchanged.
pub proof fn lemma_isort_of_sorted(m: SortMode, s: Seq<TaskView>)
    requires
        sorted_by(m, s),
    ensures
        isort(m, s) == s,
    decreases s.len(),
{
    if s.len() == 0 {
        assert(isort(m, s) =~= s);
    } else {
        let t = s.drop_last();
        assert forall|i: int, j: int| 0 <= i < j < t.len() implies task_le(m, t[i], t[j]) by {
            assert(t[i] == s[i]);
            assert(t[j] == s[j]);
        }
        lemma_isort_of_sorted(m, t);
        assert forall|k: int| 0 <= k < t.len() implies task_le(m, #[trigger] t[k], s.last()) by {
            assert(t[k] == s[k]);
        }
        lemma_insert_le_all(m, s.last(), t);
        assert(isort(m, s) =~= s);
    }
}

/// Applying the same sort mode twice yields the order one application gives.
pub proof fn lemma_sort_idempotent(m: SortMode, s: Seq<TaskView>)
    ensures
        isort(m, isort(m, s)) == isort(m, s),
{
    lemma_isort(m, s);
    lemma_isort_of_sorted(m, isort(m, s));
}

pub open spec fn incomplete_pred() -> spec_fn(TaskView) -> bool {
    |t: TaskView| !t.completed
}

pub open spec fn complete_pred() -> spec_fn(TaskView) -> bool {
    |t: TaskView| t.completed
}

/// The completion sort is the stable partition: all incomplete tasks in
/// their prior relative order, then all complete tasks in theirs.
pub proof fn lemma_completion_sort_stable(s: Seq<TaskView>)
    ensures
        isort(SortMode::Completion, s) == s.filter(incomplete_pred()) + s.filter(complete_pred()),
    decreases s.len(),
{
    let md = SortMode::Completion;
    reveal(Seq::filter);
    if s.len() == 0 {
        assert(isort(md, s) =~= s.filter(incomplete_pred()) + s.filter(complete_pred()));
    } else {
        let x = s.last();
        let t = s.drop_last();
        lemma_completion_sort_stable(t);
        let a = t.filter(incomplete_pred());
        let b = t.filter(complete_pred());
        if x.completed {
            assert forall|k: int| 0 <= k < (a + b).len() implies task_le(md, #[trigger] (a + b)[k], x) by {}
            lemma_insert_le_all(md, x, a + b);
            assert(s.filter(incomplete_pred()) == a);
            assert(s.filter(complete_pred()) == b.push(x));
            assert((a + b).push(x) =~= a + b.push(x));
        } else {
            assert forall|k: int| 0 <= k < a.len() implies task_le(md, #[trigger] a[k], x) by {
                t.lemma_filter_pred(incomplete_pred(), k);
            }
            if b.len() > 0 {
                t.lemma_filter_pred(complete_pred(), 0);
                assert(!task_le(md, b[0], x));
            }
            lemma_insert_le_mid(md, x, a, b);
            assert(s.filter(incomplete_pred()) == a.push(x));
            assert(s.filter(complete_pred()) == b);
            assert(a.push(x) + b =~= a + seq![x] + b);
        }
    }
}

/// The comparator of the active mode, on concrete tasks.
pub fn task_le_exec(m: SortMode, a: &Task, b: &Task) -> (r: bool)
    ensures
        r == task_le(m, a@, b@),
{
    match m {
        SortMode::CreatedDate => b.created_date.le(&a.created_date),
        SortMode::TargetDate => a.target_date.le(&b.target_date),
        SortMode::Completion => !a.completed || b.completed,
    }
}

/// Reorders `items` into exactly `isort(m, _)` of its previous order: a
/// sorted permutation, stable for the completion mode.
pub fn sort_tasks(items: &mut Vec<Task>, m: SortMode)
    ensures
        views(final(items)@) == isort(m, views(old(items)@)),
{
    let ghost orig: Seq<Task> = old(items)@;
    let mut res: Vec<Task> = Vec::new();
    proof {
        assert(orig.skip(0) =~= orig);
        assert(views(orig.take(0)) =~= Seq::<TaskView>::empty());
        assert(views(res@) =~= Seq::<TaskView>::empty());
    }
    while items.len() > 0
        invariant
            items@.len() <= orig.len(),
            items@ == orig.skip(orig.len() - items@.len()),
            views(res@) == isort(m, views(orig.take(orig.len() - items@.len()))),
        decreases items@.len(),
    {
        let ghost n: int = orig.len() - items@.len();
        let ghost pre: Seq<Task> = items@;
        let ghost rv = views(res@);
        proof {
            assert(pre == orig.skip(n));
            assert(pre.len() == orig.len() - n);
        }
        let x = items.remove(0);
        proof {
            assert(x == pre[0]);
            assert(pre[0] == orig[n]);
            assert(items@ == pre.remove(0));
            assert(items@ =~= orig.skip(n + 1));
        }
        let mut idx: usize = 0;
        while idx < res.len() && task_le_exec(m, &res[idx], &x)
            invariant
                idx <= res.len(),
                rv == views(res@),
                forall|k: int| 0 <= k < idx ==> task_le(m, #[trigger] rv[k], x@),
            decreases res@.len() - idx,
        {
            idx += 1;
        }
        proof {
            assert forall|k: int| 0 <= k < rv.take(idx as int).len() implies task_le(
                m,
                #[trigger] rv.take(idx as int)[k],
                x@,
            ) by {
                assert(rv.take(idx as int)[k] == rv[k]);
            }
            if (idx as int) < rv.len() {
                assert(rv.skip(idx as int)[0] == rv[idx as int]);
            }
            lemma_insert_le_mid(m, x@, rv.take(idx as int), rv.skip(idx as int));
            assert(rv.take(idx as int) + rv.skip(idx as int) =~= rv);
        }
        res.insert(idx, x);
        proof {
            assert(views(res@) =~= rv.take(idx as int) + seq![x@] + rv.skip(idx as int));
            assert(views(res@) == insert_le(m, x@, rv));
            let tp = views(orig.take(n + 1));
            assert(tp.len() == n + 1);
            assert(tp.drop_last() =~= views(orig.take(n)));
            assert(tp.last() == x@);
            assert(views(res@) == isort(m, views(orig.take(n + 1))));
        }
    }
    proof {
        assert(orig.take(orig.len() as int) =~= orig);
    }
    *items = res;
}

} // verus!
