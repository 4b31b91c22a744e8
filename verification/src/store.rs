//! The task store: the ordered task list, id allocation, the selection
//! index, and the active sort order. All operations on an absent or
//! out-of-range target are no-ops, never errors.

use vstd::prelude::*;
use crate::date::Date;
use crate::task::{Task, TaskView, views};
use crate::sort::{SortMode, isort, lemma_isort, sort_tasks, complete_pred};
use crate::codec::{task_wf, spec_decode, decode_tasks, encode_tasks, ser_list, lemma_round_trip};

verus! {

broadcast use vstd::seq_lib::group_to_multiset_ensures, vstd::multiset::group_multiset_axioms;

/// No two tasks carry the same id.
pub open spec fn ids_unique(ts: Seq<TaskView>) -> bool {
    forall|k: int, l: int| 0 <= k < l < ts.len() ==> ts[k].id != ts[l].id
}

/// The greatest id among the tasks, zero when there are none.
pub open spec fn max_id(ts: Seq<TaskView>) -> nat
    decreases ts.len(),
{
    if ts.len() == 0 {
        0
    } else if ts.last().id >= max_id(ts.drop_last()) {
        ts.last().id
    } else {
        max_id(ts.drop_last())
    }
}

pub proof fn lemma_max_id_ge(ts: Seq<TaskView>, k: int)
    requires
        0 <= k < ts.len(),
    ensures
        ts[k].id <= max_id(ts),
    decreases ts.len(),
{
    if k + 1 < ts.len() {
        lemma_max_id_ge(ts.drop_last(), k);
    }
}

/// The selection after the list shrank to `new_len` entries: cleared when
/// the list emptied, otherwise clamped to the last position; no selection
/// stays none.
pub open spec fn clamp_selection(sel: Option<usize>, new_len: int) -> Option<usize> {
    if new_len == 0 {
        None::<usize>
    } else {
        match sel {
            Some(s) => if s as int >= new_len {
                Some((new_len - 1) as usize)
            } else {
                Some(s)
            },
            None => None::<usize>,
        }
    }
}

/// The position of the task with the given id, or -1 when absent.
pub open spec fn find_id(ts: Seq<TaskView>, id: nat) -> int
    decreases ts.len(),
{
    if ts.len() == 0 {
        -1
    } else if ts[0].id == id {
        0
    } else if find_id(ts.drop_first(), id) < 0 {
        -1
    } else {
        find_id(ts.drop_first(), id) + 1
    }
}

pub proof fn lemma_find_id(ts: Seq<TaskView>, id: nat)
    ensures
        find_id(ts, id) >= 0 ==> 0 <= find_id(ts, id) < ts.len() && ts[find_id(ts, id)].id == id,
        find_id(ts, id) < 0 ==> forall|k: int| 0 <= k < ts.len() ==> (#[trigger] ts[k]).id != id,
    decreases ts.len(),
{
    if ts.len() > 0 && ts[0].id != id {
        lemma_find_id(ts.drop_first(), id);
        assert forall|k: int| 0 <= k < ts.len() && find_id(ts, id) < 0 implies (
        #[trigger] ts[k]).id != id by {
            if k > 0 {
                assert(ts.drop_first()[k - 1] == ts[k]);
            }
        }
    }
}

/// A permutation keeps the id bound, date validity, and id uniqueness.
pub proof fn lemma_perm_preserves(ts1: Seq<TaskView>, ts2: Seq<TaskView>, bound: nat)
    requires
        ts2.to_multiset() == ts1.to_multiset(),
        ids_unique(ts1),
        forall|k: int| 0 <= k < ts1.len() ==> (#[trigger] ts1[k]).id < bound
            && ts1[k].dates_valid(),
    ensures
        ids_unique(ts2),
        forall|k: int| 0 <= k < ts2.len() ==> (#[trigger] ts2[k]).id < bound
            && ts2[k].dates_valid(),
{
    assert forall|k: int| 0 <= k < ts2.len() implies (#[trigger] ts2[k]).id < bound
        && ts2[k].dates_valid() by {
        assert(ts2.contains(ts2[k]));
        assert(ts2.to_multiset().count(ts2[k]) > 0);
        assert(ts1.to_multiset().count(ts2[k]) > 0);
        assert(ts1.contains(ts2[k]));
        let m = choose|m: int| 0 <= m < ts1.len() && ts1[m] == ts2[k];
        assert(ts1[m].id < bound);
    }
    assert forall|k: int, l: int| 0 <= k < l < ts1.len() implies ts1[k] != ts1[l] by {
        assert(ts1[k].id != ts1[l].id);
    }
    assert(ts1.no_duplicates());
    ts1.lemma_multiset_has_no_duplicates();
    assert forall|x: TaskView| ts2.to_multiset().contains(x) implies ts2.to_multiset().count(x)
        == 1 by {
        assert(ts1.to_multiset().count(x) == ts2.to_multiset().count(x));
    }
    ts2.lemma_multiset_has_no_duplicates_conv();
    assert forall|k: int, l: int| 0 <= k < l < ts2.len() implies ts2[k].id != ts2[l].id by {
        assert(ts2[k] != ts2[l]);
        assert(ts2.contains(ts2[k]));
        assert(ts1.to_multiset().count(ts2[k]) > 0);
        assert(ts1.contains(ts2[k]));
        assert(ts2.contains(ts2[l]));
        assert(ts1.to_multiset().count(ts2[l]) > 0);
        assert(ts1.contains(ts2[l]));
        let m1 = choose|m: int| 0 <= m < ts1.len() && ts1[m] == ts2[k];
        let m2 = choose|m: int| 0 <= m < ts1.len() && ts1[m] == ts2[l];
        assert(m1 != m2);
        if m1 < m2 {
            assert(ts1[m1].id != ts1[m2].id);
        } else {
            assert(ts1[m2].id != ts1[m1].id);
        }
    }
}

/// The ordered task collection with its id counter, sort order and
/// selection.
pub struct Store {
    pub items: Vec<Task>,
    pub next_id: usize,
    pub sort_mode: SortMode,
    pub selection: Option<usize>,
}

impl Store {
    /// The mathematical view of the task list, in its current order.
    pub open spec fn tasks(self) -> Seq<TaskView> {
        views(self.items@)
    }

    /// Every id is below the counter and unique, every date valid, the
    /// counter positive, and the selection in range.
    pub open spec fn wf(self) -> bool {
        &&& self.next_id >= 1
        &&& forall|k: int|
            0 <= k < self.tasks().len() ==> (#[trigger] self.tasks()[k]).id < self.next_id as nat
                && self.tasks()[k].dates_valid()
        &&& ids_unique(self.tasks())
        &&& (self.selection matches Some(s) ==> s < self.tasks().len())
    }

    /// A store with no tasks, the counter at one, sorted by created date.
    pub fn empty() -> (s: Store)
        ensures
            s.wf(),
            s.tasks().len() == 0,
            s.next_id == 1,
            s.sort_mode == SortMode::CreatedDate,
            s.selection is None,
    {
        Store { items: Vec::new(), next_id: 1, sort_mode: SortMode::CreatedDate, selection: None }
    }

    /// Re-applies the active sort mode.
    pub fn resort(&mut self)
        requires
            old(self).wf(),
        ensures
            final(self).wf(),
            final(self).tasks() == isort(old(self).sort_mode, old(self).tasks()),
            final(self).next_id == old(self).next_id,
            final(self).sort_mode == old(self).sort_mode,
            final(self).selection == old(self).selection,
            final(self).tasks().len() == old(self).tasks().len(),
    {
        proof {
            lemma_isort(self.sort_mode, self.tasks());
            lemma_perm_preserves(
                self.tasks(),
                isort(self.sort_mode, self.tasks()),
                self.next_id as nat,
            );
        }
        sort_tasks(&mut self.items, self.sort_mode);
    }

    /// Changes the active sort mode and immediately reorders.
    pub fn set_sort_mode(&mut self, m: SortMode)
        requires
            old(self).wf(),
        ensures
            final(self).wf(),
            final(self).sort_mode == m,
            final(self).tasks() == isort(m, old(self).tasks()),
            final(self).next_id == old(self).next_id,
            final(self).selection == old(self).selection,
    {
        self.sort_mode = m;
        self.resort();
    }

    /// Allocates the next id, appends a fresh incomplete task, re-sorts,
    /// and returns the id: strictly greater than every id handed out
    /// before, so never reused.
    pub fn add(&mut self, title: String, description: String, target_date: Date, created_date: Date) -> (id: usize)
        requires
            old(self).wf(),
            old(self).next_id < usize::MAX,
            target_date.valid(),
            created_date.valid(),
        ensures
            final(self).wf(),
            id == old(self).next_id,
            final(self).next_id == old(self).next_id + 1,
            forall|k: int|
                0 <= k < old(self).tasks().len() ==> (#[trigger] old(self).tasks()[k]).id < id,
            final(self).tasks() == isort(
                old(self).sort_mode,
                old(self).tasks().push(
                    TaskView {
                        id: id as nat,
                        title: title@,
                        description: description@,
                        target_date,
                        created_date,
                        completed: false,
                    },
                ),
            ),
            final(self).tasks().len() == old(self).tasks().len() + 1,
            final(self).sort_mode == old(self).sort_mode,
            final(self).selection == old(self).selection,
    {
        let id = self.next_id;
        let t = Task::new(id, title, description, target_date, created_date);
        let ghost before = self.tasks();
        let ghost tv = t@;
        self.items.push(t);
        proof {
            assert(self.tasks() =~= before.push(tv));
        }
        self.next_id = id + 1;
        proof {
            assert forall|k: int| 0 <= k < self.tasks().len() implies (
            #[trigger] self.tasks()[k]).id < self.next_id as nat && self.tasks()[k].dates_valid() by {
                if k < before.len() {
                    assert(self.tasks()[k] == before[k]);
                }
            }
            assert forall|k: int, l: int| 0 <= k < l < self.tasks().len() implies self.tasks()[k].id
                != self.tasks()[l].id by {
                if l < before.len() {
                } else {
                    assert(self.tasks()[l] == tv);
                    assert(before[k].id < id as nat);
                }
            }
            lemma_isort(self.sort_mode, self.tasks());
            lemma_perm_preserves(
                self.tasks(),
                isort(self.sort_mode, self.tasks()),
                self.next_id as nat,
            );
        }
        sort_tasks(&mut self.items, self.sort_mode);
        id
    }

    /// Replaces the mutable fields of the task with the given id and
    /// re-sorts; absence of the id is a no-op, not an error. Returns
    /// whether the id was found.
    #[verifier::loop_isolation(false)]
    pub fn edit(&mut self, id: usize, title: String, description: String, target_date: Date) -> (found: bool)
        requires
            old(self).wf(),
            target_date.valid(),
        ensures
            final(self).wf(),
            found == (find_id(old(self).tasks(), id as nat) >= 0),
            found ==> final(self).tasks() == isort(
                old(self).sort_mode,
                old(self).tasks().update(
                    find_id(old(self).tasks(), id as nat),
                    (TaskView {
                        title: title@,
                        description: description@,
                        target_date,
                        ..old(self).tasks()[find_id(old(self).tasks(), id as nat)]
                    }),
                ),
            ),
            !found ==> *final(self) == *old(self),
            final(self).next_id == old(self).next_id,
            final(self).sort_mode == old(self).sort_mode,
            final(self).selection == old(self).selection,
            final(self).tasks().len() == old(self).tasks().len(),
    {
        proof {
            lemma_find_id(old(self).tasks(), id as nat);
        }
        let ghost before = self.tasks();
        let ghost f = find_id(before, id as nat);
        let mut k: usize = 0;
        let n = self.items.len();
        while k < n
            invariant
                k <= n,
                n == self.items@.len(),
                forall|m: int| 0 <= m < k ==> (#[trigger] views(self.items@)[m]).id != id as nat,
                self == old(self),
            decreases n - k,
        {
            if self.items[k].id == id {
                proof {
                    assert(views(self.items@)[k as int] == self.items@[k as int]@);
                    assert(before[k as int].id == id as nat);
                    if f < 0 {
                        assert(false);
                    }
                    if f < k as int {
                        assert(before[f].id != before[k as int].id);
                        assert(false);
                    }
                    if f > k as int {
                        assert(before[k as int].id != before[f].id);
                        assert(false);
                    }
                    assert(f == k as int);
                }
                let tr = &mut self.items[k];
                tr.title = title;
                tr.description = description;
                tr.target_date = target_date;
                proof {
                    assert(self.tasks() =~= before.update(
                        f,
                        (TaskView {
                            title: title@,
                            description: description@,
                            target_date,
                            ..before[f]
                        }),
                    ));
                    let after = self.tasks();
                    assert forall|m: int| 0 <= m < after.len() implies (
                    #[trigger] after[m]).id < self.next_id as nat && after[m].dates_valid() by {
                        if m != f {
                            assert(after[m] == before[m]);
                        }
                    }
                    assert forall|a: int, b: int| 0 <= a < b < after.len() implies after[a].id
                        != after[b].id by {
                        assert(after[a].id == before[a].id);
                        assert(after[b].id == before[b].id);
                    }
                    lemma_isort(self.sort_mode, after);
                    lemma_perm_preserves(after, isort(self.sort_mode, after), self.next_id as nat);
                }
                self.resort();
                return true;
            }
            k += 1;
        }
        proof {
            if f >= 0 {
                assert(before[f].id == id as nat);
                assert(false);
            }
        }
        false
    }

    /// The task list with the completion flag at `i` flipped.
    pub open spec fn toggle_spec(ts: Seq<TaskView>, i: int) -> Seq<TaskView> {
        ts.update(i, (TaskView { completed: !ts[i].completed, ..ts[i] }))
    }

    /// Flips `completed` on the task at the given position of the current
    /// order; an out-of-range position is a no-op.
    pub fn toggle(&mut self, index: usize)
        requires
            old(self).wf(),
        ensures
            final(self).wf(),
            index < old(self).tasks().len() ==> final(self).tasks() == Self::toggle_spec(
                old(self).tasks(),
                index as int,
            ),
            index >= old(self).tasks().len() ==> *final(self) == *old(self),
            final(self).next_id == old(self).next_id,
            final(self).sort_mode == old(self).sort_mode,
            final(self).selection == old(self).selection,
            final(self).tasks().len() == old(self).tasks().len(),
    {
        let ghost before = self.tasks();
        if index < self.items.len() {
            let tr = &mut self.items[index];
            tr.completed = !tr.completed;
            proof {
                assert(self.tasks() =~= Self::toggle_spec(before, index as int));
                let after = self.tasks();
                assert forall|m: int| 0 <= m < after.len() implies (#[trigger] after[m]).id
                    < self.next_id as nat && after[m].dates_valid() by {
                    if m != index as int {
                        assert(after[m] == before[m]);
                    }
                }
                assert forall|a: int, b: int| 0 <= a < b < after.len() implies after[a].id
                    != after[b].id by {
                    assert(after[a].id == before[a].id);
                    assert(after[b].id == before[b].id);
                }
            }
        }
    }

    /// Toggling the same position twice restores the list exactly.
    pub proof fn lemma_toggle_involutive(ts: Seq<TaskView>, i: int)
        requires
            0 <= i < ts.len(),
        ensures
            Self::toggle_spec(Self::toggle_spec(ts, i), i) == ts,
    {
        assert(Self::toggle_spec(Self::toggle_spec(ts, i), i) =~= ts);
    }

    /// Removes the task at the given position; the selection clamps to the
    /// new length or clears when the list empties. An out-of-range
    /// position is a no-op.
    pub fn delete(&mut self, index: usize)
        requires
            old(self).wf(),
        ensures
            final(self).wf(),
            index < old(self).tasks().len() ==> final(self).tasks() == old(self).tasks().remove(
                index as int,
            ) && final(self).tasks().len() == old(self).tasks().len() - 1 && final(self).selection
                == clamp_selection(old(self).selection, old(self).tasks().len() - 1),
            index >= old(self).tasks().len() ==> *final(self) == *old(self),
            final(self).next_id == old(self).next_id,
            final(self).sort_mode == old(self).sort_mode,
    {
        let ghost before = self.tasks();
        if index < self.items.len() {
            self.items.remove(index);
            proof {
                assert(self.tasks() =~= before.remove(index as int));
                let after = self.tasks();
                assert forall|m: int| 0 <= m < after.len() implies (#[trigger] after[m]).id
                    < self.next_id as nat && after[m].dates_valid() by {
                    if m < index as int {
                        assert(after[m] == before[m]);
                    } else {
                        assert(after[m] == before[m + 1]);
                    }
                }
                assert forall|a: int, b: int| 0 <= a < b < after.len() implies after[a].id
                    != after[b].id by {
                    let a0 = if a < index as int {
                        a
                    } else {
                        a + 1
                    };
                    let b0 = if b < index as int {
                        b
                    } else {
                        b + 1
                    };
                    assert(after[a] == before[a0]);
                    assert(after[b] == before[b0]);
                }
            }
            if self.items.len() == 0 {
                self.selection = None;
            } else {
                match self.selection {
                    Some(s) => {
                        if s >= self.items.len() {
                            self.selection = Some(self.items.len() - 1);
                        }
                    },
                    None => {},
                }
            }
        }
    }

    /// Moves the selection down one row, wrapping at the end; a no-op on
    /// an empty list.
    pub fn next_row(&mut self)
        requires
            old(self).wf(),
        ensures
            final(self).wf(),
            final(self).items == old(self).items,
            final(self).next_id == old(self).next_id,
            final(self).sort_mode == old(self).sort_mode,
            old(self).tasks().len() == 0 ==> final(self).selection == old(self).selection,
            old(self).tasks().len() > 0 ==> final(self).selection == Some(
                (match old(self).selection {
                    Some(s) => ((s + 1) as int % old(self).tasks().len() as int) as usize,
                    None => 0usize,
                }),
            ),
    {
        if self.items.len() == 0 {
            return ;
        }
        let i = match self.selection {
            Some(s) => (s + 1) % self.items.len(),
            None => 0,
        };
        self.selection = Some(i);
    }

    /// Moves the selection up one row, wrapping at the start; a no-op on
    /// an empty list.
    pub fn previous_row(&mut self)
        requires
            old(self).wf(),
        ensures
            final(self).wf(),
            final(self).items == old(self).items,
            final(self).next_id == old(self).next_id,
            final(self).sort_mode == old(self).sort_mode,
            old(self).tasks().len() == 0 ==> final(self).selection == old(self).selection,
            old(self).tasks().len() > 0 ==> final(self).selection == Some(
                (match old(self).selection {
                    Some(s) => (if s == 0 {
                        (old(self).tasks().len() - 1) as usize
                    } else {
                        (s - 1) as usize
                    }),
                    None => 0usize,
                }),
            ),
    {
        if self.items.len() == 0 {
            return ;
        }
        let i = match self.selection {
            Some(s) => {
                if s == 0 {
                    self.items.len() - 1
                } else {
                    s - 1
                }
            },
            None => 0,
        };
        self.selection = Some(i);
    }

    /// How many tasks are completed, and how many there are in all.
    pub fn progress(&self) -> (r: (usize, usize))
        ensures
            r.0 as nat == self.tasks().filter(complete_pred()).len(),
            r.1 == self.tasks().len(),
            r.0 <= r.1,
    {
        proof {
            reveal(Seq::filter);
            assert(self.tasks().take(0) =~= Seq::<TaskView>::empty());
        }
        let mut c: usize = 0;
        let mut k: usize = 0;
        let n = self.items.len();
        while k < n
            invariant
                k <= n,
                n == self.tasks().len(),
                c as nat == self.tasks().take(k as int).filter(complete_pred()).len(),
                c <= k,
            decreases n - k,
        {
            proof {
                reveal(Seq::filter);
                let tk = self.tasks().take(k as int + 1);
                assert(tk.drop_last() =~= self.tasks().take(k as int));
                assert(tk.last() == self.tasks()[k as int]);
            }
            if self.items[k].completed {
                c += 1;
            }
            k += 1;
        }
        proof {
            assert(self.tasks().take(n as int) =~= self.tasks());
        }
        (c, n)
    }

    /// Loads a store from file content: the decoded tasks when the content
    /// is a well-formed snapshot with unique ids, the counter above every
    /// loaded id; otherwise an empty store. Corrupt or foreign content
    /// degrades to empty by design, it never fails.
    pub fn load_from_content(content: &str) -> (s: Store)
        ensures
            s.wf(),
            s.sort_mode == SortMode::CreatedDate,
            match spec_decode(content@) {
                Some(ts) => if ids_unique(ts) && max_id(ts) < usize::MAX as nat {
                    s.tasks() == ts && s.next_id as nat == max_id(ts) + 1 && s.selection == (if ts.len() > 0 {
                        Some(0usize)
                    } else {
                        None::<usize>
                    })
                } else {
                    s.tasks().len() == 0 && s.next_id == 1
                },
                None => s.tasks().len() == 0 && s.next_id == 1,
            },
    {
        match decode_tasks(content) {
            Some(ts) => {
                if !ids_unique_exec(&ts) {
                    return Store::empty();
                }
                let m = max_id_exec(&ts);
                if m == usize::MAX {
                    return Store::empty();
                }
                proof {
                    assert forall|k: int| 0 <= k < views(ts@).len() implies (
                    #[trigger] views(ts@)[k]).id < (m + 1) as nat && views(
                        ts@,
                    )[k].dates_valid() by {
                        lemma_max_id_ge(views(ts@), k);
                        assert(ts@[k]@ == views(ts@)[k]);
                    }
                }
                let sel: Option<usize> = if ts.len() > 0 {
                    Some(0)
                } else {
                    None
                };
                Store { items: ts, next_id: m + 1, sort_mode: SortMode::CreatedDate, selection: sel }
            },
            None => Store::empty(),
        }
    }

    /// The durable form of the current task list.
    pub fn save_to_string(&self) -> (r: String)
        requires
            self.wf(),
        ensures
            r@ == ser_list(self.tasks()),
    {
        proof {
            assert forall|k: int| 0 <= k < self.items@.len() implies (
            #[trigger] self.items@[k])@.dates_valid() by {
                assert(views(self.items@)[k] == self.items@[k]@);
            }
        }
        encode_tasks(&self.items)
    }

    /// Saving and loading a well-formed store gives the same task list
    /// back, field for field, with the counter above every id.
    pub proof fn lemma_save_load_round_trip(self)
        requires
            self.wf(),
        ensures
            spec_decode(ser_list(self.tasks())) == Some(self.tasks()),
    {
        assert forall|k: int| 0 <= k < self.tasks().len() implies task_wf(
            #[trigger] self.tasks()[k],
        ) by {
            assert(self.tasks()[k].id < self.next_id as nat);
        }
        lemma_round_trip(self.tasks());
    }
}

/// Whether the ids of the given tasks are pairwise distinct.
fn ids_unique_exec(items: &Vec<Task>) -> (r: bool)
    ensures
        r == ids_unique(views(items@)),
{
    let n = items.len();
    let mut k: usize = 0;
    while k < n
        invariant
            k <= n,
            n == items@.len(),
            forall|a: int, b: int| 0 <= a < b < k ==> views(items@)[a].id != views(items@)[b].id,
        decreases n - k,
    {
        let mut l: usize = 0;
        while l < k
            invariant
                l <= k < n,
                n == items@.len(),
                forall|a: int| 0 <= a < l ==> views(items@)[a].id != views(items@)[k as int].id,
            decreases k - l,
        {
            if items[l].id == items[k].id {
                proof {
                    assert(views(items@)[l as int].id == views(items@)[k as int].id);
                }
                return false;
            }
            l += 1;
        }
        k += 1;
    }
    true
}

/// The greatest id among the given tasks, zero when there are none.
fn max_id_exec(items: &Vec<Task>) -> (m: usize)
    ensures
        m as nat == max_id(views(items@)),
{
    let n = items.len();
    let mut m: usize = 0;
    let mut k: usize = 0;
    proof {
        assert(views(items@).take(0) =~= Seq::<TaskView>::empty());
    }
    while k < n
        invariant
            k <= n,
            n == items@.len(),
            m as nat == max_id(views(items@).take(k as int)),
        decreases n - k,
    {
        proof {
            let tk = views(items@).take(k as int + 1);
            assert(tk.drop_last() =~= views(items@).take(k as int));
            assert(tk.last() == views(items@)[k as int]);
        }
        if items[k].id > m {
            m = items[k].id;
        }
        k += 1;
    }
    proof {
        assert(views(items@).take(n as int) =~= views(items@));
    }
    m
}

} // verus!
