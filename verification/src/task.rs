//! Tasks: the persisted unit of work, its mathematical view, and the
//! properties derived from it at read time (overdue, status class).

use vstd::prelude::*;
use crate::date::Date;

verus! {

/// A persisted task. `created_date` is set once at creation and never
/// changed; `target_date` is always a valid calendar date.
pub struct Task {
    pub id: usize,
    pub title: String,
    pub description: String,
    pub target_date: Date,
    pub created_date: Date,
    pub completed: bool,
}

/// The mathematical view of a task: the same fields over `Seq<char>`
/// and `nat`.
pub struct TaskView {
    pub id: nat,
    pub title: Seq<char>,
    pub description: Seq<char>,
    pub target_date: Date,
    pub created_date: Date,
    pub completed: bool,
}

impl View for Task {
    type V = TaskView;

    open spec fn view(&self) -> TaskView {
        TaskView {
            id: self.id as nat,
            title: self.title@,
            description: self.description@,
            target_date: self.target_date,
            created_date: self.created_date,
            completed: self.completed,
        }
    }
}

impl TaskView {
    /// Both dates are real calendar days.
    pub open spec fn dates_valid(self) -> bool {
        self.target_date.valid() && self.created_date.valid()
    }

    /// Derived, never stored: an incomplete task whose target date has
    /// passed. Computed against the current day at every read.
    pub open spec fn spec_overdue(self, today: Date) -> bool {
        !self.completed && self.target_date.spec_lt(today)
    }
}

/// The presentation class of a task row.
#[derive(Clone, Copy, PartialEq, Eq, Structural, Debug)]
pub enum StatusClass {
    Completed,
    Overdue,
    Normal,
}

pub open spec fn spec_status(t: TaskView, today: Date) -> StatusClass {
    if t.completed {
        StatusClass::Completed
    } else if t.spec_overdue(today) {
        StatusClass::Overdue
    } else {
        StatusClass::Normal
    }
}

impl Task {
    /// A fresh, incomplete task.
    pub fn new(id: usize, title: String, description: String, target_date: Date, created_date: Date) -> (t: Task)
        ensures
            t@ == (TaskView {
                id: id as nat,
                title: title@,
                description: description@,
                target_date: target_date,
                created_date: created_date,
                completed: false,
            }),
    {
        Task { id, title, description, target_date, created_date, completed: false }
    }

    pub fn is_overdue(&self, today: &Date) -> (r: bool)
        ensures
            r == self@.spec_overdue(*today),
    {
        !self.completed && self.target_date.lt(today)
    }

    pub fn status_class(&self, today: &Date) -> (r: StatusClass)
        ensures
            r == spec_status(self@, *today),
    {
        if self.completed {
            StatusClass::Completed
        } else if self.is_overdue(today) {
            StatusClass::Overdue
        } else {
            StatusClass::Normal
        }
    }
}

impl Clone for Task {
    fn clone(&self) -> (r: Task)
        ensures
            r@ == self@,
    {
        Task {
            id: self.id,
            title: self.title.clone(),
            description: self.description.clone(),
            target_date: self.target_date,
            created_date: self.created_date,
            completed: self.completed,
        }
    }
}

/// The views of a sequence of tasks.
pub open spec fn views(s: Seq<Task>) -> Seq<TaskView> {
    s.map_values(|t: Task| t@)
}

} // verus!
