//! The transient form editor: three text fields and a field cursor,
//! independent of the store until submitted.

use vstd::prelude::*;
use crate::codec::{str_to_chars, chars_to_string};
use crate::date::push_date;
use crate::task::Task;

verus! {

/// Multi-field text entry for creating or editing a task. The cursor is
/// one of the three fields: title, description, target-date text.
pub struct TaskForm {
    pub title: String,
    pub description: String,
    pub target_date: String,
    /// 0: title, 1: description, 2: target date.
    pub field_index: usize,
}

impl TaskForm {
    pub open spec fn wf(self) -> bool {
        self.field_index < 3
    }

    /// An empty form with the cursor on the title.
    pub fn new() -> (f: TaskForm)
        ensures
            f.wf(),
            f.title@.len() == 0,
            f.description@.len() == 0,
            f.target_date@.len() == 0,
            f.field_index == 0,
    {
        TaskForm {
            title: String::new(),
            description: String::new(),
            target_date: String::new(),
            field_index: 0,
        }
    }

    /// Resets all fields and the cursor: used on cancel and before create.
    pub fn clear(&mut self)
        ensures
            final(self).wf(),
            final(self).title@.len() == 0,
            final(self).description@.len() == 0,
            final(self).target_date@.len() == 0,
            final(self).field_index == 0,
    {
        self.title = String::new();
        self.description = String::new();
        self.target_date = String::new();
        self.field_index = 0;
    }

    /// Moves the cursor forward, wrapping after the last field.
    pub fn next_field(&mut self)
        requires
            old(self).wf(),
        ensures
            final(self).wf(),
            final(self).field_index == (old(self).field_index + 1) % 3,
            final(self).title == old(self).title,
            final(self).description == old(self).description,
            final(self).target_date == old(self).target_date,
    {
        self.field_index = (self.field_index + 1) % 3;
    }

    /// Moves the cursor backward, wrapping before the first field.
    pub fn prev_field(&mut self)
        requires
            old(self).wf(),
        ensures
            final(self).wf(),
            final(self).field_index == (if old(self).field_index == 0 {
                2int
            } else {
                old(self).field_index - 1
            }),
            final(self).title == old(self).title,
            final(self).description == old(self).description,
            final(self).target_date == old(self).target_date,
    {
        self.field_index = if self.field_index == 0 {
            2
        } else {
            self.field_index - 1
        };
    }

    /// The text of the field the cursor is on.
    pub open spec fn spec_current_field(self) -> Seq<char> {
        if self.field_index == 1 {
            self.description@
        } else if self.field_index == 2 {
            self.target_date@
        } else {
            self.title@
        }
    }

    /// A mutable borrow of the field the cursor is on.
    pub fn current_field_mut(&mut self) -> (r: &mut String)
        ensures
            *r == (if old(self).field_index == 1 {
                old(self).description
            } else if old(self).field_index == 2 {
                old(self).target_date
            } else {
                old(self).title
            }),
            old(self).field_index == 1 ==> *final(self) == (TaskForm {
                description: *final(r),
                ..*old(self)
            }),
            old(self).field_index == 2 ==> *final(self) == (TaskForm {
                target_date: *final(r),
                ..*old(self)
            }),
            old(self).field_index != 1 && old(self).field_index != 2 ==> *final(self) == (TaskForm {
                title: *final(r),
                ..*old(self)
            }),
    {
        match self.field_index {
            1 => &mut self.description,
            2 => &mut self.target_date,
            _ => &mut self.title,
        }
    }

    /// Appends a character to the field the cursor is on.
    pub fn append_char(&mut self, c: char)
        requires
            old(self).wf(),
        ensures
            final(self).wf(),
            final(self).field_index == old(self).field_index,
            final(self).spec_current_field() == old(self).spec_current_field().push(c),
            old(self).field_index != 0 ==> final(self).title == old(self).title,
            old(self).field_index != 1 ==> final(self).description == old(self).description,
            old(self).field_index != 2 ==> final(self).target_date == old(self).target_date,
    {
        let r = self.current_field_mut();
        let mut v = str_to_chars(r.as_str());
        v.push(c);
        *r = chars_to_string(&v);
    }

    /// Removes the last character of the field the cursor is on; an empty
    /// field stays empty.
    pub fn backspace(&mut self)
        requires
            old(self).wf(),
        ensures
            final(self).wf(),
            final(self).field_index == old(self).field_index,
            final(self).spec_current_field() == (if old(self).spec_current_field().len() == 0 {
                old(self).spec_current_field()
            } else {
                old(self).spec_current_field().drop_last()
            }),
            old(self).field_index != 0 ==> final(self).title == old(self).title,
            old(self).field_index != 1 ==> final(self).description == old(self).description,
            old(self).field_index != 2 ==> final(self).target_date == old(self).target_date,
    {
        let r = self.current_field_mut();
        let mut v = str_to_chars(r.as_str());
        if v.len() > 0 {
            v.pop();
            proof {
                assert(v@ =~= old(self).spec_current_field().drop_last());
            }
        }
        *r = chars_to_string(&v);
    }

    /// Prefills the form from an existing task for edit mode, the date in
    /// its ISO-8601 text form, with the cursor back on the title.
    pub fn load_from(&mut self, t: &Task)
        requires
            t@.target_date.valid(),
        ensures
            final(self).wf(),
            final(self).title@ == t@.title,
            final(self).description@ == t@.description,
            final(self).target_date@ == crate::date::ser_date(t@.target_date),
            final(self).field_index == 0,
    {
        self.title = t.title.clone();
        self.description = t.description.clone();
        let mut v: Vec<char> = Vec::new();
        push_date(&mut v, &t.target_date);
        self.target_date = chars_to_string(&v);
        self.field_index = 0;
    }
}

} // verus!
