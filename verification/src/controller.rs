//! The application controller: the current mode, the routing of logical
//! commands to the store or the form, and the snapshot handed to the
//! rendering layer. Every command that mutates the store reports that a
//! save is due before control returns.

use vstd::prelude::*;
use crate::codec::str_to_chars;
use crate::date::{Date, ser_date, spec_parse_date, parse_date};
use crate::form::TaskForm;
use crate::sort::{SortMode, isort, complete_pred};
use crate::store::{Store, find_id, clamp_selection};
use crate::task::{TaskView, views, spec_status, StatusClass};

verus! {

/// Which state the interface is in; form state exists only while a form
/// is open.
pub enum Mode {
    Normal,
    AddTask { form: TaskForm },
    EditTask { form: TaskForm, edit_id: usize },
}

/// The logical commands, already decoded from raw key presses.
pub enum Command {
    Quit,
    MoveUp,
    MoveDown,
    ToggleSelected,
    StartCreate,
    StartEdit,
    DeleteSelected,
    SetSort(SortMode),
    Cancel,
    Submit,
    NextField,
    PrevField,
    InsertChar(char),
    Backspace,
}

/// What the caller must do after a command: stop the loop, or persist the
/// store first.
pub struct StepResult {
    pub quit: bool,
    pub save: bool,
}

/// What a form's target-date text denotes: a date, if the whole text is
/// one well-formed `YYYY-MM-DD` calendar day.
pub open spec fn form_date(s: Seq<char>) -> Option<Date> {
    match spec_parse_date(s, 0) {
        Some((d, j)) => if j == s.len() {
            Some(d)
        } else {
            None
        },
        None => None,
    }
}

/// The new task a submission in create mode makes.
pub open spec fn new_task_view(id: nat, f: TaskForm, d: Date, today: Date) -> TaskView {
    TaskView {
        id,
        title: f.title@,
        description: f.description@,
        target_date: d,
        created_date: today,
        completed: false,
    }
}

/// The form a form mode carries; meaningless while browsing.
pub open spec fn form_of(m: Mode) -> TaskForm {
    match m {
        Mode::AddTask { form } => form,
        Mode::EditTask { form, edit_id } => form,
        Mode::Normal => arbitrary(),
    }
}

/// The two modes are the same variant, and an edit is still of the same
/// task.
pub open spec fn same_form_slot(m1: Mode, m2: Mode) -> bool {
    match m1 {
        Mode::Normal => m2 is Normal,
        Mode::AddTask { form } => m2 is AddTask,
        Mode::EditTask { form, edit_id } => (m2 matches Mode::EditTask {
            form: f2,
            edit_id: e2,
        } && e2 == edit_id),
    }
}

pub struct App {
    pub store: Store,
    pub mode: Mode,
}

/// The routing contract of the browsing mode: what each command does to
/// the store and the mode, and when a save is due.
pub open spec fn browse_step(pre: App, post: App, cmd: Command, r: StepResult) -> bool {
    &&& (cmd is Quit ==> post == pre && !r.save)
    &&& (cmd is MoveDown ==> !r.save && post.mode is Normal && post.store.items == pre.store.items
        && post.store.next_id == pre.store.next_id && post.store.sort_mode == pre.store.sort_mode
        && (pre.store.tasks().len() == 0 ==> post.store.selection == pre.store.selection) && (
    pre.store.tasks().len() > 0 ==> post.store.selection == Some(
        (match pre.store.selection {
            Some(s) => ((s + 1) as int % pre.store.tasks().len() as int) as usize,
            None => 0usize,
        }),
    )))
    &&& (cmd is MoveUp ==> !r.save && post.mode is Normal && post.store.items == pre.store.items
        && post.store.next_id == pre.store.next_id && post.store.sort_mode == pre.store.sort_mode
        && (pre.store.tasks().len() == 0 ==> post.store.selection == pre.store.selection) && (
    pre.store.tasks().len() > 0 ==> post.store.selection == Some(
        (match pre.store.selection {
            Some(s) => (if s == 0 {
                (pre.store.tasks().len() - 1) as usize
            } else {
                (s - 1) as usize
            }),
            None => 0usize,
        }),
    )))
    &&& (cmd is ToggleSelected ==> post.mode is Normal && (match pre.store.selection {
        Some(s) => r.save && post.store.tasks() == Store::toggle_spec(pre.store.tasks(), s as int)
            && post.store.selection == pre.store.selection && post.store.next_id
            == pre.store.next_id && post.store.sort_mode == pre.store.sort_mode,
        None => post == pre && !r.save,
    }))
    &&& (cmd is StartCreate ==> !r.save && post.store == pre.store && (post.mode
        matches Mode::AddTask { form } ==> form.title@.len() == 0 && form.description@.len() == 0
        && form.target_date@.len() == 0 && form.field_index == 0) && post.mode is AddTask)
    &&& (cmd is StartEdit ==> !r.save && post.store == pre.store && (match pre.store.selection {
        Some(s) => post.mode matches Mode::EditTask { form, edit_id } && edit_id as nat
            == pre.store.tasks()[s as int].id && form.title@ == pre.store.tasks()[s as int].title
            && form.description@ == pre.store.tasks()[s as int].description && form.target_date@
            == ser_date(pre.store.tasks()[s as int].target_date) && form.field_index == 0,
        None => post == pre,
    }))
    &&& (cmd is DeleteSelected ==> post.mode is Normal && (match pre.store.selection {
        Some(s) => r.save && post.store.tasks() == pre.store.tasks().remove(s as int)
            && post.store.next_id == pre.store.next_id && post.store.sort_mode
            == pre.store.sort_mode && post.store.selection == clamp_selection(
            pre.store.selection,
            pre.store.tasks().len() - 1,
        ),
        None => post == pre && !r.save,
    }))
    &&& (cmd matches Command::SetSort(m) ==> !r.save && post.mode is Normal
        && post.store.sort_mode == m && post.store.tasks() == isort(m, pre.store.tasks())
        && post.store.next_id == pre.store.next_id && post.store.selection
        == pre.store.selection)
    &&& ((cmd is Cancel || cmd is Submit || cmd is NextField || cmd is PrevField
        || cmd matches Command::InsertChar(_) || cmd is Backspace) ==> post == pre && !r.save)
}

/// The routing contract of the two form modes: the form keeps its slot
/// (same variant, same edited task) while its cursor and texts evolve, and
/// only a successful submission touches the store.
pub open spec fn form_step(pre: App, post: App, cmd: Command, today: Date, r: StepResult) -> bool {
    &&& (cmd is Cancel ==> !r.save && post.mode is Normal && post.store == pre.store)
    &&& (cmd is NextField ==> !r.save && post.store == pre.store && same_form_slot(
        pre.mode,
        post.mode,
    ) && form_of(post.mode).field_index == (form_of(pre.mode).field_index + 1) % 3 && form_of(
        post.mode,
    ).title == form_of(pre.mode).title && form_of(post.mode).description == form_of(
        pre.mode,
    ).description && form_of(post.mode).target_date == form_of(pre.mode).target_date)
    &&& (cmd is PrevField ==> !r.save && post.store == pre.store && same_form_slot(
        pre.mode,
        post.mode,
    ) && form_of(post.mode).field_index == (if form_of(pre.mode).field_index == 0 {
        2int
    } else {
        form_of(pre.mode).field_index - 1
    }) && form_of(post.mode).title == form_of(pre.mode).title && form_of(post.mode).description
        == form_of(pre.mode).description && form_of(post.mode).target_date == form_of(
        pre.mode,
    ).target_date)
    &&& (cmd matches Command::InsertChar(c) ==> !r.save && post.store == pre.store
        && same_form_slot(pre.mode, post.mode) && form_of(post.mode).field_index == form_of(
        pre.mode,
    ).field_index && form_of(post.mode).spec_current_field() == form_of(
        pre.mode,
    ).spec_current_field().push(c) && (form_of(pre.mode).field_index != 0 ==> form_of(
        post.mode,
    ).title == form_of(pre.mode).title) && (form_of(pre.mode).field_index != 1 ==> form_of(
        post.mode,
    ).description == form_of(pre.mode).description) && (form_of(pre.mode).field_index != 2
        ==> form_of(post.mode).target_date == form_of(pre.mode).target_date))
    &&& (cmd is Backspace ==> !r.save && post.store == pre.store && same_form_slot(
        pre.mode,
        post.mode,
    ) && form_of(post.mode).field_index == form_of(pre.mode).field_index && form_of(
        post.mode,
    ).spec_current_field() == (if form_of(pre.mode).spec_current_field().len() == 0 {
        form_of(pre.mode).spec_current_field()
    } else {
        form_of(pre.mode).spec_current_field().drop_last()
    }) && (form_of(pre.mode).field_index != 0 ==> form_of(post.mode).title == form_of(
        pre.mode,
    ).title) && (form_of(pre.mode).field_index != 1 ==> form_of(post.mode).description == form_of(
        pre.mode,
    ).description) && (form_of(pre.mode).field_index != 2 ==> form_of(post.mode).target_date
        == form_of(pre.mode).target_date))
    &&& ((cmd is Quit || cmd is MoveUp || cmd is MoveDown || cmd is ToggleSelected
        || cmd is StartCreate || cmd is StartEdit || cmd is DeleteSelected
        || cmd matches Command::SetSort(_)) ==> post == pre && !r.save)
    &&& (cmd is Submit ==> match pre.mode {
        Mode::AddTask { form } => {
            &&& (form_date(form.target_date@) is None || pre.store.next_id == usize::MAX ==> post
                == pre && !r.save)
            &&& ((form_date(form.target_date@) matches Some(d) && pre.store.next_id < usize::MAX)
                ==> r.save && post.mode is Normal && post.store.tasks() == isort(
                pre.store.sort_mode,
                pre.store.tasks().push(
                    new_task_view(
                        pre.store.next_id as nat,
                        form,
                        form_date(form.target_date@).unwrap(),
                        today,
                    ),
                ),
            ) && post.store.next_id == pre.store.next_id + 1 && post.store.sort_mode
                == pre.store.sort_mode && post.store.selection == pre.store.selection)
        },
        Mode::EditTask { form, edit_id } => {
            &&& (form_date(form.target_date@) is None ==> post == pre && !r.save)
            &&& (form_date(form.target_date@) matches Some(d) ==> post.mode is Normal
                && post.store.next_id == pre.store.next_id && post.store.sort_mode
                == pre.store.sort_mode && post.store.selection == pre.store.selection && (find_id(
                pre.store.tasks(),
                edit_id as nat,
            ) >= 0 ==> r.save && post.store.tasks() == isort(
                pre.store.sort_mode,
                pre.store.tasks().update(
                    find_id(pre.store.tasks(), edit_id as nat),
                    (TaskView {
                        title: form.title@,
                        description: form.description@,
                        target_date: d,
                        ..pre.store.tasks()[find_id(pre.store.tasks(), edit_id as nat)]
                    }),
                ),
            )) && (find_id(pre.store.tasks(), edit_id as nat) < 0 ==> !r.save && post.store
                == pre.store))
        },
        Mode::Normal => true,
    })
}

impl App {
    pub open spec fn wf(self) -> bool {
        &&& self.store.wf()
        &&& (self.mode matches Mode::AddTask { form } ==> form.wf())
        &&& (self.mode matches Mode::EditTask { form, edit_id } ==> form.wf())
    }

    /// A controller over the given store, browsing.
    pub fn new(store: Store) -> (app: App)
        requires
            store.wf(),
        ensures
            app.wf(),
            app.store == store,
            app.mode is Normal,
    {
        App { store, mode: Mode::Normal }
    }

    /// Routes one logical command. Illegal commands for the current mode
    /// are no-ops. `today` stamps the creation date of a submitted new
    /// task and is the day overdue status is judged against.
    pub fn handle_command(&mut self, cmd: Command, today: Date) -> (r: StepResult)
        requires
            old(self).wf(),
            today.valid(),
        ensures
            final(self).wf(),
            r.quit == (old(self).mode is Normal && cmd is Quit),
            old(self).mode is Normal ==> browse_step(*old(self), *final(self), cmd, r),
            !(old(self).mode is Normal) ==> form_step(*old(self), *final(self), cmd, today, r),
    {
        match &self.mode {
            Mode::Normal => {
                match cmd {
                    Command::Quit => StepResult { quit: true, save: false },
                    Command::MoveDown => {
                        self.store.next_row();
                        StepResult { quit: false, save: false }
                    },
                    Command::MoveUp => {
                        self.store.previous_row();
                        StepResult { quit: false, save: false }
                    },
                    Command::ToggleSelected => {
                        match self.store.selection {
                            Some(s) => {
                                self.store.toggle(s);
                                StepResult { quit: false, save: true }
                            },
                            None => StepResult { quit: false, save: false },
                        }
                    },
                    Command::StartCreate => {
                        self.mode = Mode::AddTask { form: TaskForm::new() };
                        StepResult { quit: false, save: false }
                    },
                    Command::StartEdit => {
                        match self.store.selection {
                            Some(s) => {
                                let mut form = TaskForm::new();
                                proof {
                                    assert(self.store.tasks()[s as int].dates_valid());
                                    assert(views(self.store.items@)[s as int] == self.store.items@[s as int]@);
                                }
                                form.load_from(&self.store.items[s]);
                                let edit_id = self.store.items[s].id;
                                self.mode = Mode::EditTask { form, edit_id };
                                StepResult { quit: false, save: false }
                            },
                            None => StepResult { quit: false, save: false },
                        }
                    },
                    Command::DeleteSelected => {
                        match self.store.selection {
                            Some(s) => {
                                self.store.delete(s);
                                StepResult { quit: false, save: true }
                            },
                            None => StepResult { quit: false, save: false },
                        }
                    },
                    Command::SetSort(m) => {
                        self.store.set_sort_mode(m);
                        StepResult { quit: false, save: false }
                    },
                    _ => StepResult { quit: false, save: false },
                }
            },
            Mode::AddTask { form: _ } => self.handle_form_command(cmd, today),
            Mode::EditTask { form: _, edit_id: _ } => self.handle_form_command(cmd, today),
        }
    }

    /// Routes a command while a form is open.
    fn handle_form_command(&mut self, cmd: Command, today: Date) -> (r: StepResult)
        requires
            old(self).wf(),
            today.valid(),
            !(old(self).mode is Normal),
        ensures
            final(self).wf(),
            !r.quit,
            form_step(*old(self), *final(self), cmd, today, r),
    {
        match cmd {
            Command::Cancel => {
                self.mode = Mode::Normal;
                StepResult { quit: false, save: false }
            },
            Command::NextField => {
                match &mut self.mode {
                    Mode::AddTask { form } => form.next_field(),
                    Mode::EditTask { form, edit_id: _ } => form.next_field(),
                    Mode::Normal => {},
                }
                StepResult { quit: false, save: false }
            },
            Command::PrevField => {
                match &mut self.mode {
                    Mode::AddTask { form } => form.prev_field(),
                    Mode::EditTask { form, edit_id: _ } => form.prev_field(),
                    Mode::Normal => {},
                }
                StepResult { quit: false, save: false }
            },
            Command::InsertChar(c) => {
                match &mut self.mode {
                    Mode::AddTask { form } => form.append_char(c),
                    Mode::EditTask { form, edit_id: _ } => form.append_char(c),
                    Mode::Normal => {},
                }
                StepResult { quit: false, save: false }
            },
            Command::Backspace => {
                match &mut self.mode {
                    Mode::AddTask { form } => form.backspace(),
                    Mode::EditTask { form, edit_id: _ } => form.backspace(),
                    Mode::Normal => {},
                }
                StepResult { quit: false, save: false }
            },
            Command::Submit => {
                let (editing, edit_id, title, description, date_text) = match &self.mode {
                    Mode::AddTask { form } => (
                        false,
                        0usize,
                        form.title.clone(),
                        form.description.clone(),
                        form.target_date.clone(),
                    ),
                    Mode::EditTask { form, edit_id } => (
                        true,
                        *edit_id,
                        form.title.clone(),
                        form.description.clone(),
                        form.target_date.clone(),
                    ),
                    Mode::Normal => (false, 0usize, String::new(), String::new(), String::new()),
                };
                let chars = str_to_chars(date_text.as_str());
                let parsed = parse_date(&chars, 0);
                match parsed {
                    Some((d, j)) => {
                        if j != chars.len() {
                            return StepResult { quit: false, save: false };
                        }
                        if editing {
                            let found = self.store.edit(edit_id, title, description, d);
                            self.mode = Mode::Normal;
                            StepResult { quit: false, save: found }
                        } else {
                            if self.store.next_id == usize::MAX {
                                return StepResult { quit: false, save: false };
                            }
                            let _ = self.store.add(title, description, d, today);
                            self.mode = Mode::Normal;
                            StepResult { quit: false, save: true }
                        }
                    },
                    None => StepResult { quit: false, save: false },
                }
            },
            _ => StepResult { quit: false, save: false },
        }
    }
}

/// One visible row of the snapshot, with the derived overdue flag.
pub struct Row {
    pub title: String,
    pub description: String,
    pub target_date: Date,
    pub completed: bool,
    pub status: StatusClass,
    pub overdue: bool,
}

/// The read-only projection handed to the rendering layer each cycle.
pub struct Snapshot {
    pub rows: Vec<Row>,
    pub selection: Option<usize>,
    pub sort_mode: SortMode,
    pub completed_count: usize,
    pub total_count: usize,
}

impl App {
    /// The renderable snapshot of the current state, overdue status judged
    /// against `today` at this read, never cached.
    pub fn snapshot(&self, today: &Date) -> (snap: Snapshot)
        requires
            self.wf(),
        ensures
            snap.rows@.len() == self.store.tasks().len(),
            forall|k: int|
                0 <= k < snap.rows@.len() ==> {
                    let t = self.store.tasks()[k];
                    let row = #[trigger] snap.rows@[k];
                    row.title@ == t.title && row.description@ == t.description && row.target_date
                        == t.target_date && row.completed == t.completed && row.overdue
                        == t.spec_overdue(*today) && row.status == spec_status(t, *today)
                },
            snap.selection == self.store.selection,
            snap.sort_mode == self.store.sort_mode,
            snap.completed_count as nat == self.store.tasks().filter(complete_pred()).len(),
            snap.total_count == self.store.tasks().len(),
    {
        let mut rows: Vec<Row> = Vec::new();
        let n = self.store.items.len();
        let mut k: usize = 0;
        while k < n
            invariant
                k <= n,
                n == self.store.items@.len(),
                rows@.len() == k,
                forall|m: int|
                    0 <= m < k ==> {
                        let t = views(self.store.items@)[m];
                        let row = #[trigger] rows@[m];
                        row.title@ == t.title && row.description@ == t.description
                            && row.target_date == t.target_date && row.completed == t.completed
                            && row.overdue == t.spec_overdue(*today) && row.status == spec_status(
                            t,
                            *today,
                        )
                    },
            decreases n - k,
        {
            let t = &self.store.items[k];
            let row = Row {
                title: t.title.clone(),
                description: t.description.clone(),
                target_date: t.target_date,
                completed: t.completed,
                status: t.status_class(today),
                overdue: t.is_overdue(today),
            };
            rows.push(row);
            k += 1;
        }
        let (completed_count, total_count) = self.store.progress();
        Snapshot {
            rows,
            selection: self.store.selection,
            sort_mode: self.store.sort_mode,
            completed_count,
            total_count,
        }
    }
}

} // verus!
