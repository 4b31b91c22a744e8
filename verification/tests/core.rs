use todo_tracker::clock::date_from_clock;
use todo_tracker::controller::{App, Command, Mode};
use todo_tracker::date::Date;
use todo_tracker::form::TaskForm;
use todo_tracker::sort::SortMode;
use todo_tracker::store::Store;
use todo_tracker::task::{StatusClass, Task};

fn d(y: u32, m: u32, day: u32) -> Date {
    Date { year: y, month: m, day }
}

fn task(id: usize, title: &str, target: Date, created: Date, completed: bool) -> Task {
    Task {
        id,
        title: title.to_string(),
        description: String::new(),
        target_date: target,
        created_date: created,
        completed,
    }
}

fn store_of(tasks: Vec<Task>, next_id: usize, selection: Option<usize>) -> Store {
    Store { items: tasks, next_id, sort_mode: SortMode::CreatedDate, selection }
}

#[test]
fn scenario_add_and_toggle() {
    let mut s = Store::empty();
    let id = s.add(
        "Buy milk".to_string(),
        String::new(),
        d(2025, 1, 1),
        d(2025, 1, 1),
    );
    assert_eq!(id, 1);
    assert_eq!(s.items.len(), 1);
    assert_eq!(s.items[0].id, 1);
    assert_eq!(s.items[0].title, "Buy milk");
    assert!(!s.items[0].completed);
    s.toggle(0);
    assert!(s.items[0].completed);
    assert_eq!(s.progress(), (1, 1));
}

#[test]
fn scenario_delete_clamps_selection() {
    let s0 = vec![
        task(1, "a", d(2025, 1, 1), d(2025, 1, 1), false),
        task(2, "b", d(2025, 1, 2), d(2025, 1, 2), false),
        task(3, "c", d(2025, 1, 3), d(2025, 1, 3), false),
    ];
    let mut s = store_of(s0, 4, Some(2));
    s.delete(1);
    let ids: Vec<usize> = s.items.iter().map(|t| t.id).collect();
    assert_eq!(ids, vec![1, 3]);
    assert_eq!(s.selection, Some(1));
}

#[test]
fn scenario_sort_by_target_date() {
    let s0 = vec![
        task(1, "a", d(2025, 3, 1), d(2025, 1, 1), false),
        task(2, "b", d(2025, 1, 1), d(2025, 1, 2), false),
        task(3, "c", d(2025, 2, 1), d(2025, 1, 3), false),
    ];
    let mut s = store_of(s0, 4, None);
    s.set_sort_mode(SortMode::TargetDate);
    let targets: Vec<Date> = s.items.iter().map(|t| t.target_date).collect();
    assert_eq!(targets, vec![d(2025, 1, 1), d(2025, 2, 1), d(2025, 3, 1)]);
}

#[test]
fn toggle_twice_restores() {
    let s0 = vec![
        task(1, "a", d(2025, 1, 1), d(2025, 1, 1), true),
        task(2, "b", d(2025, 1, 2), d(2025, 1, 2), false),
    ];
    let mut s = store_of(s0, 3, None);
    s.toggle(1);
    assert!(s.items[1].completed);
    s.toggle(1);
    assert!(!s.items[1].completed);
    assert_eq!(s.progress(), (1, 2));
}

#[test]
fn toggle_out_of_range_is_noop() {
    let mut s = store_of(vec![task(1, "a", d(2025, 1, 1), d(2025, 1, 1), false)], 2, None);
    s.toggle(5);
    assert!(!s.items[0].completed);
    assert_eq!(s.items.len(), 1);
}

#[test]
fn sort_idempotent() {
    let s0 = vec![
        task(1, "a", d(2025, 3, 1), d(2024, 5, 1), false),
        task(2, "b", d(2025, 1, 1), d(2024, 7, 1), true),
        task(3, "c", d(2025, 2, 1), d(2024, 6, 1), false),
    ];
    let mut s = store_of(s0, 4, None);
    s.set_sort_mode(SortMode::Completion);
    let once: Vec<usize> = s.items.iter().map(|t| t.id).collect();
    s.set_sort_mode(SortMode::Completion);
    let twice: Vec<usize> = s.items.iter().map(|t| t.id).collect();
    assert_eq!(once, twice);
}

#[test]
fn completion_sort_is_stable() {
    let s0 = vec![
        task(1, "a", d(2025, 1, 1), d(2025, 1, 1), true),
        task(2, "b", d(2025, 1, 2), d(2025, 1, 2), false),
        task(3, "c", d(2025, 1, 3), d(2025, 1, 3), true),
        task(4, "e", d(2025, 1, 4), d(2025, 1, 4), false),
    ];
    let mut s = store_of(s0, 5, None);
    s.set_sort_mode(SortMode::Completion);
    let ids: Vec<usize> = s.items.iter().map(|t| t.id).collect();
    assert_eq!(ids, vec![2, 4, 1, 3]);
}

#[test]
fn created_date_sort_is_descending() {
    let s0 = vec![
        task(1, "a", d(2025, 1, 1), d(2024, 1, 1), false),
        task(2, "b", d(2025, 1, 1), d(2024, 3, 1), false),
        task(3, "c", d(2025, 1, 1), d(2024, 2, 1), false),
    ];
    let mut s = store_of(s0, 4, None);
    s.set_sort_mode(SortMode::CreatedDate);
    let ids: Vec<usize> = s.items.iter().map(|t| t.id).collect();
    assert_eq!(ids, vec![2, 3, 1]);
}

#[test]
fn save_load_round_trip() {
    let s0 = vec![
        task(1, "quote \" and backslash \\ inside", d(2025, 3, 1), d(2024, 5, 1), false),
        Task {
            id: 7,
            title: "second".to_string(),
            description: "with, commas: and {braces}".to_string(),
            target_date: d(2024, 2, 29),
            created_date: d(2023, 12, 31),
            completed: true,
        },
    ];
    let s = store_of(s0, 8, None);
    let text = s.save_to_string();
    let loaded = Store::load_from_content(&text);
    assert_eq!(loaded.items.len(), 2);
    assert_eq!(loaded.items[0].id, 1);
    assert_eq!(loaded.items[0].title, "quote \" and backslash \\ inside");
    assert_eq!(loaded.items[0].description, "");
    assert_eq!(loaded.items[0].target_date, d(2025, 3, 1));
    assert_eq!(loaded.items[0].created_date, d(2024, 5, 1));
    assert!(!loaded.items[0].completed);
    assert_eq!(loaded.items[1].id, 7);
    assert_eq!(loaded.items[1].title, "second");
    assert_eq!(loaded.items[1].description, "with, commas: and {braces}");
    assert_eq!(loaded.items[1].target_date, d(2024, 2, 29));
    assert!(loaded.items[1].completed);
    assert_eq!(loaded.next_id, 8);
}

#[test]
fn save_has_exact_form() {
    let s = store_of(vec![task(1, "A", d(2025, 1, 2), d(2024, 12, 31), false)], 2, None);
    let text = s.save_to_string();
    assert_eq!(
        text,
        "[{\"id\":1,\"title\":\"A\",\"description\":\"\",\"target_date\":\"2025-01-02\",\"created_date\":\"2024-12-31\",\"completed\":false}]"
    );
}

#[test]
fn empty_save_load() {
    let s = Store::empty();
    let text = s.save_to_string();
    assert_eq!(text, "[]");
    let loaded = Store::load_from_content(&text);
    assert_eq!(loaded.items.len(), 0);
    assert_eq!(loaded.next_id, 1);
    assert_eq!(loaded.selection, None);
}

#[test]
fn corrupt_content_loads_empty() {
    for garbage in [
        "not json at all",
        "{\"id\":1}",
        "[{\"id\":1,\"title\":\"A\"}]",
        "[{]",
        "",
        "\u{1F600} emoji garbage",
        "[{\"id\":1,\"title\":\"A\",\"description\":\"\",\"target_date\":\"2024-13-40\",\"created_date\":\"2024-12-31\",\"completed\":false}]",
    ] {
        let loaded = Store::load_from_content(garbage);
        assert_eq!(loaded.items.len(), 0);
        assert_eq!(loaded.next_id, 1);
    }
}

#[test]
fn trailing_garbage_loads_empty() {
    let s = store_of(vec![task(1, "A", d(2025, 1, 2), d(2024, 12, 31), false)], 2, None);
    let mut text = s.save_to_string();
    text.push_str("extra");
    let loaded = Store::load_from_content(&text);
    assert_eq!(loaded.items.len(), 0);
}

#[test]
fn duplicate_ids_load_empty() {
    let s = Store::load_from_content(
        "[{\"id\":1,\"title\":\"A\",\"description\":\"\",\"target_date\":\"2025-01-02\",\"created_date\":\"2024-12-31\",\"completed\":false},{\"id\":1,\"title\":\"B\",\"description\":\"\",\"target_date\":\"2025-01-02\",\"created_date\":\"2024-12-31\",\"completed\":true}]",
    );
    assert_eq!(s.items.len(), 0);
    assert_eq!(s.next_id, 1);
}

#[test]
fn load_seeds_next_id_above_max() {
    let text = "[{\"id\":5,\"title\":\"A\",\"description\":\"\",\"target_date\":\"2025-01-02\",\"created_date\":\"2024-12-31\",\"completed\":false},{\"id\":2,\"title\":\"B\",\"description\":\"\",\"target_date\":\"2025-01-03\",\"created_date\":\"2024-12-30\",\"completed\":true}]";
    let mut s = Store::load_from_content(text);
    assert_eq!(s.next_id, 6);
    let id = s.add("new".to_string(), String::new(), d(2025, 2, 1), d(2025, 1, 1));
    assert_eq!(id, 6);
    assert_eq!(s.next_id, 7);
}

#[test]
fn ids_strictly_increase() {
    let mut s = Store::empty();
    let a = s.add("a".to_string(), String::new(), d(2025, 1, 1), d(2025, 1, 1));
    let b = s.add("b".to_string(), String::new(), d(2025, 1, 2), d(2025, 1, 2));
    s.delete(0);
    s.delete(0);
    let c = s.add("c".to_string(), String::new(), d(2025, 1, 3), d(2025, 1, 3));
    assert!(a < b && b < c);
    assert_eq!((a, b, c), (1, 2, 3));
}

#[test]
fn date_validation() {
    assert!(d(2024, 2, 29).is_valid());
    assert!(!d(2023, 2, 29).is_valid());
    assert!(!d(2024, 13, 1).is_valid());
    assert!(!d(2024, 12, 32).is_valid());
    assert!(!d(2024, 0, 1).is_valid());
    assert!(d(1900, 2, 28).is_valid());
    assert!(!d(1900, 2, 29).is_valid());
    assert!(d(2000, 2, 29).is_valid());
    assert!(!d(10000, 1, 1).is_valid());
}

#[test]
fn date_ordering() {
    assert!(d(2024, 12, 31).lt(&d(2025, 1, 1)));
    assert!(d(2025, 1, 1).lt(&d(2025, 2, 1)));
    assert!(d(2025, 2, 1).lt(&d(2025, 2, 2)));
    assert!(!d(2025, 2, 2).lt(&d(2025, 2, 2)));
    assert!(d(2025, 2, 2).le(&d(2025, 2, 2)));
}

#[test]
fn overdue_is_derived_from_today() {
    let t = task(1, "a", d(2025, 1, 10), d(2025, 1, 1), false);
    assert!(!t.is_overdue(&d(2025, 1, 10)));
    assert!(t.is_overdue(&d(2025, 1, 11)));
    let done = task(2, "b", d(2025, 1, 10), d(2025, 1, 1), true);
    assert!(!done.is_overdue(&d(2025, 1, 11)));
}

#[test]
fn form_field_cursor_wraps() {
    let mut f = TaskForm::new();
    assert_eq!(f.field_index, 0);
    f.next_field();
    f.next_field();
    assert_eq!(f.field_index, 2);
    f.next_field();
    assert_eq!(f.field_index, 0);
    f.prev_field();
    assert_eq!(f.field_index, 2);
    f.prev_field();
    assert_eq!(f.field_index, 1);
}

#[test]
fn form_text_editing() {
    let mut f = TaskForm::new();
    f.append_char('h');
    f.append_char('i');
    assert_eq!(f.title, "hi");
    f.next_field();
    f.append_char('x');
    assert_eq!(f.description, "x");
    assert_eq!(f.title, "hi");
    f.backspace();
    f.backspace();
    assert_eq!(f.description, "");
    f.prev_field();
    f.backspace();
    assert_eq!(f.title, "h");
    f.clear();
    assert_eq!(f.title, "");
    assert_eq!(f.field_index, 0);
}

#[test]
fn form_current_field_mut_follows_cursor() {
    let mut f = TaskForm::new();
    *f.current_field_mut() = "t".to_string();
    f.next_field();
    *f.current_field_mut() = "de".to_string();
    f.next_field();
    *f.current_field_mut() = "2025-01-01".to_string();
    assert_eq!(f.title, "t");
    assert_eq!(f.description, "de");
    assert_eq!(f.target_date, "2025-01-01");
}

#[test]
fn form_load_from_formats_date() {
    let t = task(3, "x", d(2025, 7, 9), d(2025, 1, 1), false);
    let mut f = TaskForm::new();
    f.append_char('z');
    f.load_from(&t);
    assert_eq!(f.title, "x");
    assert_eq!(f.target_date, "2025-07-09");
    assert_eq!(f.field_index, 0);
}

#[test]
fn submit_invalid_date_keeps_form_open() {
    let mut app = App::new(Store::empty());
    let today = d(2025, 1, 1);
    app.handle_command(Command::StartCreate, today);
    for c in "t".chars() {
        app.handle_command(Command::InsertChar(c), today);
    }
    app.handle_command(Command::NextField, today);
    app.handle_command(Command::NextField, today);
    for c in "2024-13-40".chars() {
        app.handle_command(Command::InsertChar(c), today);
    }
    let r = app.handle_command(Command::Submit, today);
    assert!(!r.save && !r.quit);
    assert_eq!(app.store.items.len(), 0);
    assert!(matches!(app.mode, Mode::AddTask { .. }));
}

#[test]
fn submit_valid_date_creates_task() {
    let mut app = App::new(Store::empty());
    let today = d(2025, 1, 1);
    app.handle_command(Command::StartCreate, today);
    for c in "Buy milk".chars() {
        app.handle_command(Command::InsertChar(c), today);
    }
    app.handle_command(Command::NextField, today);
    app.handle_command(Command::NextField, today);
    for c in "2025-01-01".chars() {
        app.handle_command(Command::InsertChar(c), today);
    }
    let r = app.handle_command(Command::Submit, today);
    assert!(r.save && !r.quit);
    assert!(matches!(app.mode, Mode::Normal));
    assert_eq!(app.store.items.len(), 1);
    assert_eq!(app.store.items[0].title, "Buy milk");
    assert_eq!(app.store.items[0].target_date, d(2025, 1, 1));
    assert_eq!(app.store.items[0].created_date, today);
    assert!(!app.store.items[0].completed);
}

#[test]
fn edit_flow_changes_fields_keeps_id() {
    let s0 = vec![task(9, "old", d(2025, 1, 1), d(2025, 1, 1), false)];
    let mut app = App::new(store_of(s0, 10, Some(0)));
    let today = d(2025, 1, 2);
    app.handle_command(Command::StartEdit, today);
    match &app.mode {
        Mode::EditTask { form, edit_id } => {
            assert_eq!(*edit_id, 9);
            assert_eq!(form.title, "old");
            assert_eq!(form.target_date, "2025-01-01");
        }
        _ => panic!("expected edit mode"),
    }
    app.handle_command(Command::Backspace, today);
    app.handle_command(Command::Backspace, today);
    app.handle_command(Command::Backspace, today);
    for c in "new".chars() {
        app.handle_command(Command::InsertChar(c), today);
    }
    let r = app.handle_command(Command::Submit, today);
    assert!(r.save);
    assert_eq!(app.store.items[0].id, 9);
    assert_eq!(app.store.items[0].title, "new");
    assert_eq!(app.store.items[0].created_date, d(2025, 1, 1));
}

#[test]
fn cancel_returns_to_browsing_unchanged() {
    let mut app = App::new(Store::empty());
    let today = d(2025, 1, 1);
    app.handle_command(Command::StartCreate, today);
    app.handle_command(Command::InsertChar('x'), today);
    let r = app.handle_command(Command::Cancel, today);
    assert!(!r.save && !r.quit);
    assert!(matches!(app.mode, Mode::Normal));
    assert_eq!(app.store.items.len(), 0);
}

#[test]
fn navigation_wraps_both_ways() {
    let s0 = vec![
        task(1, "a", d(2025, 1, 1), d(2025, 1, 3), false),
        task(2, "b", d(2025, 1, 2), d(2025, 1, 2), false),
        task(3, "c", d(2025, 1, 3), d(2025, 1, 1), false),
    ];
    let mut app = App::new(store_of(s0, 4, Some(0)));
    let today = d(2025, 1, 1);
    app.handle_command(Command::MoveUp, today);
    assert_eq!(app.store.selection, Some(2));
    app.handle_command(Command::MoveDown, today);
    assert_eq!(app.store.selection, Some(0));
    app.handle_command(Command::MoveDown, today);
    assert_eq!(app.store.selection, Some(1));
}

#[test]
fn navigation_on_empty_store_is_noop() {
    let mut app = App::new(Store::empty());
    let today = d(2025, 1, 1);
    let r = app.handle_command(Command::MoveDown, today);
    assert!(!r.save);
    assert_eq!(app.store.selection, None);
    app.handle_command(Command::MoveUp, today);
    assert_eq!(app.store.selection, None);
    let r2 = app.handle_command(Command::ToggleSelected, today);
    assert!(!r2.save);
    let r3 = app.handle_command(Command::DeleteSelected, today);
    assert!(!r3.save);
    app.handle_command(Command::StartEdit, today);
    assert!(matches!(app.mode, Mode::Normal));
}

#[test]
fn delete_last_task_clears_selection() {
    let s0 = vec![task(1, "a", d(2025, 1, 1), d(2025, 1, 1), false)];
    let mut s = store_of(s0, 2, Some(0));
    s.delete(0);
    assert_eq!(s.items.len(), 0);
    assert_eq!(s.selection, None);
}

#[test]
fn edit_absent_id_is_noop() {
    let s0 = vec![task(1, "a", d(2025, 1, 1), d(2025, 1, 1), false)];
    let mut s = store_of(s0, 2, None);
    let found = s.edit(42, "x".to_string(), String::new(), d(2025, 2, 2));
    assert!(!found);
    assert_eq!(s.items[0].title, "a");
}

#[test]
fn snapshot_reflects_state() {
    let s0 = vec![
        task(1, "late", d(2025, 1, 1), d(2025, 1, 1), false),
        task(2, "done", d(2025, 1, 1), d(2025, 1, 1), true),
        task(3, "future", d(2025, 3, 1), d(2025, 1, 1), false),
    ];
    let app = App::new(store_of(s0, 4, Some(1)));
    let snap = app.snapshot(&d(2025, 2, 1));
    assert_eq!(snap.total_count, 3);
    assert_eq!(snap.completed_count, 1);
    assert_eq!(snap.selection, Some(1));
    assert!(snap.rows[0].overdue);
    assert!(!snap.rows[1].overdue);
    assert!(!snap.rows[2].overdue);
    assert_eq!(snap.rows[0].title, "late");
}

#[test]
fn quit_only_from_browsing() {
    let mut app = App::new(Store::empty());
    let today = d(2025, 1, 1);
    app.handle_command(Command::StartCreate, today);
    let r = app.handle_command(Command::Quit, today);
    assert!(!r.quit);
    app.handle_command(Command::Cancel, today);
    let r2 = app.handle_command(Command::Quit, today);
    assert!(r2.quit);
}

#[test]
fn clock_reading_is_validated() {
    assert_eq!(date_from_clock(2025, 6, 15), d(2025, 6, 15));
    assert!(date_from_clock(-5, 1, 1).is_valid());
    assert!(date_from_clock(2025, 13, 1).is_valid());
    assert!(date_from_clock(20000, 1, 1).is_valid());
}

#[test]
fn status_class_matches_state() {
    let today = d(2025, 2, 1);
    assert_eq!(
        task(1, "a", d(2025, 1, 1), d(2025, 1, 1), true).status_class(&today),
        StatusClass::Completed,
    );
    assert_eq!(
        task(2, "b", d(2025, 1, 1), d(2025, 1, 1), false).status_class(&today),
        StatusClass::Overdue
    );
    assert_eq!(
        task(3, "c", d(2025, 3, 1), d(2025, 1, 1), false).status_class(&today),
        StatusClass::Normal
    );
}

#[test]
fn controller_sort_toggle_delete_flow() {
    let s0 = vec![
        task(1, "a", d(2025, 3, 1), d(2025, 1, 1), false),
        task(2, "b", d(2025, 1, 1), d(2025, 1, 2), false),
    ];
    let mut app = App::new(store_of(s0, 3, Some(0)));
    let today = d(2025, 1, 5);
    let r = app.handle_command(Command::SetSort(SortMode::TargetDate), today);
    assert!(!r.save);
    let ids: Vec<usize> = app.store.items.iter().map(|t| t.id).collect();
    assert_eq!(ids, vec![2, 1]);
    let r2 = app.handle_command(Command::ToggleSelected, today);
    assert!(r2.save);
    assert!(app.store.items[0].completed);
    let r3 = app.handle_command(Command::DeleteSelected, today);
    assert!(r3.save);
    assert_eq!(app.store.items.len(), 1);
    assert_eq!(app.store.items[0].id, 1);
    assert_eq!(app.store.selection, Some(0));
}
