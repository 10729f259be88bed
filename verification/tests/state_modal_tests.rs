use loop_tasks::keys::{KeyCode, KeyPress};
use loop_tasks::modal::{EditTaskModal, Field, Modal, ModalControl};
use loop_tasks::state::{SortBy, State};
use loop_tasks::store::{Format, Store};
use loop_tasks::task::{Priority, Status, Task};

fn key(code: KeyCode) -> KeyPress {
    KeyPress { code, control: false }
}

fn ctrl(c: char) -> KeyPress {
    KeyPress { code: KeyCode::Char(c), control: true }
}

fn typed(m: &mut Modal, store: &mut Store, text: &str) {
    for c in text.chars() {
        assert_eq!(m.handle_keys(key(KeyCode::Char(c)), store), Ok(false));
    }
}

fn inner(m: &Modal) -> &EditTaskModal {
    match m {
        Modal::EditTaskModal(e) => e,
    }
}

#[test]
fn sort_by_rotates_through_all_four() {
    let mut s = State::default();
    assert_eq!((s.selected, s.sort_by, s.scroll), (0, SortBy::Context, 0));
    let mut seen = Vec::new();
    for _ in 0..4 {
        s.rotate_sort_by();
        seen.push(s.sort_by);
    }
    assert_eq!(seen, vec![SortBy::Priority, SortBy::Status, SortBy::UpdatedAt, SortBy::Context]);
}

#[test]
fn clamp_scroll_limits_to_rows_beyond_viewport() {
    let mut s = State { selected: 0, sort_by: SortBy::Context, scroll: 30 };
    s.clamp_scroll(40, 20);
    assert_eq!(s.scroll, 20);
    s.clamp_scroll(10, 20);
    assert_eq!(s.scroll, 0);
    let mut s = State { selected: 0, sort_by: SortBy::Context, scroll: 3 };
    s.clamp_scroll(40, 20);
    assert_eq!(s.scroll, 3);
}

#[test]
fn field_toggles() {
    assert_eq!(Field::Body.toggle(), Field::Context);
    assert_eq!(Field::Context.toggle(), Field::Body);
    assert_eq!(Field::default(), Field::Body);
}

#[test]
fn typing_tab_and_backspace() {
    let mut store = Store::default();
    let mut m = EditTaskModal::new_task("home".to_string());
    assert_eq!(inner(&m).task_id(), 0);
    assert!(inner(&m).is_new());
    assert!(inner(&m).is_focused(Field::Body) && !inner(&m).is_focused(Field::Context));
    assert_eq!(inner(&m).context(), "home");
    typed(&mut m, &mut store, "milk");
    assert_eq!(m.handle_keys(key(KeyCode::Backspace), &mut store), Ok(false));
    assert_eq!(inner(&m).body(), "mil");
    assert_eq!(m.handle_keys(key(KeyCode::Tab), &mut store), Ok(false));
    assert_eq!(inner(&m).focus(), Field::Context);
    assert!(inner(&m).is_focused(Field::Context) && !inner(&m).is_focused(Field::Body));
    typed(&mut m, &mut store, "!");
    assert_eq!(inner(&m).context(), "home!");
    assert_eq!(inner(&m).body(), "mil");
    assert!(!m.closed());
    assert!(store.is_empty());
}

#[test]
fn backspace_on_empty_input_does_nothing() {
    let mut store = Store::default();
    let mut m = EditTaskModal::new_task(String::new());
    assert_eq!(m.handle_keys(key(KeyCode::Backspace), &mut store), Ok(false));
    assert_eq!(inner(&m).body(), "");
}

#[test]
fn control_w_deletes_last_word_and_control_u_clears() {
    let mut store = Store::default();
    let mut m = EditTaskModal::new_task(String::new());
    typed(&mut m, &mut store, "buy more milk  ");
    assert_eq!(m.handle_keys(ctrl('w'), &mut store), Ok(false));
    assert_eq!(inner(&m).body(), "buy more ");
    assert_eq!(m.handle_keys(ctrl('w'), &mut store), Ok(false));
    assert_eq!(inner(&m).body(), "buy ");
    assert_eq!(m.handle_keys(ctrl('w'), &mut store), Ok(false));
    assert_eq!(inner(&m).body(), "");
    typed(&mut m, &mut store, "again");
    assert_eq!(m.handle_keys(ctrl('x'), &mut store), Ok(false));
    assert_eq!(inner(&m).body(), "again");
    assert_eq!(m.handle_keys(ctrl('u'), &mut store), Ok(false));
    assert_eq!(inner(&m).body(), "");
    assert!(!m.closed());
}

#[test]
fn enter_with_blank_body_closes_without_saving() {
    let mut store = Store::default();
    let mut m = EditTaskModal::new_task("ctx".to_string());
    typed(&mut m, &mut store, "   ");
    assert_eq!(m.handle_keys(key(KeyCode::Enter), &mut store), Ok(false));
    assert!(m.closed());
    assert!(store.is_empty());
}

#[test]
fn enter_saves_trimmed_new_task() {
    let mut store = Store::default();
    let mut m = EditTaskModal::new_task("  errands ".to_string());
    typed(&mut m, &mut store, "  post letter ");
    assert_eq!(m.handle_keys(key(KeyCode::Enter), &mut store), Ok(true));
    assert!(m.closed());
    assert_eq!(store.tasks().len(), 1);
    let t = &store.tasks()[0];
    assert_eq!((t.body.as_str(), t.context.as_str()), ("post letter", "errands"));
    assert_eq!((t.status, t.priority), (Status::Open, Priority::Normal));
}

#[test]
fn escape_abandons_edit() {
    let mut store = Store::from_tasks(Format::Json, vec![Task { id: 8, body: "old".to_string(), context: "c".to_string(), status: Status::Closed, priority: Priority::Low, updated_at: 5 }]);
    let mut m = EditTaskModal::edit_task(8, &store);
    assert_eq!((inner(&m).task_id(), inner(&m).body(), inner(&m).context()), (8, "old".to_string(), "c".to_string()));
    typed(&mut m, &mut store, "er");
    assert_eq!(m.handle_keys(key(KeyCode::Esc), &mut store), Ok(false));
    assert!(m.closed());
    assert_eq!(store.find_task(8).unwrap().body, "old");
}

#[test]
fn enter_edits_existing_task_in_place() {
    let mut store = Store::from_tasks(Format::Json, vec![Task { id: 8, body: "old".to_string(), context: "c".to_string(), status: Status::Closed, priority: Priority::Low, updated_at: 5 }]);
    let mut m = EditTaskModal::edit_task(8, &store);
    assert!(!inner(&m).is_new());
    typed(&mut m, &mut store, "er");
    assert_eq!(m.handle_keys(key(KeyCode::Enter), &mut store), Ok(true));
    assert_eq!(store.tasks().len(), 1);
    let t = store.find_task(8).unwrap();
    assert_eq!((t.body.as_str(), t.context.as_str(), t.status, t.priority), ("older", "c", Status::Closed, Priority::Low));
    assert_ne!(t.updated_at, 5);
}
