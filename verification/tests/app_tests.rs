use loop_tasks::app::{section_rows, App, KeyOutcome, MenuItem};
use loop_tasks::keys::{KeyCode, KeyPress};
use loop_tasks::modal::{Modal, ModalControl};
use loop_tasks::state::{SortBy, State};
use loop_tasks::store::{Format, Store};
use loop_tasks::task::{Priority, Status, Task};

fn task(id: u128, body: &str, context: &str, status: Status, priority: Priority) -> Task {
    Task { id, body: body.to_string(), context: context.to_string(), status, priority, updated_at: (id as i128) * 10 }
}

fn app_with(selected: u128, sort_by: SortBy) -> App {
    let store = Store::from_tasks(
        Format::Json,
        vec![
            task(5, "e", "work", Status::Open, Priority::Low),
            task(2, "b", "home", Status::Closed, Priority::Urgent),
            task(9, "i", "work", Status::Closed, Priority::Urgent),
            task(7, "g", "home", Status::Open, Priority::Urgent),
        ],
    );
    App::new(State { selected, sort_by, scroll: 0 }, store)
}

fn key(code: KeyCode) -> KeyPress {
    KeyPress { code, control: false }
}

const QUIET: KeyOutcome = KeyOutcome { store_changed: false, save_state: false };
const CHANGED: KeyOutcome = KeyOutcome { store_changed: true, save_state: false };

#[test]
fn sections_follow_the_grouping() {
    let mut a = app_with(2, SortBy::Context);
    let titles = |a: &App| a.sections().iter().map(|(k, _)| k.clone()).collect::<Vec<_>>();
    assert_eq!(titles(&a), vec!["home", "work"]);
    a.state.sort_by = SortBy::UpdatedAt;
    assert_eq!(titles(&a), vec!["in order of most recent update"]);
    assert_eq!(a.ids_in_section_order(), vec![9, 7, 5, 2]);
    a.state.sort_by = SortBy::Status;
    assert_eq!(a.ids_in_section_order(), vec![7, 5, 2, 9]);
    a.state.sort_by = SortBy::Priority;
    assert_eq!(a.ids_in_section_order(), vec![2, 9, 7, 5]);
    a.state.sort_by = SortBy::Context;
    assert_eq!(a.ids_in_section_order(), vec![2, 7, 9, 5]);
}

#[test]
fn selection_moves_and_wraps() {
    let mut a = app_with(2, SortBy::Context);
    a.select_next();
    assert_eq!(a.state.selected, 7);
    a.select_previous();
    assert_eq!(a.state.selected, 2);
    a.select_previous();
    assert_eq!(a.state.selected, 5);
    a.select_next();
    assert_eq!(a.state.selected, 2);
    a.state.selected = 1234;
    a.select_next();
    assert_eq!(a.state.selected, 2);
    a.state.selected = 1234;
    a.select_previous();
    assert_eq!(a.state.selected, 5);
}

#[test]
fn settle_selects_latest_updated_when_selection_is_gone() {
    let mut a = app_with(1234, SortBy::Context);
    a.settle_selection();
    assert_eq!(a.state.selected, 9);
    a.store.find_task_mut(2).unwrap().updated_at = 1000;
    a.state.selected = 4321;
    a.settle_selection();
    assert_eq!(a.state.selected, 2);
    let mut a = app_with(9, SortBy::Context);
    a.settle_selection();
    assert_eq!(a.state.selected, 9);
    let mut empty = App::new(State::default(), Store::default());
    empty.settle_selection();
    assert_eq!(empty.state.selected, 0);
}

#[test]
fn settle_drops_a_closed_overlay() {
    let mut a = app_with(9, SortBy::Context);
    assert_eq!(a.handle_key_event(key(KeyCode::Char('e'))), Ok(QUIET));
    assert!(a.modal.is_some());
    a.settle_selection();
    assert!(a.modal.is_some());
    assert_eq!(a.handle_key_event(key(KeyCode::Esc)), Ok(QUIET));
    assert!(a.modal.as_ref().unwrap().closed());
    a.settle_selection();
    assert!(a.modal.is_none());
    assert_eq!(a.state.selected, 9);
}

#[test]
fn settle_drops_an_open_overlay_when_it_reselects() {
    let mut a = app_with(9, SortBy::Context);
    a.handle_key_event(key(KeyCode::Char('a'))).unwrap();
    assert!(!a.modal.as_ref().unwrap().closed());
    a.state.selected = 4321;
    a.settle_selection();
    assert!(a.modal.is_none());
    assert_eq!(a.state.selected, 9);
}

#[test]
fn settle_keeps_an_open_overlay_while_the_selection_exists() {
    let mut a = app_with(2, SortBy::Context);
    a.handle_key_event(key(KeyCode::Char('a'))).unwrap();
    a.settle_selection();
    assert!(a.modal.is_some());
    assert_eq!(a.state.selected, 2);
}

#[test]
fn listing_marks_the_selected_task() {
    let a = app_with(7, SortBy::Context);
    assert!(a.is_selected(7));
    assert!(!a.is_selected(2));
}

#[test]
fn settle_drops_a_closed_overlay_on_an_empty_list() {
    let mut a = App::new(State::default(), Store::default());
    a.handle_key_event(key(KeyCode::Char('a'))).unwrap();
    a.handle_key_event(key(KeyCode::Esc)).unwrap();
    a.settle_selection();
    assert!(a.modal.is_none());
    // Esc now reaches the list view and quits
    assert_eq!(a.handle_key_event(key(KeyCode::Esc)), Ok(KeyOutcome { store_changed: false, save_state: true }));
    assert!(a.exited);
}

#[test]
fn saving_an_edit_selects_the_edited_task() {
    let mut a = app_with(2, SortBy::Context);
    a.handle_key_event(key(KeyCode::Char('e'))).unwrap();
    a.handle_key_event(key(KeyCode::Char('!'))).unwrap();
    assert_eq!(a.handle_key_event(key(KeyCode::Enter)), Ok(CHANGED));
    a.settle_selection();
    assert!(a.modal.is_none());
    assert_eq!(a.state.selected, 2);
    assert_eq!(a.store.find_task(2).unwrap().body, "b!");
}

#[test]
fn menu_depends_on_selected_status() {
    let a = app_with(7, SortBy::Context);
    assert_eq!(a.menu(), vec![MenuItem::Add, MenuItem::Edit, MenuItem::Priority, MenuItem::Close, MenuItem::SortBy, MenuItem::Quit]);
    let a = app_with(9, SortBy::Context);
    assert_eq!(a.menu(), vec![MenuItem::Add, MenuItem::Edit, MenuItem::Priority, MenuItem::Reopen, MenuItem::Delete, MenuItem::SortBy, MenuItem::Quit]);
    let e = App::new(State::default(), Store::default());
    assert_eq!(e.menu(), vec![MenuItem::Add, MenuItem::Quit]);
}

#[test]
fn list_keys_edit_the_store() {
    let mut a = app_with(5, SortBy::Context);
    assert_eq!(a.handle_keys(key(KeyCode::Char('p'))), Ok(CHANGED));
    assert_eq!(a.store.find_task(5).unwrap().priority, Priority::Normal);
    assert_eq!(a.handle_keys(key(KeyCode::Char(' '))), Ok(CHANGED));
    assert_eq!(a.store.find_task(5).unwrap().status, Status::Closed);
    assert_eq!(a.handle_keys(key(KeyCode::Char('s'))), Ok(QUIET));
    assert_eq!(a.state.sort_by, SortBy::Priority);
    assert_eq!(a.handle_keys(key(KeyCode::Char('x'))), Ok(QUIET));
}

#[test]
fn delete_only_closed_and_moves_selection() {
    let mut a = app_with(7, SortBy::Context);
    assert_eq!(a.handle_keys(key(KeyCode::Char('d'))), Ok(QUIET));
    assert!(a.store.find_task(7).is_some());
    // ids in context order: 2, 7, 9, 5; 9 is closed and not last
    a.state.selected = 9;
    assert_eq!(a.handle_keys(key(KeyCode::Char('d'))), Ok(CHANGED));
    assert!(a.store.find_task(9).is_none());
    assert_eq!(a.state.selected, 5);
    // 5 is last in the listing once closed: selection moves back
    a.handle_keys(key(KeyCode::Char(' '))).unwrap();
    assert_eq!(a.handle_keys(key(KeyCode::Char('d'))), Ok(CHANGED));
    assert_eq!(a.state.selected, 7);
    assert_eq!(a.store.tasks().len(), 2);
}

#[test]
fn navigation_keys() {
    let mut a = app_with(2, SortBy::Context);
    a.handle_keys(key(KeyCode::Down)).unwrap();
    assert_eq!(a.state.selected, 7);
    a.handle_keys(key(KeyCode::Char('j'))).unwrap();
    assert_eq!(a.state.selected, 9);
    a.handle_keys(key(KeyCode::Up)).unwrap();
    assert_eq!(a.state.selected, 7);
    a.handle_keys(key(KeyCode::Char('k'))).unwrap();
    assert_eq!(a.state.selected, 2);
}

#[test]
fn scroll_keys_saturate() {
    let mut a = app_with(2, SortBy::Context);
    assert_eq!(a.handle_keys(KeyPress { code: KeyCode::Char('y'), control: true }), Ok(QUIET));
    assert_eq!(a.state.scroll, 0);
    a.handle_keys(KeyPress { code: KeyCode::Char('e'), control: true }).unwrap();
    assert_eq!(a.state.scroll, 1);
    a.state.scroll = u16::MAX;
    a.handle_keys(KeyPress { code: KeyCode::Char('e'), control: true }).unwrap();
    assert_eq!(a.state.scroll, u16::MAX);
    // control with another key does nothing, not even as a plain key
    a.handle_keys(KeyPress { code: KeyCode::Char('d'), control: true }).unwrap();
    assert_eq!(a.store.tasks().len(), 4);
}

#[test]
fn escape_quits_and_saves_state() {
    let mut a = app_with(2, SortBy::Context);
    assert_eq!(a.handle_keys(key(KeyCode::Esc)), Ok(KeyOutcome { store_changed: false, save_state: true }));
    assert!(a.exited);
}

#[test]
fn add_opens_overlay_in_selected_context_and_saves() {
    let mut a = app_with(9, SortBy::Context);
    assert_eq!(a.handle_key_event(key(KeyCode::Char('a'))), Ok(QUIET));
    match a.modal.as_ref().unwrap() {
        Modal::EditTaskModal(m) => {
            assert_eq!(m.context(), "work");
            assert_eq!(m.task_id(), 0);
        },
    }
    for c in "q report".chars() {
        // keys go to the overlay, not the list view ('q', ' ' and 'd' stay text)
        assert_eq!(a.handle_key_event(key(KeyCode::Char(c))), Ok(QUIET));
    }
    assert_eq!(a.store.tasks().len(), 4);
    assert_eq!(a.handle_key_event(key(KeyCode::Enter)), Ok(CHANGED));
    assert_eq!(a.store.tasks().len(), 5);
    assert_eq!(a.store.tasks()[4].body, "q report");
    assert_eq!(a.store.tasks()[4].context, "work");
}

#[test]
fn add_on_empty_store_has_empty_context() {
    let mut a = App::new(State::default(), Store::default());
    a.handle_key_event(key(KeyCode::Char('a'))).unwrap();
    match a.modal.as_ref().unwrap() {
        Modal::EditTaskModal(m) => assert_eq!(m.context(), ""),
    }
    // on an empty list 'e' opens nothing
    let mut b = App::new(State::default(), Store::default());
    assert_eq!(b.handle_key_event(key(KeyCode::Char('e'))), Ok(QUIET));
    assert!(b.modal.is_none());
}

#[test]
fn rows_count_borders_and_tasks() {
    let a = app_with(2, SortBy::Context);
    assert_eq!(section_rows(&a.sections()), Some(2 + 2 + 2 + 2));
    let big: Vec<(String, Vec<Task>)> = vec![(String::new(), (0..40000u128).map(|i| task(i, "", "", Status::Open, Priority::Normal)).collect()); 2];
    assert_eq!(section_rows(&big), None);
    assert_eq!(section_rows(&big[..1].to_vec()), Some(40002));
    assert_eq!(section_rows(&Vec::new()), Some(0));
}

#[test]
fn overlay_takes_escape_and_leaves_list_state() {
    let mut a = app_with(9, SortBy::Status);
    a.state.scroll = 3;
    a.handle_key_event(key(KeyCode::Char('a'))).unwrap();
    a.handle_key_event(key(KeyCode::Char('j'))).unwrap();
    assert_eq!(a.handle_key_event(key(KeyCode::Esc)), Ok(QUIET));
    assert!(!a.exited);
    assert_eq!((a.state.selected, a.state.sort_by, a.state.scroll), (9, SortBy::Status, 3));
    assert_eq!(a.store.tasks().len(), 4);
}

#[test]
fn next_then_previous_returns_for_every_task() {
    for sort_by in [SortBy::Context, SortBy::Priority, SortBy::Status, SortBy::UpdatedAt] {
        let mut a = app_with(2, sort_by);
        let ids = a.ids_in_section_order();
        let mut sorted = ids.clone();
        sorted.sort();
        assert_eq!(sorted, vec![2, 5, 7, 9]);
        for id in ids {
            a.state.selected = id;
            a.select_next();
            a.select_previous();
            assert_eq!(a.state.selected, id);
            a.select_previous();
            a.select_next();
            assert_eq!(a.state.selected, id);
        }
    }
}
