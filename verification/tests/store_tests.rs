use std::collections::BTreeMap;

use loop_tasks::store::{Format, Store};
use loop_tasks::task::{Priority, Status, Task};

fn task(id: u128, body: &str, context: &str, status: Status, priority: Priority) -> Task {
    Task { id, body: body.to_string(), context: context.to_string(), status, priority, updated_at: (id as i128) * 10 }
}

fn stamped(id: u128, updated_at: i128) -> Task {
    Task { id, body: format!("t{}", id), context: String::new(), status: Status::Open, priority: Priority::Normal, updated_at }
}

fn sample() -> Store {
    Store::from_tasks(
        Format::Json,
        vec![
            task(5, "e", "work", Status::Open, Priority::Low),
            task(2, "b", "home", Status::Closed, Priority::Urgent),
            task(9, "i", "work", Status::Closed, Priority::Urgent),
            task(1, "a", "", Status::Open, Priority::Normal),
            task(7, "g", "home", Status::Open, Priority::Urgent),
            task(3, "c", "work", Status::Open, Priority::Low),
        ],
    )
}

fn bodies(v: &[Task]) -> Vec<String> {
    v.iter().map(|t| t.body.clone()).collect()
}

fn groups(g: &[(String, Vec<Task>)]) -> Vec<(String, Vec<String>)> {
    g.iter().map(|(k, v)| (k.clone(), bodies(v))).collect()
}

// The same grouping computed with a BTreeMap and a stable sort.
fn by_context_reference(tasks: &[Task]) -> Vec<(String, Vec<String>)> {
    let mut map: BTreeMap<String, Vec<Task>> = BTreeMap::new();
    for t in tasks {
        map.entry(t.context.clone()).or_default().push(t.clone());
    }
    for ts in map.values_mut() {
        ts.sort_by_key(|t| t.priority);
    }
    map.into_iter().map(|(k, v)| (k, bodies(&v))).collect()
}

#[test]
fn find_and_empty() {
    let s = sample();
    assert!(!s.is_empty());
    assert_eq!(s.find_task(9).unwrap().body, "i");
    assert!(s.find_task(4).is_none());
    assert!(Store::default().is_empty());
    assert_eq!(Store::default().format(), Format::Json);
}

#[test]
fn find_task_mut_changes_in_place() {
    let mut s = sample();
    s.find_task_mut(3).unwrap().body = "changed".to_string();
    assert_eq!(s.find_task(3).unwrap().body, "changed");
    assert!(s.find_task_mut(4).is_none());
}

#[test]
fn first_of_duplicate_ids_is_found() {
    let s = Store::from_tasks(Format::Toml, vec![task(1, "first", "", Status::Open, Priority::Normal), task(1, "second", "", Status::Open, Priority::Normal)]);
    assert_eq!(s.find_task(1).unwrap().body, "first");
    assert_eq!(s.format(), Format::Toml);
}

#[test]
fn by_most_recently_updated_puts_latest_first_stably() {
    let s = sample();
    assert_eq!(bodies(&s.tasks_by_most_recently_updated_at()), vec!["i", "g", "e", "c", "b", "a"]);
    let d = Store::from_tasks(Format::Json, vec![stamped(1, 20), stamped(2, 30), stamped(3, 20), stamped(4, -1)]);
    assert_eq!(bodies(&d.tasks_by_most_recently_updated_at()), vec!["t2", "t1", "t3", "t4"]);
}

#[test]
fn an_update_moves_a_task_to_the_front() {
    let mut s = Store::from_tasks(Format::Json, vec![stamped(1, 20), stamped(2, 30)]);
    s.upsert(1, "again".to_string(), String::new()).unwrap();
    assert_eq!(s.tasks_by_most_recently_updated_at()[0].id, 1);
}

#[test]
fn by_context_groups_in_string_order_sorted_by_priority() {
    let s = sample();
    let g = groups(&s.tasks_by_context());
    assert_eq!(
        g,
        vec![
            ("".to_string(), vec!["a".to_string()]),
            ("home".to_string(), vec!["b".to_string(), "g".to_string()]),
            ("work".to_string(), vec!["i".to_string(), "e".to_string(), "c".to_string()]),
        ]
    );
    assert_eq!(g, by_context_reference(s.tasks()));
}

#[test]
fn by_context_matches_reference_on_unicode_contexts() {
    let contexts = ["z", "\u{e9}t\u{e9}", "e", "\u{1f600}", "Z", "ab", "a", "a b", ""];
    let prios = [Priority::Low, Priority::Urgent, Priority::Normal, Priority::DontForget, Priority::High];
    let mut tasks = Vec::new();
    for i in 0..40u128 {
        let c = contexts[(i as usize * 7) % contexts.len()];
        let p = prios[(i as usize * 3) % prios.len()];
        tasks.push(task(i, &format!("t{}", i), c, Status::Open, p));
    }
    let s = Store::from_tasks(Format::Json, tasks);
    assert_eq!(groups(&s.tasks_by_context()), by_context_reference(s.tasks()));
}

#[test]
fn by_priority_keeps_order_within_group() {
    let s = sample();
    assert_eq!(
        groups(&s.tasks_by_priority()),
        vec![
            ("\u{f0aa}".to_string(), vec!["b".to_string(), "i".to_string(), "g".to_string()]),
            ("\u{f056}".to_string(), vec!["a".to_string()]),
            ("\u{f13a}".to_string(), vec!["e".to_string(), "c".to_string()]),
        ]
    );
}

#[test]
fn by_status_open_first_sorted_by_priority() {
    let s = sample();
    assert_eq!(
        groups(&s.tasks_by_status()),
        vec![
            ("\u{f0130}".to_string(), vec!["g".to_string(), "a".to_string(), "e".to_string(), "c".to_string()]),
            ("\u{f0134}".to_string(), vec!["b".to_string(), "i".to_string()]),
        ]
    );
    assert!(Store::default().tasks_by_status().is_empty());
    assert!(Store::default().tasks_by_priority().is_empty());
    assert!(Store::default().tasks_by_context().is_empty());
}

#[test]
fn upsert_edits_existing_and_appends_new() {
    let mut s = sample();
    s.upsert(2, "B".to_string(), "garden".to_string()).unwrap();
    let t = s.find_task(2).unwrap();
    assert_eq!((t.body.as_str(), t.context.as_str(), t.status, t.priority), ("B", "garden", Status::Closed, Priority::Urgent));
    assert!(t.updated_at > 1_000_000_000_000_000_000);
    assert_eq!(s.tasks().len(), 6);
    s.upsert(0, "new".to_string(), "ctx".to_string()).unwrap();
    assert_eq!(s.tasks().len(), 7);
    let n = &s.tasks()[6];
    assert_eq!((n.body.as_str(), n.context.as_str(), n.status, n.priority), ("new", "ctx", Status::Open, Priority::Normal));
    assert_ne!(n.id, 0);
    assert_eq!((n.id >> 76) & 0xf, 7);
}

#[test]
fn rotate_and_delete_report_whether_found() {
    let mut s = sample();
    assert_eq!(s.rotate_priority(5), Ok(true));
    assert_eq!(s.find_task(5).unwrap().priority, Priority::Normal);
    assert_eq!(s.rotate_priority(4), Ok(false));
    assert_eq!(s.rotate_status(5), Ok(true));
    assert_eq!(s.find_task(5).unwrap().status, Status::Closed);
    assert_eq!(s.rotate_status(4), Ok(false));
    assert!(s.find_task(5).unwrap().updated_at > 1_000_000_000_000_000_000);
    assert!(s.delete(5));
    assert!(s.find_task(5).is_none());
    assert_eq!(s.tasks().len(), 5);
    assert!(!s.delete(5));
    assert_eq!(s.tasks().len(), 5);
}

#[test]
fn upsert_at_uses_the_given_stamp_and_identifier() {
    let mut s = sample();
    s.upsert_at(2, "B".to_string(), "garden".to_string(), 777, 12345);
    let t = s.find_task(2).unwrap();
    assert_eq!(
        (t.id, t.body.as_str(), t.context.as_str(), t.status, t.priority, t.updated_at),
        (2, "B", "garden", Status::Closed, Priority::Urgent, 777)
    );
    assert_eq!(s.tasks().len(), 6);
    assert_eq!(bodies(&s.tasks()[..3]), vec!["e", "B", "i"]);
    s.upsert_at(0, "new".to_string(), "ctx".to_string(), -3, 12345);
    assert_eq!(s.tasks().len(), 7);
    let n = &s.tasks()[6];
    assert_eq!(
        (n.id, n.body.as_str(), n.context.as_str(), n.status, n.priority, n.updated_at),
        (12345, "new", "ctx", Status::Open, Priority::Normal, -3)
    );
}

#[test]
fn new_tasks_of_a_store_get_increasing_ids() {
    let mut s = Store::default();
    for i in 0..20 {
        s.upsert(0, format!("t{}", i), String::new()).unwrap();
    }
    let ids: Vec<u128> = s.tasks().iter().map(|t| t.id).collect();
    assert_eq!(ids.len(), 20);
    for w in ids.windows(2) {
        assert!(w[0] < w[1]);
    }
    assert!(s.tasks().iter().all(|t| t.updated_at > 0 && (t.id >> 76) & 0xf == 7));
}

#[test]
fn stamped_rotations_report_and_stamp() {
    let mut s = sample();
    assert!(s.rotate_priority_at(5, 11));
    let t = s.find_task(5).unwrap();
    assert_eq!((t.priority, t.updated_at, t.status), (Priority::Normal, 11, Status::Open));
    assert!(!s.rotate_priority_at(4, 12));
    assert!(s.rotate_status_at(5, 13));
    let t = s.find_task(5).unwrap();
    assert_eq!((t.status, t.updated_at, t.priority), (Status::Closed, 13, Priority::Normal));
    assert!(!s.rotate_status_at(4, 14));
    assert_eq!(s.tasks().len(), 6);
}

#[test]
fn two_status_flips_restore_all_but_the_stamp() {
    let mut s = sample();
    let before: Vec<(u128, String, String, Status, Priority, i128)> =
        s.tasks().iter().map(|t| (t.id, t.body.clone(), t.context.clone(), t.status, t.priority, t.updated_at)).collect();
    assert!(s.rotate_status_at(2, 100));
    assert_eq!(s.find_task(2).unwrap().status, Status::Open);
    assert!(s.rotate_status_at(2, 200));
    let after: Vec<(u128, String, String, Status, Priority, i128)> =
        s.tasks().iter().map(|t| (t.id, t.body.clone(), t.context.clone(), t.status, t.priority, t.updated_at)).collect();
    let mut expected = before.clone();
    expected[1].5 = 200;
    assert_eq!(after, expected);
    assert_eq!(s.rotate_status(2), Ok(true));
    assert_eq!(s.rotate_status(2), Ok(true));
    assert_eq!(s.find_task(2).unwrap().status, Status::Closed);
}

#[test]
fn upsert_with_a_reading_decides_on_the_reading() {
    let mut s = sample();
    assert!(s.upsert_with_reading(2, "B".to_string(), "x".to_string(), None).is_err());
    assert_eq!(s.find_task(2).unwrap().body, "b");
    assert!(s.upsert_with_reading(2, "B".to_string(), "x".to_string(), Some(-1)).is_ok());
    let t = s.find_task(2).unwrap();
    assert_eq!((t.body.as_str(), t.context.as_str(), t.updated_at), ("B", "x", -1));
    assert!(s.upsert_with_reading(0, "n".to_string(), "x".to_string(), Some(-1)).is_err());
    assert_eq!(s.tasks().len(), 6);
    let huge = (u64::MAX as i128 + 1) * 1_000_000_000;
    assert!(s.upsert_with_reading(0, "n".to_string(), "x".to_string(), Some(huge)).is_err());
    assert_eq!(s.tasks().len(), 6);
    assert!(s.upsert_with_reading(0, "n".to_string(), "x".to_string(), Some(1_700_000_000_000_000_000)).is_ok());
    assert_eq!(s.tasks().len(), 7);
    let n = &s.tasks()[6];
    assert_eq!((n.body.as_str(), n.context.as_str(), n.status, n.priority, n.updated_at), ("n", "x", Status::Open, Priority::Normal, 1_700_000_000_000_000_000));
    assert_eq!((n.id >> 76) & 0xf, 7);
    // the identifier's time field holds the reading's milliseconds
    assert_eq!(n.id >> 80, 1_700_000_000_000);
}

#[test]
fn upserts_draw_from_the_store_counter_only_for_new_tasks() {
    let mut s = sample();
    s.upsert_with_reading(2, "B".to_string(), "x".to_string(), Some(1_700_000_000_000_000_000)).unwrap();
    s.upsert_with_reading(0, "n1".to_string(), "x".to_string(), Some(1_700_000_000_000_000_000)).unwrap();
    s.upsert_with_reading(0, "n2".to_string(), "x".to_string(), Some(1_700_000_000_000_000_000)).unwrap();
    s.upsert_with_reading(0, "n3".to_string(), "x".to_string(), Some(1_500_000_000_000_000_000)).unwrap();
    let t = s.tasks();
    assert_eq!(t.len(), 9);
    assert!(t[6].id < t[7].id && t[7].id < t[8].id);
    assert!(t[6].id >> 80 >= 1_700_000_000_000);
    assert_eq!(t[8].updated_at, 1_500_000_000_000_000_000);
}
