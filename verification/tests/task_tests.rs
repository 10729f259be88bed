use loop_tasks::task::{id_follows, split_instant, ClockUnavailable, IdSource, Priority, Status, Task};

fn version_of(id: u128) -> u128 {
    (id >> 76) & 0xf
}

#[test]
fn status_rotates_and_wraps() {
    assert_eq!(Status::Open.next_wrapping(), Status::Closed);
    assert_eq!(Status::Closed.next_wrapping(), Status::Open);
    assert_eq!(Status::default(), Status::Open);
}

#[test]
fn priority_rotates_towards_urgent_and_wraps() {
    assert_eq!(Priority::Normal.previous_wrapping(), Priority::High);
    assert_eq!(Priority::High.previous_wrapping(), Priority::Urgent);
    assert_eq!(Priority::Urgent.previous_wrapping(), Priority::DontForget);
    assert_eq!(Priority::DontForget.previous_wrapping(), Priority::Low);
    assert_eq!(Priority::Low.previous_wrapping(), Priority::Normal);
    assert_eq!(Priority::default(), Priority::Normal);
}

#[test]
fn five_priority_steps_return_home() {
    let mut p = Priority::Low;
    for _ in 0..5 {
        p = p.previous_wrapping();
    }
    assert_eq!(p, Priority::Low);
}

#[test]
fn ranks_follow_declaration_order() {
    let all = [Priority::Urgent, Priority::High, Priority::Normal, Priority::Low, Priority::DontForget];
    for (i, p) in all.iter().enumerate() {
        assert_eq!(p.rank() as usize, i);
    }
    assert_eq!(Status::Open.rank(), 0);
    assert_eq!(Status::Closed.rank(), 1);
    // derived order agrees with the rank
    assert!(Priority::Urgent < Priority::DontForget);
    assert!(Status::Open < Status::Closed);
}

#[test]
fn labels_are_the_icons() {
    assert_eq!(Status::Open.label(), "\u{f0130}");
    assert_eq!(Status::Closed.label(), "\u{f0134}");
    assert_eq!(Priority::Urgent.label(), "\u{f0aa}");
    assert_eq!(Priority::High.label(), "\u{f139}");
    assert_eq!(Priority::Normal.label(), "\u{f056}");
    assert_eq!(Priority::Low.label(), "\u{f13a}");
    assert_eq!(Priority::DontForget.label(), "\u{f1ce}");
}

#[test]
fn new_task_is_open_normal_with_v7_id_and_current_time() {
    let before = std::time::SystemTime::now()
        .duration_since(std::time::UNIX_EPOCH)
        .unwrap()
        .as_nanos() as i128;
    let mut ids = IdSource::new();
    let t = Task::new(&mut ids, "buy milk".to_string(), "home".to_string()).unwrap();
    let after = std::time::SystemTime::now()
        .duration_since(std::time::UNIX_EPOCH)
        .unwrap()
        .as_nanos() as i128;
    assert_eq!(t.body, "buy milk");
    assert_eq!(t.context, "home");
    assert_eq!(t.status, Status::Open);
    assert_eq!(t.priority, Priority::Normal);
    assert_eq!(version_of(t.id), 7);
    assert_ne!(t.id, 0);
    assert!(t.updated_at >= before - 1_000_000_000 && t.updated_at <= after + 1_000_000_000);
}

#[test]
fn new_tasks_from_one_source_get_increasing_ids() {
    let mut ids = IdSource::new();
    let mut prev = 0u128;
    for i in 0..50 {
        let t = Task::new(&mut ids, format!("t{}", i), String::new()).unwrap();
        assert!(t.id > prev);
        assert_eq!(version_of(t.id), 7);
        // the time field holds the stamp's millisecond or a later one
        assert!((t.id >> 80) as i128 >= t.updated_at / 1_000_000);
        prev = t.id;
    }
}

#[test]
fn drawing_checks_the_reading() {
    let mut ids = IdSource::new();
    assert_eq!(ids.draw(-1), None);
    assert_eq!(ids.draw((u64::MAX as i128 + 1) * 1_000_000_000), None);
    let a = ids.draw(1_700_000_000_123_456_789).unwrap();
    assert_eq!(a >> 80, 1_700_000_000_123);
    assert_eq!(version_of(a), 7);
    // an earlier reading still gives a greater identifier
    let b = ids.draw(1_600_000_000_000_000_000).unwrap();
    assert!(b > a);
    let c = ids.draw(1_700_000_000_123_456_789).unwrap();
    assert!(c > b);
}

#[test]
fn an_identifier_follows_by_order_and_time() {
    let id: u128 = (1_000u128 << 80) | (7u128 << 76) | 5;
    assert!(id_follows(0, id, 1_000_000_000));
    assert!(id_follows(0, id, 1_000_999_999));
    assert!(!id_follows(0, id, 1_001_000_000));
    assert!(!id_follows(id, id, 0));
    assert!(id_follows(id - 1, id, 0));
}

#[test]
fn a_reading_makes_the_task_or_fails() {
    let t = Task::from_reading(Some(1_700_000_000_000_000_000), 99, "b".to_string(), "c".to_string()).unwrap();
    assert_eq!(
        (t.id, t.body.as_str(), t.context.as_str(), t.status, t.priority, t.updated_at),
        (99, "b", "c", Status::Open, Priority::Normal, 1_700_000_000_000_000_000)
    );
    let t = Task::from_reading(Some(0), 1, String::new(), String::new()).unwrap();
    assert_eq!(t.updated_at, 0);
    assert!(matches!(Task::from_reading(None, 1, String::new(), String::new()), Err(ClockUnavailable)));
    assert!(matches!(Task::from_reading(Some(-1), 1, String::new(), String::new()), Err(ClockUnavailable)));
}

#[test]
fn instants_split_into_seconds_and_nanoseconds() {
    assert_eq!(split_instant(0), Some((0, 0)));
    assert_eq!(split_instant(1_500_000_000_123), Some((1500, 123)));
    assert_eq!(split_instant(999_999_999), Some((0, 999_999_999)));
    let last = (u64::MAX as i128) * 1_000_000_000 + 999_999_999;
    assert_eq!(split_instant(last), Some((u64::MAX, 999_999_999)));
    assert_eq!(split_instant(last + 1), None);
}

#[test]
fn update_rotate_keep_identity() {
    let mut t = Task {
        id: 42,
        body: "x".to_string(),
        context: "c".to_string(),
        status: Status::Open,
        priority: Priority::Normal,
        updated_at: 0,
    };
    t.update("y".to_string(), "d".to_string()).unwrap();
    assert_eq!((t.id, t.body.as_str(), t.context.as_str()), (42, "y", "d"));
    assert!(t.updated_at > 0);
    t.rotate_priority().unwrap();
    assert_eq!(t.priority, Priority::High);
    t.rotate_status().unwrap();
    assert_eq!(t.status, Status::Closed);
    t.rotate_status().unwrap();
    assert_eq!(t.status, Status::Open);
    let c = t.clone();
    assert_eq!((c.id, c.body, c.context, c.status, c.priority, c.updated_at), (t.id, t.body, t.context, t.status, t.priority, t.updated_at));
}

#[test]
fn stamped_steps_use_the_given_time() {
    let mut t = Task::created(7, "x".to_string(), "c".to_string(), 123);
    assert_eq!((t.id, t.body.as_str(), t.context.as_str(), t.status, t.priority, t.updated_at), (7, "x", "c", Status::Open, Priority::Normal, 123));
    t.update_at("y".to_string(), "d".to_string(), 456);
    assert_eq!((t.id, t.body.as_str(), t.context.as_str(), t.updated_at), (7, "y", "d", 456));
    t.rotate_priority_at(789);
    assert_eq!((t.priority, t.updated_at), (Priority::High, 789));
    t.rotate_status_at(-5);
    assert_eq!((t.status, t.updated_at), (Status::Closed, -5));
}
