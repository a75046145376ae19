use tdt::{
    any_resolved, build_map, complete_tasks, delete_tasks, get_tasks, order, parse_ids, parse_lines,
    remove_tasks, write_tasks, Date, DisplayMode, LoadError, Priority, SortKey, State, Task,
    TaskConf,
};

fn lines(ls: &[&str]) -> Vec<String> {
    ls.iter().map(|l| l.to_string()).collect()
}

fn no_query() -> TaskConf {
    TaskConf { keyword: None, tag: None, priority: None, due_to: None, sort_by: SortKey::Unsorted }
}

fn sample() -> Vec<Task> {
    parse_lines(&lines(&[
        "[C] one #home (2024-01-01) (due:2024-03-01)",
        "[A] two #work (2024-01-02)",
        "",
        "[O] three #home (2024-01-03) (due:2024-02-01)",
        "[A] four (2024-01-04) (due:2024-03-01)",
        "[B] five #work (2024-01-05)",
        "✓ [A] six (2024-01-06) (2024-01-07)",
        "✗ [A] seven (2024-01-07)",
    ]))
    .unwrap()
}

fn day(y: u32, m: u32, d: u32) -> Date {
    Date::from_ymd(y, m, d).unwrap()
}

#[test]
fn empty_lines_are_skipped() {
    assert_eq!(sample().len(), 7);
}

#[test]
fn load_errors() {
    assert_eq!(get_tasks(&lines(&["", ""])).unwrap_err(), LoadError::Empty);
    assert_eq!(get_tasks(&lines(&[])).unwrap_err(), LoadError::Empty);
    assert_eq!(
        get_tasks(&lines(&["[A] ok (2024-01-01)", "bad"])).unwrap_err(),
        LoadError::Format { line: 2 }
    );
}

#[test]
fn file_order_when_unsorted() {
    let ts = sample();
    assert_eq!(order(&ts, &DisplayMode::pending_only(), &no_query()), vec![0, 1, 2, 3, 4]);
    assert_eq!(order(&ts, &DisplayMode::all(), &no_query()), vec![0, 1, 2, 3, 4, 5, 6]);
    let done = DisplayMode::from_str("cr").unwrap();
    assert_eq!(order(&ts, &done, &no_query()), vec![5, 6]);
}

#[test]
fn sort_by_priority_is_stable() {
    let ts = sample();
    let conf = TaskConf { sort_by: SortKey::Priority, ..no_query() };
    assert_eq!(order(&ts, &DisplayMode::pending_only(), &conf), vec![1, 3, 4, 0, 2]);
}

#[test]
fn sort_by_due_latest_first_and_none_last() {
    let ts = sample();
    let conf = TaskConf { sort_by: SortKey::Due, ..no_query() };
    assert_eq!(order(&ts, &DisplayMode::pending_only(), &conf), vec![0, 3, 2, 1, 4]);
}

#[test]
fn listing_twice_gives_the_same_rows() {
    let ts = sample();
    let conf = TaskConf { sort_by: SortKey::Priority, ..no_query() };
    let a = order(&ts, &DisplayMode::all(), &conf);
    let b = order(&ts, &DisplayMode::all(), &conf);
    assert_eq!(a, b);
    assert_eq!(write_tasks(&ts), write_tasks(&sample()));
}

#[test]
fn filters_are_anded() {
    let ts = sample();
    let pending = DisplayMode::pending_only();
    let kw = TaskConf { keyword: Some("t".to_string()), ..no_query() };
    assert_eq!(order(&ts, &pending, &kw), vec![1, 2]);
    let tag = TaskConf { tag: Some("home".to_string()), ..no_query() };
    assert_eq!(order(&ts, &pending, &tag), vec![0, 2]);
    let tag_part = TaskConf { tag: Some("hom".to_string()), ..no_query() };
    assert_eq!(order(&ts, &pending, &tag_part), Vec::<usize>::new());
    let prio = TaskConf { priority: Some(Priority::B), ..no_query() };
    assert_eq!(order(&ts, &pending, &prio), vec![1, 3, 4]);
    let due = TaskConf { due_to: Some(day(2024, 2, 15)), ..no_query() };
    assert_eq!(order(&ts, &pending, &due), vec![2]);
    let due_eq = TaskConf { due_to: Some(day(2024, 3, 1)), ..no_query() };
    assert_eq!(order(&ts, &pending, &due_eq), vec![0, 2, 3]);
    let both = TaskConf {
        tag: Some("home".to_string()),
        due_to: Some(day(2024, 2, 15)),
        ..no_query()
    };
    assert_eq!(order(&ts, &pending, &both), vec![2]);
    let t = &ts[0];
    assert!(t.contain_keyword(&Some(String::new())));
    assert!(!t.before_due_to(Some(day(2024, 2, 29))));
    assert!(!ts[1].before_due_to(Some(day(2030, 1, 1))));
    assert!(ts[1].before_due_to(None));
}

#[test]
fn display_mode_letters() {
    let m = DisplayMode::from_str("pcr").unwrap();
    assert!(m.pending && m.completed && m.removed);
    let m = DisplayMode::from_str("").unwrap();
    assert!(!m.pending && !m.completed && !m.removed);
    assert_eq!(DisplayMode::from_str("px").unwrap_err(), 'x');
    assert_eq!(SortKey::from_str("priority"), SortKey::Priority);
    assert_eq!(SortKey::from_str("d"), SortKey::Due);
    assert_eq!(SortKey::from_str("name"), SortKey::Unsorted);
}

#[test]
fn shown_ids_count_from_one_in_listing_order() {
    let ts = sample();
    let conf = TaskConf { sort_by: SortKey::Priority, ..no_query() };
    let sel = build_map(&ts, &DisplayMode::pending_only(), &conf);
    assert_eq!(sel.len(), 5);
    assert_eq!(sel.get(1), Some(1));
    assert_eq!(sel.get(5), Some(2));
    assert_eq!(sel.get(0), None);
    assert_eq!(sel.get(6), None);
}

#[test]
fn selection_partial_success() {
    let mut ts = parse_lines(&lines(&[
        "[A] first (2024-01-01)",
        "[A] second (2024-01-01)",
        "[A] third (2024-01-01)",
    ]))
    .unwrap();
    let before = write_tasks(&ts);
    let sel = build_map(&ts, &DisplayMode::pending_only(), &no_query());
    let ids = parse_ids("2 9");
    assert_eq!(ids, vec![2, 9]);
    assert!(any_resolved(&sel, &ids));
    assert!(!any_resolved(&sel, &vec![9, 0]));
    assert!(!any_resolved(&sel, &vec![]));
    let invalid = complete_tasks(&mut ts, &sel, &ids, day(2024, 1, 9));
    assert_eq!(invalid, vec![9]);
    assert_eq!(ts[0].state, State::Pending);
    assert_eq!(ts[1].state, State::Completed);
    assert_eq!(ts[2].state, State::Pending);
    let after = write_tasks(&ts);
    assert_ne!(before, after);
    assert_eq!(
        after,
        "[A] first (2024-01-01)\n✓ [A] second (2024-01-01) (2024-01-09)\n[A] third (2024-01-01)\n"
    );
}

#[test]
fn completion_and_removal_markers() {
    let mut ts = sample();
    let sel = build_map(&ts, &DisplayMode::pending_only(), &no_query());
    let invalid = complete_tasks(&mut ts, &sel, &vec![1], day(2024, 4, 2));
    assert!(invalid.is_empty());
    let line = ts[0].stringify();
    assert!(line.starts_with("✓ "));
    assert!(line.ends_with(" (2024-04-02)"));
    let invalid = remove_tasks(&mut ts, &sel, &vec![2, 2]);
    assert!(invalid.is_empty());
    assert!(ts[1].stringify().starts_with("✗ "));
    assert_eq!(ts[1].completed_at, None);
    assert_eq!(order(&ts, &DisplayMode::pending_only(), &no_query()), vec![2, 3, 4]);
}

#[test]
fn delete_erases_each_selected_record_once() {
    let mut ts = sample();
    let sel = build_map(&ts, &DisplayMode::all(), &no_query());
    let invalid = delete_tasks(&mut ts, &sel, &vec![2, 7, 2, 0, 3]);
    assert_eq!(invalid, vec![0]);
    let names: Vec<&str> = ts.iter().map(|t| t.content.as_str()).collect();
    assert_eq!(names, vec!["one #home", "four", "five #work", "six"]);
}

#[test]
fn written_file_has_one_line_per_task() {
    let ts = sample();
    let text = write_tasks(&ts);
    assert_eq!(text.lines().count(), 7);
    assert!(text.ends_with("✗ [A] seven (2024-01-07)\n"));
    let again = parse_lines(&text.lines().map(|l| l.to_string()).collect()).unwrap();
    assert_eq!(write_tasks(&again), text);
}
