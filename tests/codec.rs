use tdt::{extract_tags, parse_line, Date, Priority, State, Task};

fn date(y: u32, m: u32, d: u32) -> Date {
    Date::from_ymd(y, m, d).unwrap()
}

#[test]
fn example_line_with_due_date() {
    let line = "[A] Buy milk #errand (2024-01-01) (due:2024-01-10)";
    let t = parse_line(line).unwrap();
    assert_eq!(t.state, State::Pending);
    assert_eq!(t.priority, Priority::A);
    assert_eq!(t.content, "Buy milk #errand");
    assert_eq!(t.created_at, date(2024, 1, 1));
    assert_eq!(t.due_to, Some(date(2024, 1, 10)));
    assert_eq!(t.completed_at, None);
    assert_eq!(t.tags, vec!["errand".to_string()]);
    assert_eq!(t.stringify(), line);
}

#[test]
fn completed_single_trailing_date_is_completion() {
    let t = parse_line("✓ [O] Call mom (2024-01-01) (2024-01-05)").unwrap();
    assert_eq!(t.state, State::Completed);
    assert_eq!(t.due_to, None);
    assert_eq!(t.completed_at, Some(date(2024, 1, 5)));
}

#[test]
fn pending_single_trailing_date_is_due() {
    let t = parse_line("[B] Pay rent (2024-01-01) (2024-02-01)").unwrap();
    assert_eq!(t.state, State::Pending);
    assert_eq!(t.due_to, Some(date(2024, 2, 1)));
    assert_eq!(t.completed_at, None);
    assert_eq!(t.stringify(), "[B] Pay rent (2024-01-01) (due:2024-02-01)");
}

#[test]
fn labelled_and_unlabelled_dates() {
    let t = parse_line("✓ [C] Summary (2024-01-01) (due:2024-01-03) (2024-01-04)").unwrap();
    assert_eq!(t.due_to, Some(date(2024, 1, 3)));
    assert_eq!(t.completed_at, Some(date(2024, 1, 4)));
    let t = parse_line("✓ [C] Summary (2024-01-01) (due:2024-01-03)").unwrap();
    assert_eq!(t.due_to, Some(date(2024, 1, 3)));
    assert_eq!(t.completed_at, None);
}

#[test]
fn round_trip_of_canonical_lines() {
    let lines = [
        "[A] Buy milk #errand (2024-01-01) (due:2024-01-10)",
        "✓ [O] Call mom (2024-01-01) (2024-01-05)",
        "✗ [B] Old idea #someday #x (2023-12-31)",
        "✓ [C] Summary (2024-01-01) (due:2024-01-03) (2024-01-04)",
        "[O] Content (with parens) here (2024-02-29)",
    ];
    for l in lines {
        assert_eq!(parse_line(l).unwrap().stringify(), l);
    }
}

#[test]
fn lower_case_priority_is_read_and_written_upper() {
    let t = parse_line("[a] x (2024-01-01)").unwrap();
    assert_eq!(t.priority, Priority::A);
    assert_eq!(t.stringify(), "[A] x (2024-01-01)");
    let t = parse_line("[z] x (2024-01-01)").unwrap();
    assert_eq!(t.priority, Priority::O);
}

#[test]
fn malformed_lines_fail() {
    for l in [
        "",
        "no brackets (2024-01-01)",
        "[A] missing date",
        "[A]  (2024-01-01)",
        "[A] x (2024-13-01)",
        "[A] x (2023-02-29)",
        "[A] x (2024-01-01) trailing",
        "[A] x (2024-01-01) (due:2024-02-30)",
        "✓[A] x (2024-01-01)",
        "[A] x (24-01-01)",
    ] {
        assert!(parse_line(l).is_err(), "{l}");
    }
}

#[test]
fn leap_day_is_a_date() {
    assert!(parse_line("[A] x (2000-02-29)").is_ok());
    assert!(parse_line("[A] x (1900-02-29)").is_err());
}

#[test]
fn tags_are_whitespace_delimited_word_tokens() {
    assert_eq!(extract_tags("#a #b"), vec!["a".to_string(), "b".to_string()]);
    assert_eq!(extract_tags("x #a #a"), vec!["a".to_string(), "a".to_string()]);
    assert_eq!(extract_tags("a#b #c-d #e_f\t#héllo #"), vec!["e_f".to_string(), "héllo".to_string()]);
    assert_eq!(extract_tags(""), Vec::<String>::new());
}

#[test]
fn new_task_is_pending_with_tags() {
    let t = Task::new(Priority::B, "Plan #trip".to_string(), None, date(2024, 5, 1));
    assert_eq!(t.state, State::Pending);
    assert_eq!(t.tags, vec!["trip".to_string()]);
    assert_eq!(t.completed_at, None);
    assert_eq!(t.stringify(), "[B] Plan #trip (2024-05-01)");
}

#[test]
fn state_and_priority_text() {
    assert_eq!(State::Pending.as_str(), "");
    assert_eq!(State::Completed.as_str(), "✓ ");
    assert_eq!(State::Removed.as_str(), "✗ ");
    assert_eq!(State::from_str("✓"), State::Completed);
    assert_eq!(State::from_str("✗"), State::Removed);
    assert_eq!(State::from_str("x"), State::Pending);
    assert_eq!(Priority::A.as_str(), "A");
    assert_eq!(Priority::O.as_str(), "O");
    assert_eq!(Priority::from_str("b"), Priority::B);
    assert_eq!(Priority::from_str("BB"), Priority::O);
    assert_eq!(Priority::from('c'), Priority::C);
    assert_eq!(Priority::default(), Priority::O);
    assert_eq!(State::default(), State::Pending);
}

#[test]
fn priority_order_is_a_b_c_o() {
    assert!(Priority::A > Priority::B);
    assert!(Priority::B > Priority::C);
    assert!(Priority::C > Priority::O);
    assert!(Priority::A > Priority::O);
    assert!(Priority::O.at_least(&Priority::O));
    assert!(!Priority::C.at_least(&Priority::B));
}
