use tdt::{
    content_answer, edit_task, parse_ids, parse_line, priority_answer, trim, Date, Edit, Field,
    Priority,
};

#[test]
fn ids_from_a_line() {
    assert_eq!(parse_ids("  3 1\t4  "), vec![3, 1, 4]);
    assert_eq!(parse_ids("1 x 2 -3 +4"), vec![1, 2, 4]);
    assert_eq!(parse_ids(""), Vec::<usize>::new());
    assert_eq!(parse_ids("99999999999999999999999 5"), vec![5]);
    assert_eq!(parse_ids("18446744073709551615"), vec![usize::MAX]);
    assert_eq!(parse_ids("+"), Vec::<usize>::new());
}

#[test]
fn trimming_cuts_unicode_blanks() {
    assert_eq!(trim("  a b \n"), "a b");
    assert_eq!(trim("\u{3000}x\u{a0}"), "x");
    assert_eq!(trim("   "), "");
}

#[test]
fn field_answers() {
    assert_eq!(Field::from_answer(" p\n"), Some(Field::Priority));
    assert_eq!(Field::from_answer("C"), Some(Field::Content));
    assert_eq!(Field::from_answer("d"), Some(Field::Due));
    assert_eq!(Field::from_answer("due"), None);
    assert_eq!(priority_answer(" b\n"), Priority::B);
    assert_eq!(priority_answer(""), Priority::O);
    assert_eq!(content_answer("  \n"), None);
    assert_eq!(content_answer(" New #tag \n"), Some("New #tag".to_string()));
}

#[test]
fn edits_replace_one_field() {
    let mut t = parse_line("[A] old #a (2024-01-01) (due:2024-02-01)").unwrap();
    edit_task(&mut t, Edit::Content("new #b #c".to_string()));
    assert_eq!(t.content, "new #b #c");
    assert_eq!(t.tags, vec!["b".to_string(), "c".to_string()]);
    edit_task(&mut t, Edit::Priority(Priority::C));
    assert_eq!(t.priority, Priority::C);
    edit_task(&mut t, Edit::Due(None));
    assert_eq!(t.due_to, None);
    edit_task(&mut t, Edit::Due(Date::from_ymd(2024, 9, 9)));
    assert_eq!(t.stringify(), "[C] new #b #c (2024-01-01) (due:2024-09-09)");
}

#[test]
fn whitespace_set() {
    for c in [' ', '\t', '\n', '\r', '\u{b}', '\u{c}', '\u{85}', '\u{a0}', '\u{1680}', '\u{2000}', '\u{200a}', '\u{2028}', '\u{2029}', '\u{202f}', '\u{205f}', '\u{3000}'] {
        assert!(tdt::text::white(c), "{:?}", c);
        assert!(c.is_whitespace());
    }
    for c in ['a', '#', '\u{200b}', '\u{feff}', '_', '\u{0}'] {
        assert!(!tdt::text::white(c), "{:?}", c);
        assert!(!c.is_whitespace());
    }
}

#[test]
fn substring_search() {
    assert!(tdt::query::occurs("Buy milk", "milk"));
    assert!(tdt::query::occurs("Buy milk", ""));
    assert!(tdt::query::occurs("", ""));
    assert!(!tdt::query::occurs("Buy milk", "milky"));
    assert!(!tdt::query::occurs("mi", "milk"));
    assert!(tdt::query::occurs("ééx", "éx"));
}
