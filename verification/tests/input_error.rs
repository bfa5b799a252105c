use rt::input::InputError;

#[test]
fn carries_title_and_message() {
    let e = InputError::new("While loading".to_string(), "file is gone".to_string());
    assert_eq!(e.title(), "While loading");
    assert_eq!(e.message(), "file is gone");
}

#[test]
fn display_string_highlights_message() {
    let e = InputError::new("While loading".to_string(), "file is gone".to_string());
    assert_eq!(
        e.display_string(),
        "While loading:\n    \x1b[31mfile is gone\x1b[0m"
    );
}
