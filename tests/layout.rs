use cert_tree::browser::list_row_texts;
use cert_tree::cli::Args;

#[test]
fn list_row_on_wide_terminal() {
    let (name, date) = list_row_texts("[1] Root", "2030-05-06 07:08:09", 120, 120);
    // 118 inner columns, less 19 for the date and 9 for gaps and marks
    assert_eq!(name, format!("[1] Root{}", " ".repeat(90 - 8)));
    assert_eq!(date, "2030-05-06 07:08:09");
}

#[test]
fn list_row_on_narrow_terminal() {
    let (name, date) = list_row_texts("[12] A very long certificate name indeed", "2030-05-06 07:08:09", 60, 40);
    // 38 inner columns, less 11 and 9, leaves 18
    assert_eq!(name, "[12] A very lon...");
    assert_eq!(date, "05-06 07:08");
}

#[test]
fn list_row_medium_terminal_keeps_unreadable_date() {
    let (name, date) = list_row_texts("x", "Invalid date", 90, 10);
    assert_eq!(name, "x       ");
    assert_eq!(date, "    Invalid date");
    let (_, date) = list_row_texts("x", "2030-05-06 07:08:09", 90, 10);
    assert_eq!(date, "2030-05-06 07:08");
}

#[test]
fn args_need_a_source() {
    let none = Args { file: None, url: None, interactive: false, text: true };
    assert!(!none.has_source());
    let file = Args { file: Some("a.pem".to_string()), url: None, interactive: false, text: true };
    assert!(file.has_source());
    let url = Args { file: None, url: Some("https://example.com".to_string()), interactive: true, text: true };
    assert!(url.has_source());
}
