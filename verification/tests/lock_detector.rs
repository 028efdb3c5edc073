use zipease_extract::lock_detector::join_process_names;

#[test]
fn single_name_returns_unchanged() {
    let names = vec!["Google Chrome".to_string()];
    assert_eq!(join_process_names(&names), "Google Chrome");
}

#[test]
fn two_names_produce_comma_separated() {
    let names = vec!["A".to_string(), "B".to_string()];
    assert_eq!(join_process_names(&names), "A, B");
}

#[test]
fn no_names_join_to_empty_string() {
    let names: Vec<String> = Vec::new();
    assert_eq!(join_process_names(&names), "");
}

#[test]
fn three_names_keep_their_order() {
    let names = vec!["explorer.exe".to_string(), "Word".to_string(), "7zFM".to_string()];
    assert_eq!(join_process_names(&names), "explorer.exe, Word, 7zFM");
}
