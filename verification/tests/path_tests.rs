use chat_log_filter::get_path_for_output;

#[test]
fn output_path_explicit() {
    let outputs = vec!["x/y.html".to_string()];
    let r = get_path_for_output(0, &outputs, &Some("a.html".to_string()), &None);
    assert_eq!(r, "x/y.html");
}

#[test]
fn output_path_default_base() {
    let outputs: Vec<String> = Vec::new();
    let r = get_path_for_output(1, &outputs, &Some("log.html".to_string()), &None);
    assert_eq!(r, "./filtered_log.html");
}

#[test]
fn output_path_base_dir_trimmed() {
    let outputs: Vec<String> = Vec::new();
    let r = get_path_for_output(0, &outputs, &Some("log.html".to_string()), &Some("out///".to_string()));
    assert_eq!(r, "out/filtered_log.html");
}

#[test]
fn output_path_missing_file_name() {
    let outputs: Vec<String> = Vec::new();
    let r = get_path_for_output(7, &outputs, &None, &Some("d".to_string()));
    assert_eq!(r, "d/filtered_file_name_error7");
}

#[test]
fn output_path_large_index_digits() {
    let outputs: Vec<String> = Vec::new();
    let r = get_path_for_output(1042, &outputs, &None, &None);
    assert_eq!(r, "./filtered_file_name_error1042");
}
