use batcave::files::{file_name_exec, named_paths, search_files};

fn s(x: &str) -> String {
    x.to_string()
}

#[test]
fn files_name_is_last_component() {
    assert_eq!(file_name_exec("C:\\Users\\me\\Notes.md"), "Notes.md");
    assert_eq!(file_name_exec("C:"), "C:");
    assert_eq!(file_name_exec("C:\\dir\\"), "");
}

#[test]
fn files_prefix_matches_first_then_shorter() {
    let paths = vec![
        s("C:\\long\\path\\my_report.txt"),
        s("C:\\Report.txt"),
        s("C:\\a\\REPORTS\\old.txt"),
        s("D:\\report.pdf"),
        s("C:\\x\\xreport"),
    ];
    let r = search_files(&paths, "Report");
    assert_eq!(r, vec![s("C:\\Report.txt"), s("D:\\report.pdf"), s("C:\\x\\xreport"), s("C:\\long\\path\\my_report.txt")]);
}

#[test]
fn files_length_counts_bytes() {
    let paths = vec![s("C:\\éé\\ab"), s("C:\\xxx\\ab")];
    assert_eq!(search_files(&paths, "ab"), vec![s("C:\\xxx\\ab"), s("C:\\éé\\ab")]);
}

#[test]
fn files_keeps_five_hundred() {
    let paths: Vec<String> = (0..600).map(|i| format!("C:\\f{i}.txt")).collect();
    assert_eq!(search_files(&paths, "f").len(), 500);
}

#[test]
fn files_named_paths() {
    assert_eq!(named_paths(&vec![s("C:\\a\\b.txt")]), vec![(s("b.txt"), s("C:\\a\\b.txt"))]);
}
