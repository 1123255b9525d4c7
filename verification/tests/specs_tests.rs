use batcave::specs::{refresh, refresh_command, HARDWARE_QUERY};

#[test]
fn specs_command_runs_the_query() {
    let c = refresh_command();
    assert_eq!(c.len(), 5);
    assert_eq!(c[0], "powershell");
    assert_eq!(c[3], "-Command");
    assert_eq!(c[4], HARDWARE_QUERY);
    assert!(HARDWARE_QUERY.contains("ConvertTo-Json -Depth 4"));
}

#[test]
fn specs_written_only_after_a_good_run() {
    assert_eq!(refresh(true, b"{}".to_vec()), Some(b"{}".to_vec()));
    assert_eq!(refresh(true, vec![]), None);
    assert_eq!(refresh(false, b"{}".to_vec()), None);
}
