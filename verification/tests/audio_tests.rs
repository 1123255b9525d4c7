use batcave::audio::{process_name, session_matches};

#[test]
fn audio_process_name_is_exe_basename() {
    assert_eq!(process_name(1234, Some("C:\\Program Files\\Google\\chrome.exe")), "chrome.exe");
    assert_eq!(process_name(1234, Some("C:/apps/x.exe")), "x.exe");
    assert_eq!(process_name(1234, Some("bare.exe")), "bare.exe");
    assert_eq!(process_name(0, Some("C:\\a.exe")), "");
    assert_eq!(process_name(7, None), "");
}

#[test]
fn audio_session_matching() {
    assert!(session_matches("Spotify.exe", "spotify.exe"));
    assert!(session_matches("spot", "Spotify.exe"));
    assert!(!session_matches("chrome", "spotify.exe"));
    assert!(!session_matches("x", ".exe"));
    assert!(session_matches("", "a.exe"));
}
