use batcave::media::{media_command, now_playing, now_playing_json, wait_step, AsyncState, MediaAction, WaitStep};

#[test]
fn media_commands_read() {
    assert_eq!(media_command("playpause"), Some(MediaAction::PlayPause));
    assert_eq!(media_command("next"), Some(MediaAction::Next));
    assert_eq!(media_command("prev"), Some(MediaAction::Prev));
    assert_eq!(media_command("stop"), None);
    assert_eq!(media_command("Next"), None);
}

#[test]
fn media_wait_gives_up_after_400_looks() {
    assert_eq!(wait_step(0, AsyncState::Completed), WaitStep::Take);
    assert_eq!(wait_step(0, AsyncState::Started), WaitStep::Wait);
    assert_eq!(wait_step(399, AsyncState::Started), WaitStep::Wait);
    assert_eq!(wait_step(400, AsyncState::Started), WaitStep::GiveUp);
    assert_eq!(wait_step(400, AsyncState::Completed), WaitStep::GiveUp);
    assert_eq!(wait_step(3, AsyncState::Other), WaitStep::GiveUp);
}

#[test]
fn media_now_playing_status_four_is_playing() {
    let np = now_playing(Some("T".to_string()), None, Some(4));
    assert_eq!(np, ("T".to_string(), String::new(), true));
    assert!(!now_playing(None, None, Some(5)).2);
    assert!(!now_playing(None, None, None).2);
}

#[test]
fn media_now_playing_json() {
    let np = Some(("A \"song\"".to_string(), "B\\C".to_string(), true));
    assert_eq!(now_playing_json(&np), r#"{"title":"A \"song\"","artist":"B\\C","playing":true}"#);
    assert_eq!(now_playing_json(&None), r#"{"title":"","artist":"","playing":false}"#);
}
