use ferrex_player::player_keys::{handle_player_key_press, mpv_args, shortcuts_active, PlayerAction, PlayerKey};

#[test]
fn keys_map_to_actions() {
    assert_eq!(handle_player_key_press(&PlayerKey::Space, false), Some(PlayerAction::PlayPause));
    assert_eq!(handle_player_key_press(&PlayerKey::ArrowLeft, true), Some(PlayerAction::SeekBackwardFine));
    assert_eq!(handle_player_key_press(&PlayerKey::ArrowLeft, false), Some(PlayerAction::SeekBackwardCoarse));
    assert_eq!(handle_player_key_press(&PlayerKey::ArrowRight, true), Some(PlayerAction::SeekForwardFine));
    assert_eq!(handle_player_key_press(&PlayerKey::ArrowUp, false), Some(PlayerAction::VolumeUp));
    assert_eq!(handle_player_key_press(&PlayerKey::Escape, false), None);
    assert_eq!(handle_player_key_press(&PlayerKey::F11, false), Some(PlayerAction::ToggleFullscreen));
    assert_eq!(handle_player_key_press(&PlayerKey::Character(String::from("F")), false), Some(PlayerAction::ToggleFullscreen));
    assert_eq!(handle_player_key_press(&PlayerKey::Character(String::from("m")), false), Some(PlayerAction::ToggleMute));
    assert_eq!(handle_player_key_press(&PlayerKey::Character(String::from("S")), true), Some(PlayerAction::ToggleSubtitleMenu));
    assert_eq!(handle_player_key_press(&PlayerKey::Character(String::from("s")), false), Some(PlayerAction::CycleSubtitleSimple));
    assert_eq!(handle_player_key_press(&PlayerKey::Character(String::from("a")), false), Some(PlayerAction::CycleAudioTrack));
    assert_eq!(handle_player_key_press(&PlayerKey::Character(String::from("x")), false), None);
    assert_eq!(handle_player_key_press(&PlayerKey::Other, true), None);
}

#[test]
fn shortcuts_need_the_internal_player() {
    assert!(shortcuts_active(false, true, true, false));
    assert!(!shortcuts_active(true, true, true, false));
    assert!(!shortcuts_active(false, false, true, false));
    assert!(!shortcuts_active(false, true, false, false));
    assert!(!shortcuts_active(false, true, true, true));
}

#[test]
fn windowed_mpv_arguments() {
    let args = mpv_args("/tmp/sock", false, Some((1280, 720)), Some((-5, 40)), Some("12.5"), None, "http://x/v");
    assert_eq!(
        args,
        vec![
            "--input-ipc-server=/tmp/sock",
            "--no-config",
            "--fs=no",
            "--geometry=1280x720+-5+40",
            "--osd-level=1",
            "--osd-bar=yes",
            "--osd-duration=2000",
            "--osc=yes",
            "--keep-open=no",
            "--idle=no",
            "--pause=no",
            "--start=12.5",
            "--hwdec=auto-safe",
            "--vo=gpu-next",
            "--target-colorspace-hint",
            "--hdr-compute-peak=yes",
            "http://x/v",
        ]
    );
}

#[test]
fn fullscreen_mpv_arguments_with_log() {
    let args = mpv_args("s", true, Some((1, 2)), None, None, Some("/l/mpv.log"), "u");
    assert_eq!(args[2], "--fs=yes");
    assert_eq!(args[3], "--osd-level=1");
    assert!(args.contains(&String::from("--log-file=/l/mpv.log")));
    assert!(args.contains(&String::from("--msg-level=all=info")));
    assert_eq!(args.last().unwrap(), "u");
    let sized = mpv_args("s", false, Some((640, 480)), None, None, None, "u");
    assert_eq!(sized[3], "--geometry=640x480");
    let unsized_window = mpv_args("s", false, None, Some((1, 1)), None, None, "u");
    assert_eq!(unsized_window[3], "--osd-level=1");
}
