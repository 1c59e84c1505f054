use ferrex_player::tracks::{
    format_audio_codec, format_audio_track, format_channels, format_language_code, format_subtitle_codec,
    format_subtitle_track, format_track_number, AudioTrack, PlayerDomainState, SubtitleTrack, TrackReport,
};

fn audio(index: i32, language: Option<&str>, title: Option<&str>, codec: Option<&str>, channels: Option<i32>) -> AudioTrack {
    AudioTrack {
        index,
        language: language.map(String::from),
        title: title.map(String::from),
        codec: codec.map(String::from),
        channels,
    }
}

fn subtitle(index: i32, language: Option<&str>, title: Option<&str>, codec: Option<&str>) -> SubtitleTrack {
    SubtitleTrack { index, language: language.map(String::from), title: title.map(String::from), codec: codec.map(String::from) }
}

fn state_with(audio_count: usize, subtitle_count: usize) -> PlayerDomainState {
    let mut s = PlayerDomainState::new();
    let audio_tracks = (0..audio_count).map(|i| audio(i as i32, Some("en"), None, None, None)).collect();
    let subtitle_tracks = (0..subtitle_count).map(|i| subtitle(i as i32, Some("fr"), None, None)).collect();
    s.update_available_tracks(Some(TrackReport {
        audio_tracks,
        current_audio_track: 0,
        subtitle_tracks,
        current_subtitle_track: None,
        subtitles_enabled: false,
    }));
    s
}

#[test]
fn language_codes_are_named() {
    assert_eq!(format_language_code("ENG"), "English");
    assert_eq!(format_language_code("ger"), "German");
    assert_eq!(format_language_code("zho"), "Chinese");
    assert_eq!(format_language_code("Xx"), "Xx");
}

#[test]
fn audio_codecs_are_named_in_check_order() {
    assert_eq!(format_audio_codec("aac"), "AAC");
    assert_eq!(format_audio_codec("AC-3"), "AC3");
    // "eac3" contains "ac3", which is checked first.
    assert_eq!(format_audio_codec("EAC3"), "AC3");
    assert_eq!(format_audio_codec("dts-hd"), "DTS");
    assert_eq!(format_audio_codec("Mystery"), "Mystery");
}

#[test]
fn subtitle_codecs_are_named() {
    assert_eq!(format_subtitle_codec("SRT"), "SRT");
    assert_eq!(format_subtitle_codec("webvtt"), "WebVTT");
    assert_eq!(format_subtitle_codec("ssa"), "ASS/SSA");
    assert_eq!(format_subtitle_codec("hdmv_pgs_subtitle"), "PGS");
    assert_eq!(format_subtitle_codec("dvb_subtitle"), "DVB");
    assert_eq!(format_subtitle_codec("SubRip"), "SubRip");
}

#[test]
fn channel_layouts_are_named() {
    assert_eq!(format_channels(1), "Mono");
    assert_eq!(format_channels(2), "Stereo");
    assert_eq!(format_channels(6), "5.1");
    assert_eq!(format_channels(8), "7.1");
    assert_eq!(format_channels(3), "3 ch");
    assert_eq!(format_channels(-1), "-1 ch");
}

#[test]
fn audio_track_label_combines_language_and_details() {
    assert_eq!(format_audio_track(&audio(0, Some("en"), None, Some("aac"), Some(2))), "English (AAC Stereo)");
    assert_eq!(format_audio_track(&audio(0, None, Some("Commentary"), None, Some(6))), "Commentary (5.1)");
    assert_eq!(format_audio_track(&audio(4, None, None, None, None)), "Track 5");
}

#[test]
fn subtitle_track_label_combines_language_and_codec() {
    assert_eq!(format_subtitle_track(&subtitle(0, Some("fr"), None, Some("subrip"))), "French (subrip)");
    assert_eq!(format_subtitle_track(&subtitle(1, None, Some("Forced"), None)), "Forced");
    assert_eq!(format_subtitle_track(&subtitle(2, None, None, Some("pgs"))), "Track 3 (PGS)");
}

#[test]
fn missing_track_index_reads_as_track_number() {
    let s = state_with(1, 0);
    assert_eq!(s.format_audio_track(0), "English");
    assert_eq!(s.format_audio_track(3), "Track 4");
    assert_eq!(s.format_audio_track(-1), "Track 0");
    assert_eq!(s.format_subtitle_track(0), "Track 1");
}

#[test]
fn audio_selection_needs_a_video() {
    let mut s = state_with(2, 0);
    assert_eq!(s.select_audio_track(1, None), Err(String::from("No video loaded")));
    assert_eq!(s.current_audio_track, 0);
    assert_eq!(
        s.select_audio_track(1, Some(Err(String::from("busy")))),
        Err(String::from("Failed to select audio track: busy"))
    );
    assert_eq!(s.select_audio_track(1, Some(Ok(()))), Ok(()));
    assert_eq!(s.current_audio_track, 1);
    assert_eq!(s.track_notification.as_deref(), Some("Audio: English"));
}

#[test]
fn subtitle_selection_sets_enabled_flag() {
    let mut s = state_with(0, 2);
    assert_eq!(s.select_subtitle_track(Some(1), Some(Ok(()))), Ok(()));
    assert!(s.subtitles_enabled);
    assert_eq!(s.current_subtitle_track, Some(1));
    assert_eq!(s.track_notification.as_deref(), Some("Subtitles: French"));
    assert_eq!(s.select_subtitle_track(None, Some(Ok(()))), Ok(()));
    assert!(!s.subtitles_enabled);
    assert_eq!(s.track_notification.as_deref(), Some("Subtitles: Disabled"));
}

#[test]
fn toggling_twice_restores_subtitles() {
    let mut s = state_with(0, 1);
    assert_eq!(s.toggle_subtitles(false), Err(String::from("No video loaded")));
    assert_eq!(s.toggle_subtitles(true), Ok(()));
    assert!(s.subtitles_enabled);
    assert_eq!(s.track_notification.as_deref(), Some("Subtitles: On"));
    assert_eq!(s.toggle_subtitles(true), Ok(()));
    assert!(!s.subtitles_enabled);
    assert_eq!(s.track_notification.as_deref(), Some("Subtitles: Off"));
}

#[test]
fn audio_cycle_wraps_around() {
    let mut s = state_with(3, 0);
    s.current_audio_track = 2;
    assert_eq!(s.cycle_audio_track(), Ok(0));
    s.current_audio_track = 0;
    assert_eq!(s.cycle_audio_track(), Ok(1));
    let empty = PlayerDomainState::new();
    assert_eq!(empty.cycle_audio_track(), Err(String::from("No audio tracks available")));
}

#[test]
fn subtitle_cycle_visits_each_track_then_off() {
    let mut s = state_with(0, 2);
    assert_eq!(s.cycle_subtitle_track(), Some(Some(0)));
    s.current_subtitle_track = Some(0);
    assert_eq!(s.cycle_subtitle_track(), Some(Some(1)));
    s.current_subtitle_track = Some(1);
    assert_eq!(s.cycle_subtitle_track(), Some(None));
    let empty = PlayerDomainState::new();
    assert_eq!(empty.cycle_subtitle_track(), None);
}

#[test]
fn simple_subtitle_cycle_remembers_last_track() {
    let mut s = state_with(0, 3);
    // Off: turn on the first track.
    assert_eq!(s.cycle_subtitle_simple(), Some(Some(0)));
    // On at track 2: turn off and remember it.
    s.subtitles_enabled = true;
    s.current_subtitle_track = Some(2);
    assert_eq!(s.cycle_subtitle_simple(), Some(None));
    assert_eq!(s.last_subtitle_track, Some(2));
    // On with no current track but a remembered one: back to it.
    s.current_subtitle_track = None;
    assert_eq!(s.cycle_subtitle_simple(), Some(Some(2)));
    // On at the first track: off, remembering it.
    s.current_subtitle_track = Some(0);
    assert_eq!(s.cycle_subtitle_simple(), Some(None));
    assert_eq!(s.last_subtitle_track, Some(0));
}

#[test]
fn track_numbers_are_written_in_decimal() {
    assert_eq!(format_track_number(0), "Track 1");
    assert_eq!(format_track_number(9), "Track 10");
    assert_eq!(format_track_number(-2), "Track -1");
    assert_eq!(format_track_number(i32::MAX), "Track -2147483648");
    assert_eq!(format_track_number(-1), "Track 0");
}
