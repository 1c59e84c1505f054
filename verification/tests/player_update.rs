use ferrex_player::batch::MediaId;
use ferrex_player::player_update::{
    invalid_url_message, is_hdr_content, join_stream_url, stream_url, needs_media_exec, player_step, PlayerCommand, PlayerEvent, PlayerUiState, PositionSource,
    VideoFailure, VideoMetadata,
};

fn playing(id: MediaId) -> PlayerUiState {
    let mut s = PlayerUiState::new();
    s.has_video = true;
    s.current_media = Some(id);
    s
}

#[test]
fn stop_sends_progress_then_resets_then_leaves() {
    let mut s = playing(MediaId::Movie(4));
    let cmds = player_step(&mut s, PlayerEvent::Stop);
    assert_eq!(
        cmds,
        vec![PlayerCommand::SendProgress(MediaId::Movie(4), PositionSource::LastValid), PlayerCommand::ResetAfterStop, PlayerCommand::NavigateBack]
    );
    assert_eq!(s, playing(MediaId::Movie(4)));
    assert!(player_step(&mut s, PlayerEvent::ResetAfterStop).is_empty());
    assert_eq!(s, PlayerUiState::new());
    let cmds = player_step(&mut s, PlayerEvent::NavigateHome);
    assert_eq!(cmds, vec![PlayerCommand::ResetAfterStop, PlayerCommand::NavigateHome]);
}

#[test]
fn play_pause_toggles_and_reports_progress() {
    let mut s = playing(MediaId::Episode(9));
    let cmds = player_step(&mut s, PlayerEvent::PlayPause);
    assert_eq!(cmds, vec![PlayerCommand::SetPaused(true), PlayerCommand::SendProgress(MediaId::Episode(9), PositionSource::Video)]);
    assert!(s.paused && s.controls);
    let cmds = player_step(&mut s, PlayerEvent::Play);
    assert_eq!(cmds, vec![PlayerCommand::SetPaused(false), PlayerCommand::SendProgress(MediaId::Episode(9), PositionSource::Video)]);
    let mut idle = PlayerUiState::new();
    assert!(player_step(&mut idle, PlayerEvent::PlayPause).is_empty());
    assert!(idle.controls);
}

#[test]
fn menus_close_each_other() {
    let mut s = PlayerUiState::new();
    player_step(&mut s, PlayerEvent::ToggleSettings);
    assert!(s.show_settings);
    player_step(&mut s, PlayerEvent::ToggleSubtitleMenu);
    assert!(s.show_subtitle_menu && !s.show_settings);
    player_step(&mut s, PlayerEvent::ToggleQualityMenu);
    assert!(s.show_quality_menu && !s.show_subtitle_menu && !s.show_settings);
    player_step(&mut s, PlayerEvent::ToggleQualityMenu);
    assert!(!s.show_quality_menu);
}

#[test]
fn fullscreen_mute_and_flags() {
    let mut s = playing(MediaId::Movie(1));
    assert_eq!(player_step(&mut s, PlayerEvent::DisableFullscreen), vec![]);
    assert_eq!(player_step(&mut s, PlayerEvent::ToggleFullscreen), vec![PlayerCommand::SetFullscreen(true)]);
    assert_eq!(player_step(&mut s, PlayerEvent::DisableFullscreen), vec![PlayerCommand::SetFullscreen(false)]);
    assert_eq!(player_step(&mut s, PlayerEvent::ToggleMute), vec![PlayerCommand::SetMuted(true)]);
    assert!(s.is_muted);
    player_step(&mut s, PlayerEvent::ToggleShuffle);
    player_step(&mut s, PlayerEvent::ToggleRepeat);
    assert!(s.is_shuffle_enabled && s.is_repeat_enabled);
}

#[test]
fn loads_and_stream_urls_are_reported() {
    let mut s = PlayerUiState::new();
    assert_eq!(player_step(&mut s, PlayerEvent::VideoLoaded(true)), vec![PlayerCommand::QueryTracks, PlayerCommand::ShowPlayer]);
    assert_eq!(
        player_step(&mut s, PlayerEvent::VideoLoaded(false)),
        vec![PlayerCommand::ShowVideoError(VideoFailure::LoadFailed)]
    );
    assert_eq!(
        player_step(&mut s, PlayerEvent::SetStreamUrl(String::new())),
        vec![PlayerCommand::ShowVideoError(VideoFailure::StreamUrlMissing)]
    );
    assert_eq!(VideoFailure::StreamUrlMissing.message(), "Failed to resolve stream URL");
    assert_eq!(VideoFailure::LoadFailed.message(), "Failed to load video");
    assert_eq!(
        player_step(&mut s, PlayerEvent::SetStreamUrl(String::from("http://x/v"))),
        vec![PlayerCommand::OpenStreamUrl(String::from("http://x/v"))]
    );
}

#[test]
fn next_episode_only_from_an_episode() {
    let mut s = playing(MediaId::Episode(5));
    s.external_mpv_active = true;
    assert_eq!(
        player_step(&mut s, PlayerEvent::NextEpisode(Some(6))),
        vec![PlayerCommand::SendProgress(MediaId::Episode(5), PositionSource::Video), PlayerCommand::PlayEpisode(6, true)]
    );
    assert!(player_step(&mut s, PlayerEvent::NextEpisode(None)).is_empty());
    let mut m = playing(MediaId::Movie(5));
    assert!(player_step(&mut m, PlayerEvent::NextEpisode(Some(6))).is_empty());
}

#[test]
fn closing_pauses_then_drops_then_resets() {
    let mut s = playing(MediaId::Movie(2));
    assert_eq!(
        player_step(&mut s, PlayerEvent::CloseVideo),
        vec![PlayerCommand::SetPaused(true), PlayerCommand::DropVideo, PlayerCommand::ResetPosition]
    );
    assert!(!s.has_video);
    assert_eq!(player_step(&mut s, PlayerEvent::CloseVideo), vec![PlayerCommand::ResetPosition]);
}

#[test]
fn playback_without_media_item_is_flagged() {
    let mut s = PlayerUiState::new();
    s.has_video = true;
    assert!(needs_media_exec(&s, &PlayerEvent::Play));
    assert!(!needs_media_exec(&s, &PlayerEvent::ToggleMute));
    s.current_media = Some(MediaId::Movie(1));
    assert!(!needs_media_exec(&s, &PlayerEvent::PlayPause));
}

#[test]
fn end_of_stream_plays_next_episode_or_leaves() {
    let mut s = playing(MediaId::Episode(5));
    s.external_mpv_active = true;
    assert_eq!(
        player_step(&mut s, PlayerEvent::EndOfStream(Some(6))),
        vec![PlayerCommand::SendProgress(MediaId::Episode(5), PositionSource::Video), PlayerCommand::PlayEpisode(6, false)]
    );
    assert_eq!(
        player_step(&mut s, PlayerEvent::EndOfStream(None)),
        vec![PlayerCommand::SendProgress(MediaId::Episode(5), PositionSource::Video), PlayerCommand::ResetAfterStop, PlayerCommand::NavigateBack]
    );
    let mut m = playing(MediaId::Movie(1));
    assert_eq!(
        player_step(&mut m, PlayerEvent::EndOfStream(Some(6))),
        vec![PlayerCommand::SendProgress(MediaId::Movie(1), PositionSource::Video), PlayerCommand::ResetAfterStop, PlayerCommand::NavigateBack]
    );
    let mut none = PlayerUiState::new();
    assert_eq!(
        player_step(&mut none, PlayerEvent::EndOfStream(None)),
        vec![PlayerCommand::ResetAfterStop, PlayerCommand::NavigateBack]
    );
}

#[test]
fn previous_episode_restarts_or_goes_back() {
    let mut s = playing(MediaId::Episode(5));
    assert_eq!(player_step(&mut s, PlayerEvent::PreviousEpisode(true, Some(4))), vec![PlayerCommand::SeekToStart]);
    assert_eq!(
        player_step(&mut s, PlayerEvent::PreviousEpisode(false, Some(4))),
        vec![PlayerCommand::SendProgress(MediaId::Episode(5), PositionSource::Video), PlayerCommand::PlayEpisode(4, false)]
    );
    assert_eq!(player_step(&mut s, PlayerEvent::PreviousEpisode(false, None)), vec![PlayerCommand::SeekToStart]);
    s.external_mpv_active = true;
    assert_eq!(player_step(&mut s, PlayerEvent::PreviousEpisode(true, None)), vec![PlayerCommand::SeekExternalToStart]);
    let mut m = playing(MediaId::Movie(5));
    assert!(player_step(&mut m, PlayerEvent::PreviousEpisode(false, Some(4))).is_empty());
}

#[test]
fn subtitle_choices_close_the_menu() {
    let mut s = PlayerUiState::new();
    player_step(&mut s, PlayerEvent::ToggleSubtitleMenu);
    assert!(s.show_subtitle_menu);
    assert_eq!(player_step(&mut s, PlayerEvent::SubtitleTrackSelected(2)), vec![PlayerCommand::SelectSubtitleTrack(2)]);
    assert!(!s.show_subtitle_menu);
    player_step(&mut s, PlayerEvent::ToggleSubtitleMenu);
    assert_eq!(player_step(&mut s, PlayerEvent::ToggleSubtitles), vec![PlayerCommand::ToggleSubtitles]);
    assert!(!s.show_subtitle_menu);
}

#[test]
fn unparsable_stream_url_is_reported() {
    let mut s = PlayerUiState::new();
    assert_eq!(
        player_step(&mut s, PlayerEvent::StreamUrlInvalid(String::from("relative URL without a base"))),
        vec![PlayerCommand::ShowInvalidUrl(String::from("relative URL without a base"))]
    );
    assert_eq!(invalid_url_message("empty host"), "Invalid URL: empty host");
}

#[test]
fn progress_comes_from_the_video_or_the_last_position() {
    let mut s = PlayerUiState::new();
    s.current_media = Some(MediaId::Movie(3));
    assert_eq!(
        player_step(&mut s, PlayerEvent::NavigateBack),
        vec![PlayerCommand::SendProgress(MediaId::Movie(3), PositionSource::LastValid), PlayerCommand::ResetAfterStop, PlayerCommand::NavigateBack]
    );
    s.has_video = true;
    assert_eq!(
        player_step(&mut s, PlayerEvent::NavigateHome),
        vec![PlayerCommand::SendProgress(MediaId::Movie(3), PositionSource::Video), PlayerCommand::ResetAfterStop, PlayerCommand::NavigateHome]
    );
}

#[test]
fn external_player_end_plays_next_or_exits() {
    let mut s = PlayerUiState::new();
    s.current_media = Some(MediaId::Episode(5));
    s.external_mpv_active = true;
    assert_eq!(
        player_step(&mut s, PlayerEvent::ExternalPlaybackEnded(true, true, Some(6))),
        vec![
            PlayerCommand::CloseExternal,
            PlayerCommand::SendProgress(MediaId::Episode(5), PositionSource::ExternalFinal),
            PlayerCommand::PlayEpisode(6, true),
        ]
    );
    assert!(s.is_fullscreen && !s.external_mpv_active);
    let mut m = PlayerUiState::new();
    m.current_media = Some(MediaId::Movie(1));
    m.external_mpv_active = true;
    assert_eq!(
        player_step(&mut m, PlayerEvent::ExternalPlaybackEnded(true, false, Some(6))),
        vec![
            PlayerCommand::CloseExternal,
            PlayerCommand::SendProgress(MediaId::Movie(1), PositionSource::ExternalFinal),
            PlayerCommand::ResetAfterStop,
            PlayerCommand::NavigateBack,
            PlayerCommand::RestoreWindow(false),
        ]
    );
    let mut gone = PlayerUiState::new();
    gone.external_mpv_active = true;
    assert_eq!(
        player_step(&mut gone, PlayerEvent::ExternalPlaybackEnded(false, true, None)),
        vec![PlayerCommand::ResetAfterStop, PlayerCommand::NavigateBack]
    );
    assert!(gone.external_mpv_active && !gone.is_fullscreen);
}

#[test]
fn hdr_is_guessed_from_metadata_or_the_file_name() {
    let meta = |bits: Option<u32>, transfer: Option<&str>, primaries: Option<&str>| {
        Some(VideoMetadata {
            bit_depth: bits,
            color_transfer: transfer.map(String::from),
            color_primaries: primaries.map(String::from),
        })
    };
    assert!(is_hdr_content(&meta(Some(10), None, None), "x"));
    assert!(!is_hdr_content(&meta(Some(8), Some("smpte2084"), None), "HDR"));
    assert!(is_hdr_content(&meta(None, Some("arib-std-b67"), None), "x"));
    assert!(!is_hdr_content(&meta(None, Some("bt709"), Some("bt2020")), "x"));
    assert!(is_hdr_content(&meta(None, None, Some("bt2020nc")), "x"));
    assert!(!is_hdr_content(&meta(None, None, None), "Movie.2160p.HDR.mkv"));
    assert!(is_hdr_content(&None, "Movie.2160p.mkv"));
    assert!(is_hdr_content(&None, "Show.DV.mkv"));
    assert!(!is_hdr_content(&None, "Movie.1080p.mkv"));
}

#[test]
fn stream_url_encodes_id_and_ticket() {
    let id = "3f2b8c1e-0a4d-4c5e-9b7a-1d2e3f405162";
    assert_eq!(
        stream_url("http://media.local:3000", id, &None),
        "http://media.local:3000/api/v1/stream/3f2b8c1e-0a4d-4c5e-9b7a-1d2e3f405162"
    );
    assert_eq!(
        stream_url("https://h", "a b/c", &Some("t+k=1".to_string())),
        "https://h/api/v1/stream/a%20b%2Fc?access_token=t%2Bk%3D1"
    );
    assert_eq!(stream_url("s", "x.y_z~", &Some("é".to_string())), "s/api/v1/stream/x.y_z~?access_token=%C3%A9");
}

#[test]
fn stream_url_joins_encoded_parts() {
    assert_eq!(join_stream_url("s", "id", &None), "s/api/v1/stream/id");
    assert_eq!(join_stream_url("s", "id", &Some("tok".to_string())), "s/api/v1/stream/id?access_token=tok");
}
