//! The player's message handling, without its floating-point parts: which
//! flags a message toggles, which menus close each other, what is sent on
//! stop and navigation (and in which order), episode navigation, and how a
//! load or a missing stream URL is reported. Positions, durations, volume
//! and speed stay with the caller, which fills them into the commands.
use vstd::prelude::*;
use crate::batch::MediaId;
use crate::text::{all_ascii, concat, owned, seq_contains, str_contains};

verus! {

/// The non-floating-point state of the player.
#[derive(Debug, Clone, Copy, PartialEq, Eq, Structural)]
pub struct PlayerUiState {
    /// A video is open in the internal player.
    pub has_video: bool,
    /// The open video is paused.
    pub paused: bool,
    pub is_muted: bool,
    pub is_fullscreen: bool,
    pub show_settings: bool,
    pub show_subtitle_menu: bool,
    pub show_quality_menu: bool,
    pub is_shuffle_enabled: bool,
    pub is_repeat_enabled: bool,
    /// The playback controls are shown.
    pub controls: bool,
    /// Playback is handed to the external player.
    pub external_mpv_active: bool,
    /// The media item being played, if known.
    pub current_media: Option<MediaId>,
}

/// Why the video view shows an error.
#[derive(Debug, Clone, Copy, PartialEq, Eq, Structural)]
pub enum VideoFailure {
    /// The video could not be loaded.
    LoadFailed,
    /// No stream URL was resolved.
    StreamUrlMissing,
}

/// The message a video failure shows.
pub open spec fn failure_text(f: VideoFailure) -> Seq<char> {
    match f {
        VideoFailure::LoadFailed => "Failed to load video"@,
        VideoFailure::StreamUrlMissing => "Failed to resolve stream URL"@,
    }
}

impl VideoFailure {
    /// The message shown for this failure.
    pub fn message(&self) -> (r: String)
        ensures
            r@ == failure_text(*self),
    {
        match self {
            VideoFailure::LoadFailed => owned("Failed to load video"),
            VideoFailure::StreamUrlMissing => owned("Failed to resolve stream URL"),
        }
    }
}

/// Where a progress update takes its position and duration from.
#[derive(Debug, Clone, Copy, PartialEq, Eq, Structural)]
pub enum PositionSource {
    /// The open video's own position and duration.
    Video,
    /// The last valid position and duration the player recorded.
    LastValid,
    /// The external player's final position, with the last valid duration.
    ExternalFinal,
}

/// A message handled by the player.
#[derive(Debug, Clone, PartialEq, Eq)]
pub enum PlayerEvent {
    NavigateBack,
    NavigateHome,
    Stop,
    ResetAfterStop,
    Play,
    Pause,
    PlayPause,
    ToggleMute,
    ToggleFullscreen,
    DisableFullscreen,
    ToggleSettings,
    ToggleSubtitleMenu,
    ToggleQualityMenu,
    ToggleShuffle,
    ToggleRepeat,
    ShowControls,
    /// The video finished loading, or failed to.
    VideoLoaded(bool),
    /// The resolved stream URL (possibly empty).
    SetStreamUrl(String),
    /// Go to the next episode; carries the episode that follows the current
    /// one in play order, if there is one.
    NextEpisode(Option<u128>),
    /// Close the internal player's video.
    CloseVideo,
    /// The stream ended; carries the episode that follows the current one
    /// in play order, if there is one.
    EndOfStream(Option<u128>),
    /// Go back an episode. Carries whether at least 5% of the current
    /// episode has played (then it restarts instead) and the episode before
    /// it in play order, if there is one.
    PreviousEpisode(bool, Option<u128>),
    /// A subtitle track was picked from the menu.
    SubtitleTrackSelected(i32),
    /// Subtitles were switched on or off from the menu.
    ToggleSubtitles,
    /// The stream URL did not parse; carries the parser's error.
    StreamUrlInvalid(String),
    /// The external player exited. Carries whether its handle was still
    /// held, whether it was fullscreen at the end, and the episode that
    /// follows the current one in play order, if there is one.
    ExternalPlaybackEnded(bool, bool, Option<u128>),
}

/// What the player asks its caller to do, in order.
#[derive(Debug, Clone, PartialEq, Eq)]
pub enum PlayerCommand {
    /// Send a progress update for this item, with the position and duration
    /// taken from the given source.
    SendProgress(MediaId, PositionSource),
    /// Reset the player after the progress update went out.
    ResetAfterStop,
    /// Leave the player for the previous view.
    NavigateBack,
    /// Leave the player for the home view.
    NavigateHome,
    /// Pause or resume the video.
    SetPaused(bool),
    /// Mute or unmute the video.
    SetMuted(bool),
    /// Switch the window to fullscreen (`true`) or windowed mode.
    SetFullscreen(bool),
    /// Read the video's audio and subtitle tracks.
    QueryTracks,
    /// Show the player view.
    ShowPlayer,
    /// Show the video error view with this failure's message.
    ShowVideoError(VideoFailure),
    /// Parse this stream URL and open it.
    OpenStreamUrl(String),
    /// Play this episode, in the external player when `true`.
    PlayEpisode(u128, bool),
    /// Drop the open video.
    DropVideo,
    /// Clear the position, duration and seek state.
    ResetPosition,
    /// Seek the internal player's video back to its start.
    SeekToStart,
    /// Seek the external player back to the start.
    SeekExternalToStart,
    /// Select this subtitle track (see `tracks`).
    SelectSubtitleTrack(i32),
    /// Switch subtitles on or off (see `tracks`).
    ToggleSubtitles,
    /// Show the video error view for a stream URL that did not parse, with
    /// this parser error (see `invalid_url_message`).
    ShowInvalidUrl(String),
    /// Forget the external player (after taking its final position).
    CloseExternal,
    /// Restore the window, fullscreen when `true`.
    RestoreWindow(bool),
}

/// The message shown for a stream URL that did not parse.
pub fn invalid_url_message(error: &str) -> (r: String)
    ensures
        r@ == "Invalid URL: "@ + error@,
{
    crate::text::concat("Invalid URL: ", error)
}

/// The commands that restart the current episode: the external player
/// seeks to the start, or else an open internal video does.
pub open spec fn restart_commands(s: PlayerUiState) -> Seq<PlayerCommand> {
    if s.external_mpv_active {
        seq![PlayerCommand::SeekExternalToStart]
    } else if s.has_video {
        seq![PlayerCommand::SeekToStart]
    } else {
        Seq::empty()
    }
}

/// What the HDR guess reads of the media file's metadata.
pub struct VideoMetadata {
    pub bit_depth: Option<u32>,
    pub color_transfer: Option<String>,
    pub color_primaries: Option<String>,
}

/// Whether a file is taken to be HDR: with metadata, by a bit depth above 8,
/// else by a PQ/HLG colour transfer (`smpte2084`, `arib-std-b67`,
/// `smpte2086`), else by BT.2020 primaries; without metadata, by a file name
/// that mentions `2160p`, `UHD`, `HDR` or `DV`.
pub open spec fn hdr_guess(meta: Option<VideoMetadata>, filename: Seq<char>) -> bool {
    match meta {
        Some(m) => match m.bit_depth {
            Some(b) => b > 8,
            None => match m.color_transfer {
                Some(t) => seq_contains(t@, "smpte2084"@) || seq_contains(t@, "arib-std-b67"@)
                    || seq_contains(t@, "smpte2086"@),
                None => match m.color_primaries {
                    Some(p) => seq_contains(p@, "bt2020"@),
                    None => false,
                },
            },
        },
        None => seq_contains(filename, "2160p"@) || seq_contains(filename, "UHD"@)
            || seq_contains(filename, "HDR"@) || seq_contains(filename, "DV"@),
    }
}

/// Guess whether the media to be played is HDR (see `hdr_guess`).
pub fn is_hdr_content(meta: &Option<VideoMetadata>, filename: &str) -> (b: bool)
    ensures
        b == hdr_guess(*meta, filename@),
{
    match meta {
        Some(m) => match m.bit_depth {
            Some(b) => b > 8,
            None => match &m.color_transfer {
                Some(t) => str_contains(t.as_str(), "smpte2084") || str_contains(t.as_str(), "arib-std-b67")
                    || str_contains(t.as_str(), "smpte2086"),
                None => match &m.color_primaries {
                    Some(p) => str_contains(p.as_str(), "bt2020"),
                    None => false,
                },
            },
        },
        None => str_contains(filename, "2160p") || str_contains(filename, "UHD") || str_contains(filename, "HDR")
            || str_contains(filename, "DV"),
    }
}

/// What `urlencoding::encode` gives for the text `s`: every byte of its UTF-8
/// form kept where it is an ASCII letter or digit or one of `-`, `_`, `.`,
/// `~`, and written as `%` with two uppercase hex digits otherwise.
pub uninterp spec fn url_encoded(s: Seq<char>) -> Seq<char>;

/// Characters that percent-encoding leaves as they are.
pub open spec fn url_safe(c: char) -> bool {
    ('0' <= c && c <= '9') || ('A' <= c && c <= 'Z') || ('a' <= c && c <= 'z') || c == '-' || c == '_'
        || c == '.' || c == '~'
}

/// The uppercase hex digit of `d` (below sixteen).
pub open spec fn hex_upper(d: nat) -> char {
    if d < 10 { ((('0' as u32) + d) as u32) as char } else { ((('A' as u32) + d - 10) as u32) as char }
}

/// Percent-encoding of one ASCII character.
pub open spec fn percent_char(c: char) -> Seq<char> {
    if url_safe(c) {
        seq![c]
    } else {
        seq!['%', hex_upper(((c as u32) / 16) as nat), hex_upper(((c as u32) % 16) as nat)]
    }
}

/// Percent-encoding of ASCII text, character by character.
pub open spec fn percent_ascii(s: Seq<char>) -> Seq<char>
    decreases s.len(),
{
    if s.len() == 0 {
        Seq::empty()
    } else {
        percent_ascii(s.drop_last()) + percent_char(s.last())
    }
}

/// `urlencoding::encode`: the percent-encoded form of `s`, spelled out for
/// ASCII text (for other text each UTF-8 byte is encoded, which is left to
/// the name `url_encoded`).
#[verifier::external_body]
fn url_encode(s: &str) -> (r: String)
    ensures
        r@ == url_encoded(s@),
        all_ascii(s@) ==> r@ == percent_ascii(s@),
{
    urlencoding::encode(s).into_owned()
}

/// The streaming address of a media item: the server, `/api/v1/stream/`,
/// the encoded id, then `?access_token=` and the encoded ticket when there
/// is one.
pub open spec fn stream_address(server: Seq<char>, encoded_id: Seq<char>, encoded_ticket: Option<Seq<char>>) -> Seq<char> {
    let base = server + "/api/v1/stream/"@ + encoded_id;
    match encoded_ticket {
        Some(t) => base + "?access_token="@ + t,
        None => base,
    }
}

/// The streaming address from an already encoded id and ticket.
pub fn join_stream_url(server_url: &str, encoded_id: &str, encoded_ticket: &Option<String>) -> (r: String)
    ensures
        r@ == stream_address(
            server_url@,
            encoded_id@,
            match encoded_ticket {
                Some(t) => Some(t@),
                None => None,
            },
        ),
{
    let with_path = concat(server_url, "/api/v1/stream/");
    let base = concat(with_path.as_str(), encoded_id);
    match encoded_ticket {
        Some(t) => {
            let with_key = concat(base.as_str(), "?access_token=");
            concat(with_key.as_str(), t.as_str())
        },
        None => base,
    }
}

/// The streaming address of `media_id` on `server_url`, with the playback
/// ticket attached when one was obtained; id and ticket are percent-encoded.
pub fn stream_url(server_url: &str, media_id: &str, ticket: &Option<String>) -> (r: String)
    ensures
        r@ == stream_address(
            server_url@,
            url_encoded(media_id@),
            match ticket {
                Some(t) => Some(url_encoded(t@)),
                None => None,
            },
        ),
{
    let encoded_id = url_encode(media_id);
    let encoded_ticket: Option<String> = match ticket {
        Some(t) => Some(url_encode(t.as_str())),
        None => None,
    };
    join_stream_url(server_url, encoded_id.as_str(), &encoded_ticket)
}

/// The state the player starts in and returns to after a reset.
pub open spec fn initial_player() -> PlayerUiState {
    PlayerUiState {
        has_video: false,
        paused: false,
        is_muted: false,
        is_fullscreen: false,
        show_settings: false,
        show_subtitle_menu: false,
        show_quality_menu: false,
        is_shuffle_enabled: false,
        is_repeat_enabled: false,
        controls: false,
        external_mpv_active: false,
        current_media: None,
    }
}

/// Whether handling `ev` in `s` would use the current media item of an open
/// video that has none (the player fails there).
pub open spec fn needs_media(s: PlayerUiState, ev: PlayerEvent) -> bool {
    (ev is Play || ev is Pause || ev is PlayPause) && s.has_video && s.current_media is None
}

/// Where progress comes from while playing: the open video, else the last
/// valid position.
pub open spec fn live_source(s: PlayerUiState) -> PositionSource {
    if s.has_video { PositionSource::Video } else { PositionSource::LastValid }
}

/// The commands that end playback: a progress update for the current item
/// (when there is one), then the reset, then leaving the player.
pub open spec fn leave_commands(s: PlayerUiState, src: PositionSource, leave: PlayerCommand) -> Seq<PlayerCommand> {
    let progress = match s.current_media {
        Some(id) => seq![PlayerCommand::SendProgress(id, src)],
        None => Seq::empty(),
    };
    progress + seq![PlayerCommand::ResetAfterStop, leave]
}

/// The player's state after handling `ev`.
pub open spec fn player_next(s: PlayerUiState, ev: PlayerEvent) -> PlayerUiState {
    match ev {
        PlayerEvent::ResetAfterStop => initial_player(),
        PlayerEvent::Play => if s.has_video { PlayerUiState { paused: false, ..s } } else { s },
        PlayerEvent::Pause => if s.has_video { PlayerUiState { paused: true, ..s } } else { s },
        PlayerEvent::PlayPause => if s.has_video {
            PlayerUiState { paused: !s.paused, controls: true, ..s }
        } else {
            PlayerUiState { controls: true, ..s }
        },
        PlayerEvent::ToggleMute => if s.has_video { PlayerUiState { is_muted: !s.is_muted, ..s } } else { s },
        PlayerEvent::ToggleFullscreen => PlayerUiState { is_fullscreen: !s.is_fullscreen, ..s },
        PlayerEvent::ToggleSettings => PlayerUiState {
            show_settings: !s.show_settings,
            show_subtitle_menu: if !s.show_settings { false } else { s.show_subtitle_menu },
            ..s
        },
        PlayerEvent::ToggleSubtitleMenu => PlayerUiState {
            show_subtitle_menu: !s.show_subtitle_menu,
            show_settings: if !s.show_subtitle_menu { false } else { s.show_settings },
            ..s
        },
        PlayerEvent::ToggleQualityMenu => PlayerUiState {
            show_quality_menu: !s.show_quality_menu,
            show_settings: if !s.show_quality_menu { false } else { s.show_settings },
            show_subtitle_menu: if !s.show_quality_menu { false } else { s.show_subtitle_menu },
            ..s
        },
        PlayerEvent::ToggleShuffle => PlayerUiState { is_shuffle_enabled: !s.is_shuffle_enabled, ..s },
        PlayerEvent::ToggleRepeat => PlayerUiState { is_repeat_enabled: !s.is_repeat_enabled, ..s },
        PlayerEvent::ShowControls => PlayerUiState { controls: true, ..s },
        PlayerEvent::CloseVideo => PlayerUiState { has_video: false, ..s },
        PlayerEvent::SubtitleTrackSelected(_) => PlayerUiState { show_subtitle_menu: false, ..s },
        PlayerEvent::ToggleSubtitles => PlayerUiState { show_subtitle_menu: false, ..s },
        PlayerEvent::ExternalPlaybackEnded(has_handle, fullscreen, _) => if has_handle && s.current_media is Some {
            PlayerUiState { is_fullscreen: fullscreen, external_mpv_active: false, ..s }
        } else {
            s
        },
        _ => s,
    }
}

/// The commands the player issues for `ev` in state `s`, in order.
pub open spec fn player_actions(s: PlayerUiState, ev: PlayerEvent) -> Seq<PlayerCommand> {
    match ev {
        PlayerEvent::NavigateBack => leave_commands(s, live_source(s), PlayerCommand::NavigateBack),
        PlayerEvent::NavigateHome => leave_commands(s, live_source(s), PlayerCommand::NavigateHome),
        PlayerEvent::Stop => leave_commands(s, PositionSource::LastValid, PlayerCommand::NavigateBack),
        PlayerEvent::Play => if s.has_video {
            seq![PlayerCommand::SetPaused(false), PlayerCommand::SendProgress(s.current_media->0, PositionSource::Video)]
        } else {
            Seq::empty()
        },
        PlayerEvent::Pause => if s.has_video {
            seq![PlayerCommand::SetPaused(true), PlayerCommand::SendProgress(s.current_media->0, PositionSource::Video)]
        } else {
            Seq::empty()
        },
        PlayerEvent::PlayPause => if s.has_video {
            seq![PlayerCommand::SetPaused(!s.paused), PlayerCommand::SendProgress(s.current_media->0, PositionSource::Video)]
        } else {
            Seq::empty()
        },
        PlayerEvent::ToggleMute => if s.has_video { seq![PlayerCommand::SetMuted(!s.is_muted)] } else { Seq::empty() },
        PlayerEvent::ToggleFullscreen => seq![PlayerCommand::SetFullscreen(!s.is_fullscreen)],
        PlayerEvent::DisableFullscreen => if s.is_fullscreen {
            seq![PlayerCommand::SetFullscreen(false)]
        } else {
            Seq::empty()
        },
        PlayerEvent::VideoLoaded(ok) => if ok {
            seq![PlayerCommand::QueryTracks, PlayerCommand::ShowPlayer]
        } else {
            seq![PlayerCommand::ShowVideoError(VideoFailure::LoadFailed)]
        },
        PlayerEvent::SetStreamUrl(url) => if url@.len() == 0 {
            seq![PlayerCommand::ShowVideoError(VideoFailure::StreamUrlMissing)]
        } else {
            seq![PlayerCommand::OpenStreamUrl(url)]
        },
        PlayerEvent::NextEpisode(next) => match (s.current_media, next) {
            (Some(MediaId::Episode(cur)), Some(n)) => seq![
                PlayerCommand::SendProgress(MediaId::Episode(cur), live_source(s)),
                PlayerCommand::PlayEpisode(n, s.external_mpv_active),
            ],
            _ => Seq::empty(),
        },
        PlayerEvent::CloseVideo => if s.has_video {
            seq![PlayerCommand::SetPaused(true), PlayerCommand::DropVideo, PlayerCommand::ResetPosition]
        } else {
            seq![PlayerCommand::ResetPosition]
        },
        PlayerEvent::EndOfStream(next) => match (s.current_media, next) {
            (Some(MediaId::Episode(cur)), Some(n)) => seq![
                PlayerCommand::SendProgress(MediaId::Episode(cur), live_source(s)),
                PlayerCommand::PlayEpisode(n, false),
            ],
            _ => leave_commands(s, live_source(s), PlayerCommand::NavigateBack),
        },
        PlayerEvent::PreviousEpisode(past_start, prev) => match s.current_media {
            Some(MediaId::Episode(cur)) => if past_start {
                restart_commands(s)
            } else {
                match prev {
                    Some(p) => seq![
                        PlayerCommand::SendProgress(MediaId::Episode(cur), live_source(s)),
                        PlayerCommand::PlayEpisode(p, s.external_mpv_active),
                    ],
                    None => restart_commands(s),
                }
            },
            _ => Seq::empty(),
        },
        PlayerEvent::SubtitleTrackSelected(i) => seq![PlayerCommand::SelectSubtitleTrack(i)],
        PlayerEvent::ToggleSubtitles => seq![PlayerCommand::ToggleSubtitles],
        PlayerEvent::StreamUrlInvalid(e) => seq![PlayerCommand::ShowInvalidUrl(e)],
        PlayerEvent::ExternalPlaybackEnded(has_handle, fullscreen, next) => match s.current_media {
            Some(id) => if has_handle {
                match (id, next) {
                    (MediaId::Episode(_), Some(n)) => seq![
                        PlayerCommand::CloseExternal,
                        PlayerCommand::SendProgress(id, PositionSource::ExternalFinal),
                        PlayerCommand::PlayEpisode(n, true),
                    ],
                    _ => seq![
                        PlayerCommand::CloseExternal,
                        PlayerCommand::SendProgress(id, PositionSource::ExternalFinal),
                        PlayerCommand::ResetAfterStop,
                        PlayerCommand::NavigateBack,
                        PlayerCommand::RestoreWindow(fullscreen),
                    ],
                }
            } else {
                seq![PlayerCommand::ResetAfterStop, PlayerCommand::NavigateBack]
            },
            None => seq![PlayerCommand::ResetAfterStop, PlayerCommand::NavigateBack],
        },
        _ => Seq::empty(),
    }
}

impl PlayerUiState {
    /// The state the player starts in.
    pub fn new() -> (s: PlayerUiState)
        ensures
            s == initial_player(),
    {
        PlayerUiState {
            has_video: false,
            paused: false,
            is_muted: false,
            is_fullscreen: false,
            show_settings: false,
            show_subtitle_menu: false,
            show_quality_menu: false,
            is_shuffle_enabled: false,
            is_repeat_enabled: false,
            controls: false,
            external_mpv_active: false,
            current_media: None,
        }
    }
}

/// Whether handling `ev` in `s` would use the current media item of an open
/// video that has none; `player_step` is not to be called then.
pub fn needs_media_exec(s: &PlayerUiState, ev: &PlayerEvent) -> (b: bool)
    ensures
        b == needs_media(*s, *ev),
{
    let playback = matches!(ev, PlayerEvent::Play) || matches!(ev, PlayerEvent::Pause) || matches!(ev, PlayerEvent::PlayPause);
    playback && s.has_video && s.current_media.is_none()
}

fn live(s: &PlayerUiState) -> (src: PositionSource)
    ensures
        src == live_source(*s),
{
    if s.has_video { PositionSource::Video } else { PositionSource::LastValid }
}

fn leave(s: &PlayerUiState, src: PositionSource, last: PlayerCommand) -> (r: Vec<PlayerCommand>)
    ensures
        r@ == leave_commands(*s, src, last),
{
    let mut r: Vec<PlayerCommand> = Vec::new();
    match s.current_media {
        Some(id) => r.push(PlayerCommand::SendProgress(id, src)),
        None => {},
    }
    r.push(PlayerCommand::ResetAfterStop);
    r.push(last);
    proof {
        assert(r@ =~= leave_commands(*s, src, last));
    }
    r
}

fn play_step(state: &mut PlayerUiState, ev: PlayerEvent) -> (actions: Vec<PlayerCommand>)
    requires
        ev is Play || ev is Pause || ev is PlayPause,
        !needs_media(*old(state), ev),
    ensures
        *final(state) == player_next(*old(state), ev),
        actions@ == player_actions(*old(state), ev),
{
    let s = *state;
    if matches!(ev, PlayerEvent::PlayPause) {
        state.controls = true;
    }
    if s.has_video {
        let paused = match ev {
            PlayerEvent::Play => false,
            PlayerEvent::Pause => true,
            _ => !s.paused,
        };
        state.paused = paused;
        let id = match s.current_media {
            Some(id) => id,
            None => MediaId::Movie(0),
        };
        let r = vec![PlayerCommand::SetPaused(paused), PlayerCommand::SendProgress(id, PositionSource::Video)];
        proof {
            assert(r@ =~= player_actions(s, ev));
        }
        r
    } else {
        let r: Vec<PlayerCommand> = Vec::new();
        proof {
            assert(r@ =~= player_actions(s, ev));
        }
        r
    }
}

fn toggle_step(state: &mut PlayerUiState, ev: &PlayerEvent)
    requires
        ev is ToggleMute || ev is ToggleFullscreen || ev is ToggleSettings || ev is ToggleSubtitleMenu
            || ev is ToggleQualityMenu || ev is ToggleShuffle || ev is ToggleRepeat || ev is ShowControls
            || ev is ResetAfterStop || ev is CloseVideo || ev is SubtitleTrackSelected || ev is ToggleSubtitles
            || ev is ExternalPlaybackEnded,
    ensures
        *final(state) == player_next(*old(state), *ev),
{
    let s = *state;
    match ev {
        PlayerEvent::ResetAfterStop => {
            *state = PlayerUiState::new();
        },
        PlayerEvent::ToggleMute => {
            if s.has_video {
                state.is_muted = !s.is_muted;
            }
        },
        PlayerEvent::ToggleFullscreen => {
            state.is_fullscreen = !s.is_fullscreen;
        },
        PlayerEvent::ToggleSettings => {
            state.show_settings = !s.show_settings;
            if state.show_settings {
                state.show_subtitle_menu = false;
            }
        },
        PlayerEvent::ToggleSubtitleMenu => {
            state.show_subtitle_menu = !s.show_subtitle_menu;
            if state.show_subtitle_menu {
                state.show_settings = false;
            }
        },
        PlayerEvent::ToggleQualityMenu => {
            state.show_quality_menu = !s.show_quality_menu;
            if state.show_quality_menu {
                state.show_settings = false;
                state.show_subtitle_menu = false;
            }
        },
        PlayerEvent::ToggleShuffle => {
            state.is_shuffle_enabled = !s.is_shuffle_enabled;
        },
        PlayerEvent::ToggleRepeat => {
            state.is_repeat_enabled = !s.is_repeat_enabled;
        },
        PlayerEvent::CloseVideo => {
            state.has_video = false;
        },
        PlayerEvent::SubtitleTrackSelected(_) | PlayerEvent::ToggleSubtitles => {
            state.show_subtitle_menu = false;
        },
        PlayerEvent::ExternalPlaybackEnded(has_handle, fullscreen, _) => {
            if *has_handle && s.current_media.is_some() {
                state.is_fullscreen = *fullscreen;
                state.external_mpv_active = false;
            }
        },
        _ => {
            state.controls = true;
        },
    }
}

fn one(c: PlayerCommand) -> (r: Vec<PlayerCommand>)
    ensures
        r@ == seq![c],
{
    let mut r: Vec<PlayerCommand> = Vec::new();
    r.push(c);
    proof {
        assert(r@ =~= seq![c]);
    }
    r
}

fn two(a: PlayerCommand, b: PlayerCommand) -> (r: Vec<PlayerCommand>)
    ensures
        r@ == seq![a, b],
{
    let mut r: Vec<PlayerCommand> = Vec::new();
    r.push(a);
    r.push(b);
    proof {
        assert(r@ =~= seq![a, b]);
    }
    r
}

fn restart(s: &PlayerUiState) -> (r: Vec<PlayerCommand>)
    ensures
        r@ == restart_commands(*s),
{
    if s.external_mpv_active {
        one(PlayerCommand::SeekExternalToStart)
    } else if s.has_video {
        one(PlayerCommand::SeekToStart)
    } else {
        Vec::new()
    }
}

fn external_ended(s: &PlayerUiState, has_handle: bool, fullscreen: bool, next: Option<u128>) -> (r: Vec<PlayerCommand>)
    ensures
        r@ == player_actions(*s, PlayerEvent::ExternalPlaybackEnded(has_handle, fullscreen, next)),
{
    match s.current_media {
        Some(id) => {
            if has_handle {
                let mut r = two(PlayerCommand::CloseExternal, PlayerCommand::SendProgress(id, PositionSource::ExternalFinal));
                match (id, next) {
                    (MediaId::Episode(_), Some(n)) => {
                        r.push(PlayerCommand::PlayEpisode(n, true));
                    },
                    _ => {
                        r.push(PlayerCommand::ResetAfterStop);
                        r.push(PlayerCommand::NavigateBack);
                        r.push(PlayerCommand::RestoreWindow(fullscreen));
                    },
                }
                proof {
                    assert(r@ =~= player_actions(*s, PlayerEvent::ExternalPlaybackEnded(has_handle, fullscreen, next)));
                }
                r
            } else {
                two(PlayerCommand::ResetAfterStop, PlayerCommand::NavigateBack)
            }
        },
        None => two(PlayerCommand::ResetAfterStop, PlayerCommand::NavigateBack),
    }
}

fn command_step(s: &PlayerUiState, ev: PlayerEvent) -> (actions: Vec<PlayerCommand>)
    requires
        !(ev is Play || ev is Pause || ev is PlayPause),
    ensures
        actions@ == player_actions(*s, ev),
{
    match ev {
        PlayerEvent::NavigateBack => leave(s, live(s), PlayerCommand::NavigateBack),
        PlayerEvent::NavigateHome => leave(s, live(s), PlayerCommand::NavigateHome),
        PlayerEvent::Stop => leave(s, PositionSource::LastValid, PlayerCommand::NavigateBack),
        PlayerEvent::ToggleMute => {
            if s.has_video { one(PlayerCommand::SetMuted(!s.is_muted)) } else { Vec::new() }
        },
        PlayerEvent::ToggleFullscreen => one(PlayerCommand::SetFullscreen(!s.is_fullscreen)),
        PlayerEvent::DisableFullscreen => {
            if s.is_fullscreen { one(PlayerCommand::SetFullscreen(false)) } else { Vec::new() }
        },
        PlayerEvent::VideoLoaded(ok) => {
            if ok {
                two(PlayerCommand::QueryTracks, PlayerCommand::ShowPlayer)
            } else {
                one(PlayerCommand::ShowVideoError(VideoFailure::LoadFailed))
            }
        },
        PlayerEvent::SetStreamUrl(url) => {
            if url.unicode_len() == 0 {
                one(PlayerCommand::ShowVideoError(VideoFailure::StreamUrlMissing))
            } else {
                one(PlayerCommand::OpenStreamUrl(url))
            }
        },
        PlayerEvent::NextEpisode(next) => {
            match (s.current_media, next) {
                (Some(MediaId::Episode(cur)), Some(n)) => two(
                    PlayerCommand::SendProgress(MediaId::Episode(cur), live(s)),
                    PlayerCommand::PlayEpisode(n, s.external_mpv_active),
                ),
                _ => Vec::new(),
            }
        },
        PlayerEvent::EndOfStream(next) => {
            match (s.current_media, next) {
                (Some(MediaId::Episode(cur)), Some(n)) => two(
                    PlayerCommand::SendProgress(MediaId::Episode(cur), live(s)),
                    PlayerCommand::PlayEpisode(n, false),
                ),
                _ => leave(s, live(s), PlayerCommand::NavigateBack),
            }
        },
        PlayerEvent::PreviousEpisode(past_start, prev) => {
            match s.current_media {
                Some(MediaId::Episode(cur)) => {
                    if past_start {
                        restart(s)
                    } else {
                        match prev {
                            Some(p) => two(
                                PlayerCommand::SendProgress(MediaId::Episode(cur), live(s)),
                                PlayerCommand::PlayEpisode(p, s.external_mpv_active),
                            ),
                            None => restart(s),
                        }
                    }
                },
                _ => Vec::new(),
            }
        },
        PlayerEvent::SubtitleTrackSelected(i) => one(PlayerCommand::SelectSubtitleTrack(i)),
        PlayerEvent::ToggleSubtitles => one(PlayerCommand::ToggleSubtitles),
        PlayerEvent::StreamUrlInvalid(e) => one(PlayerCommand::ShowInvalidUrl(e)),
        PlayerEvent::ExternalPlaybackEnded(has_handle, fullscreen, next) => external_ended(s, has_handle, fullscreen, next),
        PlayerEvent::CloseVideo => {
            if s.has_video {
                let mut r = two(PlayerCommand::SetPaused(true), PlayerCommand::DropVideo);
                r.push(PlayerCommand::ResetPosition);
                proof {
                    assert(r@ =~= player_actions(*s, ev));
                }
                r
            } else {
                one(PlayerCommand::ResetPosition)
            }
        },
        _ => Vec::new(),
    }
}

/// Handle one player message: update the state and return the commands for
/// the caller, in the order they are to be carried out.
pub fn player_step(state: &mut PlayerUiState, ev: PlayerEvent) -> (actions: Vec<PlayerCommand>)
    requires
        !needs_media(*old(state), ev),
    ensures
        *final(state) == player_next(*old(state), ev),
        actions@ == player_actions(*old(state), ev),
{
    let s = *state;
    if matches!(ev, PlayerEvent::Play) || matches!(ev, PlayerEvent::Pause) || matches!(ev, PlayerEvent::PlayPause) {
        return play_step(state, ev);
    }
    let toggles = matches!(ev, PlayerEvent::ToggleMute) || matches!(ev, PlayerEvent::ToggleFullscreen)
        || matches!(ev, PlayerEvent::ToggleSettings) || matches!(ev, PlayerEvent::ToggleSubtitleMenu)
        || matches!(ev, PlayerEvent::ToggleQualityMenu) || matches!(ev, PlayerEvent::ToggleShuffle)
        || matches!(ev, PlayerEvent::ToggleRepeat) || matches!(ev, PlayerEvent::ShowControls)
        || matches!(ev, PlayerEvent::ResetAfterStop) || matches!(ev, PlayerEvent::CloseVideo)
        || matches!(ev, PlayerEvent::SubtitleTrackSelected(_)) || matches!(ev, PlayerEvent::ToggleSubtitles)
        || matches!(ev, PlayerEvent::ExternalPlaybackEnded(_, _, _));
    if toggles {
        toggle_step(state, &ev);
    }
    command_step(&s, ev)
}

/// The settings panel and the subtitle menu are never open together: no
/// message opens one while the other stays open.
pub proof fn lemma_menus_exclusive(s: PlayerUiState, ev: PlayerEvent)
    requires
        !(s.show_settings && s.show_subtitle_menu),
    ensures
        !(player_next(s, ev).show_settings && player_next(s, ev).show_subtitle_menu),
{
}

/// A stop always sends the progress update of the current item first (with
/// the last valid position), then resets the player, then leaves it; and the
/// state is left for the reset.
pub proof fn lemma_stop_sequence(s: PlayerUiState, id: MediaId)
    requires
        s.current_media == Some(id),
    ensures
        player_actions(s, PlayerEvent::Stop) == seq![
            PlayerCommand::SendProgress(id, PositionSource::LastValid),
            PlayerCommand::ResetAfterStop,
            PlayerCommand::NavigateBack,
        ],
        player_next(s, PlayerEvent::Stop) == s,
        player_next(player_next(s, PlayerEvent::Stop), PlayerEvent::ResetAfterStop) == initial_player(),
{
    assert(player_actions(s, PlayerEvent::Stop) =~= seq![
        PlayerCommand::SendProgress(id, PositionSource::LastValid),
        PlayerCommand::ResetAfterStop,
        PlayerCommand::NavigateBack,
    ]);
}

} // verus!
