//! Keyboard shortcuts of the player and the command line of the external
//! mpv player.
use vstd::prelude::*;
use crate::text::{str_eq, owned, concat, decimal_i32, decimal_u32, u32_to_string};

verus! {

/// A key the player reacts to (others are `Other`).
#[derive(Debug, Clone)]
pub enum PlayerKey {
    Space,
    ArrowLeft,
    ArrowRight,
    ArrowUp,
    ArrowDown,
    Escape,
    F11,
    /// A key that types text.
    Character(String),
    Other,
}

/// What a shortcut asks the player to do.
#[derive(Debug, Clone, Copy, PartialEq, Eq, Structural)]
pub enum PlayerAction {
    PlayPause,
    SeekBackwardFine,
    SeekBackwardCoarse,
    SeekForwardFine,
    SeekForwardCoarse,
    VolumeUp,
    VolumeDown,
    ToggleFullscreen,
    ToggleMute,
    ToggleSubtitleMenu,
    CycleSubtitleSimple,
    CycleAudioTrack,
}

/// Whether the typed text is one of two letters.
pub open spec fn is_letter(text: Seq<char>, lower: Seq<char>, upper: Seq<char>) -> bool {
    text == lower || text == upper
}

/// The action a key press maps to, if any: space plays or pauses; left and
/// right seek (finely with shift); up and down change the volume; F or F11
/// toggle fullscreen; M mutes; S cycles subtitles (opens their menu with
/// shift); A cycles audio tracks.
pub open spec fn key_action(key: PlayerKey, shift: bool) -> Option<PlayerAction> {
    match key {
        PlayerKey::Space => Some(PlayerAction::PlayPause),
        PlayerKey::ArrowLeft => Some(if shift { PlayerAction::SeekBackwardFine } else { PlayerAction::SeekBackwardCoarse }),
        PlayerKey::ArrowRight => Some(if shift { PlayerAction::SeekForwardFine } else { PlayerAction::SeekForwardCoarse }),
        PlayerKey::ArrowUp => Some(PlayerAction::VolumeUp),
        PlayerKey::ArrowDown => Some(PlayerAction::VolumeDown),
        PlayerKey::Escape => None,
        PlayerKey::F11 => Some(PlayerAction::ToggleFullscreen),
        PlayerKey::Character(c) => {
            if is_letter(c@, "f"@, "F"@) {
                Some(PlayerAction::ToggleFullscreen)
            } else if is_letter(c@, "m"@, "M"@) {
                Some(PlayerAction::ToggleMute)
            } else if is_letter(c@, "s"@, "S"@) {
                Some(if shift { PlayerAction::ToggleSubtitleMenu } else { PlayerAction::CycleSubtitleSimple })
            } else if is_letter(c@, "a"@, "A"@) {
                Some(PlayerAction::CycleAudioTrack)
            } else {
                None
            }
        },
        PlayerKey::Other => None,
    }
}

/// Map a key press (with whether shift is held) to a player action.
pub fn handle_player_key_press(key: &PlayerKey, shift: bool) -> (a: Option<PlayerAction>)
    ensures
        a == key_action(*key, shift),
{
    match key {
        PlayerKey::Space => Some(PlayerAction::PlayPause),
        PlayerKey::ArrowLeft => Some(if shift { PlayerAction::SeekBackwardFine } else { PlayerAction::SeekBackwardCoarse }),
        PlayerKey::ArrowRight => Some(if shift { PlayerAction::SeekForwardFine } else { PlayerAction::SeekForwardCoarse }),
        PlayerKey::ArrowUp => Some(PlayerAction::VolumeUp),
        PlayerKey::ArrowDown => Some(PlayerAction::VolumeDown),
        PlayerKey::Escape => None,
        PlayerKey::F11 => Some(PlayerAction::ToggleFullscreen),
        PlayerKey::Character(c) => {
            let t = c.as_str();
            if str_eq(t, "f") || str_eq(t, "F") {
                Some(PlayerAction::ToggleFullscreen)
            } else if str_eq(t, "m") || str_eq(t, "M") {
                Some(PlayerAction::ToggleMute)
            } else if str_eq(t, "s") || str_eq(t, "S") {
                Some(if shift { PlayerAction::ToggleSubtitleMenu } else { PlayerAction::CycleSubtitleSimple })
            } else if str_eq(t, "a") || str_eq(t, "A") {
                Some(PlayerAction::CycleAudioTrack)
            } else {
                None
            }
        },
        PlayerKey::Other => None,
    }
}

/// Shortcuts are live only in the player view, with an internal video
/// playing (not the external player), and while search is closed.
pub fn shortcuts_active(search_open: bool, in_player_view: bool, video_loaded: bool, external_active: bool) -> (b: bool)
    ensures
        b == (!search_open && in_player_view && video_loaded && !external_active),
{
    !search_open && in_player_view && video_loaded && !external_active
}


/// The window geometry argument, when a size is given: `WxH`, with `+X+Y`
/// when a position is given too.
pub open spec fn geometry(size: Option<(u32, u32)>, pos: Option<(i32, i32)>) -> Option<Seq<char>> {
    match (size, pos) {
        (Some((w, h)), Some((x, y))) => Some("--geometry="@ + decimal_u32(w) + "x"@ + decimal_u32(h) + "+"@
            + decimal_i32(x) + "+"@ + decimal_i32(y)),
        (Some((w, h)), None) => Some("--geometry="@ + decimal_u32(w) + "x"@ + decimal_u32(h)),
        _ => None,
    }
}

/// The external player's command-line arguments: IPC socket and no user
/// config; fullscreen, or windowed with the geometry when known; OSD and
/// on-screen controller; playback flags; the start position when resuming
/// (`start`, already written as text); HDR-friendly output; the log file
/// when there is one; then the URL.
pub open spec fn mpv_arg_list(
    socket: Seq<char>,
    fullscreen: bool,
    size: Option<(u32, u32)>,
    pos: Option<(i32, i32)>,
    start: Option<Seq<char>>,
    log_file: Option<Seq<char>>,
    url: Seq<char>,
) -> Seq<Seq<char>> {
    let ipc = seq!["--input-ipc-server="@ + socket, "--no-config"@];
    let window = if fullscreen {
        seq!["--fs=yes"@]
    } else {
        match geometry(size, pos) {
            Some(g) => seq!["--fs=no"@, g],
            None => seq!["--fs=no"@],
        }
    };
    let osd = seq!["--osd-level=1"@, "--osd-bar=yes"@, "--osd-duration=2000"@, "--osc=yes"@];
    let playback = seq!["--keep-open=no"@, "--idle=no"@, "--pause=no"@];
    let resume = match start {
        Some(s) => seq!["--start="@ + s],
        None => Seq::empty(),
    };
    let hdr = seq!["--hwdec=auto-safe"@, "--vo=gpu-next"@, "--target-colorspace-hint"@, "--hdr-compute-peak=yes"@];
    let log = match log_file {
        Some(p) => seq!["--log-file="@ + p, "--msg-level=all=info"@],
        None => Seq::empty(),
    };
    ipc + window + osd + playback + resume + hdr + log + seq![url]
}

/// The views of a list of strings.
pub open spec fn strings_view(v: Seq<String>) -> Seq<Seq<char>> {
    v.map_values(|s: String| s@)
}

fn push_str(args: &mut Vec<String>, s: &str)
    ensures
        strings_view(final(args)@) == strings_view(old(args)@).push(s@),
{
    args.push(owned(s));
    proof {
        assert(strings_view(args@) =~= strings_view(old(args)@).push(s@));
    }
}

fn push_string(args: &mut Vec<String>, s: String)
    ensures
        strings_view(final(args)@) == strings_view(old(args)@).push(s@),
{
    let ghost v = s@;
    args.push(s);
    proof {
        assert(strings_view(args@) =~= strings_view(old(args)@).push(v));
    }
}

/// Build the external player's arguments (see `mpv_arg_list`).
pub fn mpv_args(
    socket_path: &str,
    is_fullscreen: bool,
    window_size: Option<(u32, u32)>,
    window_position: Option<(i32, i32)>,
    start: Option<&str>,
    log_file: Option<&str>,
    url: &str,
) -> (args: Vec<String>)
    ensures
        strings_view(args@) == mpv_arg_list(
            socket_path@,
            is_fullscreen,
            window_size,
            window_position,
            match start { Some(s) => Some(s@), None => None },
            match log_file { Some(p) => Some(p@), None => None },
            url@,
        ),
{
    let mut args: Vec<String> = Vec::new();
    push_string(&mut args, concat("--input-ipc-server=", socket_path));
    push_str(&mut args, "--no-config");
    if is_fullscreen {
        push_str(&mut args, "--fs=yes");
    } else {
        push_str(&mut args, "--fs=no");
        match (window_size, window_position) {
            (Some((w, h)), Some((x, y))) => {
                let mut g = concat("--geometry=", u32_to_string(w).as_str());
                g = concat(g.as_str(), "x");
                g = concat(g.as_str(), u32_to_string(h).as_str());
                g = concat(g.as_str(), "+");
                g = concat(g.as_str(), crate::text::i32_to_string(x).as_str());
                g = concat(g.as_str(), "+");
                g = concat(g.as_str(), crate::text::i32_to_string(y).as_str());
                push_string(&mut args, g);
            },
            (Some((w, h)), None) => {
                let mut g = concat("--geometry=", u32_to_string(w).as_str());
                g = concat(g.as_str(), "x");
                g = concat(g.as_str(), u32_to_string(h).as_str());
                push_string(&mut args, g);
            },
            _ => {},
        }
    }
    push_str(&mut args, "--osd-level=1");
    push_str(&mut args, "--osd-bar=yes");
    push_str(&mut args, "--osd-duration=2000");
    push_str(&mut args, "--osc=yes");
    push_str(&mut args, "--keep-open=no");
    push_str(&mut args, "--idle=no");
    push_str(&mut args, "--pause=no");
    match start {
        Some(s) => {
            push_string(&mut args, concat("--start=", s));
        },
        None => {},
    }
    push_str(&mut args, "--hwdec=auto-safe");
    push_str(&mut args, "--vo=gpu-next");
    push_str(&mut args, "--target-colorspace-hint");
    push_str(&mut args, "--hdr-compute-peak=yes");
    match log_file {
        Some(p) => {
            push_string(&mut args, concat("--log-file=", p));
            push_str(&mut args, "--msg-level=all=info");
        },
        None => {},
    }
    push_str(&mut args, url);
    proof {
        let expected = mpv_arg_list(
            socket_path@,
            is_fullscreen,
            window_size,
            window_position,
            match start { Some(s) => Some(s@), None => None },
            match log_file { Some(p) => Some(p@), None => None },
            url@,
        );
        assert(strings_view(args@) =~= expected);
    }
    args
}

/// The arrow keys act in opposite pairs, with or without shift: up raises
/// the volume and down lowers it; left seeks backward and right forward,
/// in fine steps with shift and coarse ones without.
pub proof fn lemma_arrow_keys(shift: bool)
    ensures
        key_action(PlayerKey::ArrowUp, shift) == Some(PlayerAction::VolumeUp),
        key_action(PlayerKey::ArrowDown, shift) == Some(PlayerAction::VolumeDown),
        key_action(PlayerKey::ArrowLeft, shift) == Some(
            if shift { PlayerAction::SeekBackwardFine } else { PlayerAction::SeekBackwardCoarse },
        ),
        key_action(PlayerKey::ArrowRight, shift) == Some(
            if shift { PlayerAction::SeekForwardFine } else { PlayerAction::SeekForwardCoarse },
        ),
        key_action(PlayerKey::Space, shift) == Some(PlayerAction::PlayPause),
        key_action(PlayerKey::F11, shift) == Some(PlayerAction::ToggleFullscreen),
        key_action(PlayerKey::Escape, shift) is None,
        key_action(PlayerKey::Other, shift) is None,
{
}

/// Letter shortcuts ignore case: F toggles fullscreen as F11 does, M
/// toggles mute, A cycles the audio track, S cycles the subtitles (or opens
/// their menu with shift); any other text does nothing.
pub proof fn lemma_letter_keys(c: String, shift: bool)
    ensures
        (c@ == "f"@ || c@ == "F"@) ==> key_action(PlayerKey::Character(c), shift) == key_action(PlayerKey::F11, shift),
        (c@ == "m"@ || c@ == "M"@) ==> key_action(PlayerKey::Character(c), shift) == Some(PlayerAction::ToggleMute),
        (c@ == "a"@ || c@ == "A"@) ==> key_action(PlayerKey::Character(c), shift) == Some(PlayerAction::CycleAudioTrack),
        (c@ == "s"@ || c@ == "S"@) ==> key_action(PlayerKey::Character(c), shift) == Some(
            if shift { PlayerAction::ToggleSubtitleMenu } else { PlayerAction::CycleSubtitleSimple },
        ),
        !(c@ == "f"@ || c@ == "F"@ || c@ == "m"@ || c@ == "M"@ || c@ == "a"@ || c@ == "A"@ || c@ == "s"@
            || c@ == "S"@) ==> key_action(PlayerKey::Character(c), shift) is None,
{
    reveal_strlit("f");
    assert("f"@.len() == 1 && "f"@[0] == 'f');
    reveal_strlit("F");
    assert("F"@.len() == 1 && "F"@[0] == 'F');
    reveal_strlit("m");
    assert("m"@.len() == 1 && "m"@[0] == 'm');
    reveal_strlit("M");
    assert("M"@.len() == 1 && "M"@[0] == 'M');
    reveal_strlit("s");
    assert("s"@.len() == 1 && "s"@[0] == 's');
    reveal_strlit("S");
    assert("S"@.len() == 1 && "S"@[0] == 'S');
    reveal_strlit("a");
    assert("a"@.len() == 1 && "a"@[0] == 'a');
    reveal_strlit("A");
    assert("A"@.len() == 1 && "A"@[0] == 'A');
}

/// The external player is started on the given IPC socket without user
/// configuration, in fullscreen (`--fs=yes`) or windowed (`--fs=no`, then
/// the window geometry when a size is known), and is handed the URL last;
/// a resume position adds exactly one argument.
pub proof fn lemma_mpv_arg_shape(
    socket: Seq<char>,
    fullscreen: bool,
    size: Option<(u32, u32)>,
    pos: Option<(i32, i32)>,
    start: Option<Seq<char>>,
    log_file: Option<Seq<char>>,
    url: Seq<char>,
)
    ensures
        ({
            let args = mpv_arg_list(socket, fullscreen, size, pos, start, log_file, url);
            &&& args[0] == "--input-ipc-server="@ + socket
            &&& args[1] == "--no-config"@
            &&& args[2] == (if fullscreen { "--fs=yes"@ } else { "--fs=no"@ })
            &&& (!fullscreen && size is Some ==> args[3] == geometry(size, pos)->0 && geometry(size, pos) is Some)
            &&& args.last() == url
            &&& args.len() == mpv_arg_list(socket, fullscreen, size, pos, None, log_file, url).len()
                + (if start is Some { 1int } else { 0int })
            &&& (start matches Some(t) ==> args.contains("--start="@ + t))
        }),
{
    let args = mpv_arg_list(socket, fullscreen, size, pos, start, log_file, url);
    match start {
        Some(t) => {
            let ipc = seq!["--input-ipc-server="@ + socket, "--no-config"@];
            let window = if fullscreen {
                seq!["--fs=yes"@]
            } else {
                match geometry(size, pos) {
                    Some(g) => seq!["--fs=no"@, g],
                    None => seq!["--fs=no"@],
                }
            };
            let n: int = (ipc.len() + window.len() + 7) as int;
            assert(args[n] == "--start="@ + t);
        },
        None => {},
    }
}

} // verus!
