//! Audio and subtitle track labelling and the player's track-selection state.
use vstd::prelude::*;
use vstd::string::StringExecFns;
use crate::text::{
    seq_contains, str_contains, str_eq, lowercase, to_lower, decimal_i32, i32_to_string, owned, concat,
};

verus! {

/// An audio stream of the playing media.
#[derive(Debug, Clone)]
pub struct AudioTrack {
    pub index: i32,
    pub language: Option<String>,
    pub title: Option<String>,
    pub codec: Option<String>,
    pub channels: Option<i32>,
}

/// A subtitle stream of the playing media.
#[derive(Debug, Clone)]
pub struct SubtitleTrack {
    pub index: i32,
    pub language: Option<String>,
    pub title: Option<String>,
    pub codec: Option<String>,
}

/// Display name of a lowercase language code (ISO 639-1 or 639-2), if known.
pub open spec fn language_name(lc: Seq<char>) -> Option<Seq<char>> {
    if lc == "en"@ || lc == "eng"@ { Some("English"@) }
    else if lc == "es"@ || lc == "spa"@ { Some("Spanish"@) }
    else if lc == "fr"@ || lc == "fra"@ { Some("French"@) }
    else if lc == "de"@ || lc == "deu"@ || lc == "ger"@ { Some("German"@) }
    else if lc == "it"@ || lc == "ita"@ { Some("Italian"@) }
    else if lc == "pt"@ || lc == "por"@ { Some("Portuguese"@) }
    else if lc == "ru"@ || lc == "rus"@ { Some("Russian"@) }
    else if lc == "ja"@ || lc == "jpn"@ { Some("Japanese"@) }
    else if lc == "zh"@ || lc == "chi"@ || lc == "zho"@ { Some("Chinese"@) }
    else if lc == "ko"@ || lc == "kor"@ { Some("Korean"@) }
    else if lc == "ar"@ || lc == "ara"@ { Some("Arabic"@) }
    else if lc == "hi"@ || lc == "hin"@ { Some("Hindi"@) }
    else if lc == "nl"@ || lc == "nld"@ || lc == "dut"@ { Some("Dutch"@) }
    else if lc == "sv"@ || lc == "swe"@ { Some("Swedish"@) }
    else if lc == "no"@ || lc == "nor"@ { Some("Norwegian"@) }
    else if lc == "da"@ || lc == "dan"@ { Some("Danish"@) }
    else if lc == "fi"@ || lc == "fin"@ { Some("Finnish"@) }
    else if lc == "pl"@ || lc == "pol"@ { Some("Polish"@) }
    else if lc == "tr"@ || lc == "tur"@ { Some("Turkish"@) }
    else if lc == "el"@ || lc == "ell"@ || lc == "gre"@ { Some("Greek"@) }
    else if lc == "he"@ || lc == "heb"@ { Some("Hebrew"@) }
    else { None }
}

/// Human-readable label of a language code: its name when known, else the code as given.
pub open spec fn language_label(code: Seq<char>) -> Seq<char> {
    match language_name(lowercase(code)) {
        Some(n) => n,
        None => code,
    }
}

/// Short name of an audio codec from its lowercase identifier, if recognised.
/// The checks run in this order, so an identifier containing "ac3" reads as AC3.
pub open spec fn audio_codec_name(lc: Seq<char>) -> Option<Seq<char>> {
    if seq_contains(lc, "aac"@) { Some("AAC"@) }
    else if seq_contains(lc, "ac3"@) || seq_contains(lc, "ac-3"@) { Some("AC3"@) }
    else if seq_contains(lc, "eac3"@) || seq_contains(lc, "eac-3"@) { Some("E-AC3"@) }
    else if seq_contains(lc, "dts"@) { Some("DTS"@) }
    else if seq_contains(lc, "truehd"@) { Some("TrueHD"@) }
    else if seq_contains(lc, "mp3"@) { Some("MP3"@) }
    else if seq_contains(lc, "opus"@) { Some("Opus"@) }
    else if seq_contains(lc, "vorbis"@) { Some("Vorbis"@) }
    else if seq_contains(lc, "flac"@) { Some("FLAC"@) }
    else if seq_contains(lc, "pcm"@) { Some("PCM"@) }
    else { None }
}

pub open spec fn audio_codec_label(codec: Seq<char>) -> Seq<char> {
    match audio_codec_name(lowercase(codec)) {
        Some(n) => n,
        None => codec,
    }
}

/// Short name of a subtitle codec from its lowercase identifier, if recognised.
pub open spec fn subtitle_codec_name(lc: Seq<char>) -> Option<Seq<char>> {
    if seq_contains(lc, "srt"@) { Some("SRT"@) }
    else if seq_contains(lc, "webvtt"@) || seq_contains(lc, "vtt"@) { Some("WebVTT"@) }
    else if seq_contains(lc, "ass"@) || seq_contains(lc, "ssa"@) { Some("ASS/SSA"@) }
    else if seq_contains(lc, "pgs"@) { Some("PGS"@) }
    else if seq_contains(lc, "dvb"@) { Some("DVB"@) }
    else if seq_contains(lc, "dvd"@) { Some("DVD"@) }
    else { None }
}

pub open spec fn subtitle_codec_label(codec: Seq<char>) -> Seq<char> {
    match subtitle_codec_name(lowercase(codec)) {
        Some(n) => n,
        None => codec,
    }
}

/// Label of a channel count.
pub open spec fn channels_label(ch: i32) -> Seq<char> {
    if ch == 1 { "Mono"@ }
    else if ch == 2 { "Stereo"@ }
    else if ch == 6 { "5.1"@ }
    else if ch == 8 { "7.1"@ }
    else { decimal_i32(ch) + " ch"@ }
}

/// "Track n" for a zero-based track index (the number wraps past `i32::MAX`).
pub open spec fn track_number_label(index: i32) -> Seq<char> {
    "Track "@ + decimal_i32(vstd::wrapping::i32_specs::wrapping_add(index, 1))
}

/// The name part of a track label: language, else title, else track number.
pub open spec fn track_name(index: i32, language: Option<String>, title: Option<String>) -> Seq<char> {
    match language {
        Some(l) => language_label(l@),
        None => match title {
            Some(t) => t@,
            None => track_number_label(index),
        },
    }
}

/// The details shown in parentheses after an audio track's name.
pub open spec fn audio_details(t: AudioTrack) -> Seq<Seq<char>> {
    let c: Seq<Seq<char>> = match t.codec { Some(c) => seq![audio_codec_label(c@)], None => Seq::empty() };
    let h: Seq<Seq<char>> = match t.channels { Some(ch) => seq![channels_label(ch)], None => Seq::empty() };
    c + h
}

/// The words of `ds` separated by single spaces.
pub open spec fn join_words(ds: Seq<Seq<char>>) -> Seq<char>
    decreases ds.len(),
{
    if ds.len() == 0 {
        Seq::empty()
    } else if ds.len() == 1 {
        ds[0]
    } else {
        join_words(ds.drop_last()) + " "@ + ds.last()
    }
}

/// Display label of an audio track, e.g. "English (AC3 5.1)".
pub open spec fn audio_track_label(t: AudioTrack) -> Seq<char> {
    let name = track_name(t.index, t.language, t.title);
    let d = audio_details(t);
    if d.len() == 0 { name } else { name + " ("@ + join_words(d) + ")"@ }
}

/// Display label of a subtitle track, e.g. "French (SRT)".
pub open spec fn subtitle_track_label(t: SubtitleTrack) -> Seq<char> {
    let name = track_name(t.index, t.language, t.title);
    match t.codec {
        Some(c) => name + " ("@ + subtitle_codec_label(c@) + ")"@,
        None => name,
    }
}

/// Convert a language code to a human-readable name.
pub fn format_language_code(code: &str) -> (r: String)
    ensures
        r@ == language_label(code@),
{
    let lc = to_lower(code);
    let l = lc.as_str();
    let name: Option<&str> =
        if str_eq(l, "en") || str_eq(l, "eng") { Some("English") }
        else if str_eq(l, "es") || str_eq(l, "spa") { Some("Spanish") }
        else if str_eq(l, "fr") || str_eq(l, "fra") { Some("French") }
        else if str_eq(l, "de") || str_eq(l, "deu") || str_eq(l, "ger") { Some("German") }
        else if str_eq(l, "it") || str_eq(l, "ita") { Some("Italian") }
        else if str_eq(l, "pt") || str_eq(l, "por") { Some("Portuguese") }
        else if str_eq(l, "ru") || str_eq(l, "rus") { Some("Russian") }
        else if str_eq(l, "ja") || str_eq(l, "jpn") { Some("Japanese") }
        else if str_eq(l, "zh") || str_eq(l, "chi") || str_eq(l, "zho") { Some("Chinese") }
        else if str_eq(l, "ko") || str_eq(l, "kor") { Some("Korean") }
        else if str_eq(l, "ar") || str_eq(l, "ara") { Some("Arabic") }
        else if str_eq(l, "hi") || str_eq(l, "hin") { Some("Hindi") }
        else if str_eq(l, "nl") || str_eq(l, "nld") || str_eq(l, "dut") { Some("Dutch") }
        else if str_eq(l, "sv") || str_eq(l, "swe") { Some("Swedish") }
        else if str_eq(l, "no") || str_eq(l, "nor") { Some("Norwegian") }
        else if str_eq(l, "da") || str_eq(l, "dan") { Some("Danish") }
        else if str_eq(l, "fi") || str_eq(l, "fin") { Some("Finnish") }
        else if str_eq(l, "pl") || str_eq(l, "pol") { Some("Polish") }
        else if str_eq(l, "tr") || str_eq(l, "tur") { Some("Turkish") }
        else if str_eq(l, "el") || str_eq(l, "ell") || str_eq(l, "gre") { Some("Greek") }
        else if str_eq(l, "he") || str_eq(l, "heb") { Some("Hebrew") }
        else { None };
    match name {
        Some(n) => owned(n),
        None => owned(code),
    }
}

/// Format an audio codec name.
pub fn format_audio_codec(codec: &str) -> (r: String)
    ensures
        r@ == audio_codec_label(codec@),
{
    let lc = to_lower(codec);
    let l = lc.as_str();
    let name: Option<&str> =
        if str_contains(l, "aac") { Some("AAC") }
        else if str_contains(l, "ac3") || str_contains(l, "ac-3") { Some("AC3") }
        else if str_contains(l, "eac3") || str_contains(l, "eac-3") { Some("E-AC3") }
        else if str_contains(l, "dts") { Some("DTS") }
        else if str_contains(l, "truehd") { Some("TrueHD") }
        else if str_contains(l, "mp3") { Some("MP3") }
        else if str_contains(l, "opus") { Some("Opus") }
        else if str_contains(l, "vorbis") { Some("Vorbis") }
        else if str_contains(l, "flac") { Some("FLAC") }
        else if str_contains(l, "pcm") { Some("PCM") }
        else { None };
    match name {
        Some(n) => owned(n),
        None => owned(codec),
    }
}

/// Format a subtitle codec name.
pub fn format_subtitle_codec(codec: &str) -> (r: String)
    ensures
        r@ == subtitle_codec_label(codec@),
{
    let lc = to_lower(codec);
    let l = lc.as_str();
    let name: Option<&str> =
        if str_contains(l, "srt") { Some("SRT") }
        else if str_contains(l, "webvtt") || str_contains(l, "vtt") { Some("WebVTT") }
        else if str_contains(l, "ass") || str_contains(l, "ssa") { Some("ASS/SSA") }
        else if str_contains(l, "pgs") { Some("PGS") }
        else if str_contains(l, "dvb") { Some("DVB") }
        else if str_contains(l, "dvd") { Some("DVD") }
        else { None };
    match name {
        Some(n) => owned(n),
        None => owned(codec),
    }
}

/// Format a channel configuration.
pub fn format_channels(channels: i32) -> (r: String)
    ensures
        r@ == channels_label(channels),
{
    if channels == 1 {
        owned("Mono")
    } else if channels == 2 {
        owned("Stereo")
    } else if channels == 6 {
        owned("5.1")
    } else if channels == 8 {
        owned("7.1")
    } else {
        let mut s = i32_to_string(channels);
        s.append(" ch");
        s
    }
}

/// "Track n" for a zero-based index.
pub fn format_track_number(index: i32) -> (r: String)
    ensures
        r@ == track_number_label(index),
{
    let n = i32_to_string(index.wrapping_add(1));
    concat("Track ", n.as_str())
}

fn format_track_name(index: i32, language: &Option<String>, title: &Option<String>) -> (r: String)
    ensures
        r@ == track_name(index, *language, *title),
{
    match language {
        Some(l) => format_language_code(l.as_str()),
        None => match title {
            Some(t) => owned(t.as_str()),
            None => format_track_number(index),
        },
    }
}

/// Format an audio track for display.
pub fn format_audio_track(track: &AudioTrack) -> (r: String)
    ensures
        r@ == audio_track_label(*track),
{
    let mut name = format_track_name(track.index, &track.language, &track.title);
    let codec: Option<String> = match &track.codec {
        Some(c) => Some(format_audio_codec(c.as_str())),
        None => None,
    };
    let channels: Option<String> = match track.channels {
        Some(ch) => Some(format_channels(ch)),
        None => None,
    };
    let ghost d = audio_details(*track);
    match (codec, channels) {
        (None, None) => {
            assert(d.len() == 0);
        },
        (Some(c), None) => {
            assert(d =~= seq![c@]);
            assert(join_words(d) == c@);
            name.append(" (");
            name.append(c.as_str());
            name.append(")");
        },
        (None, Some(h)) => {
            assert(d =~= seq![h@]);
            assert(join_words(d) == h@);
            name.append(" (");
            name.append(h.as_str());
            name.append(")");
        },
        (Some(c), Some(h)) => {
            assert(d =~= seq![c@, h@]);
            assert(d.drop_last() =~= seq![c@]);
            assert(join_words(d.drop_last()) == c@);
            assert(d.last() == h@);
            assert(join_words(d) == c@ + " "@ + h@);
            name.append(" (");
            name.append(c.as_str());
            name.append(" ");
            name.append(h.as_str());
            name.append(")");
        },
    }
    name
}

/// Format a subtitle track for display.
pub fn format_subtitle_track(track: &SubtitleTrack) -> (r: String)
    ensures
        r@ == subtitle_track_label(*track),
{
    let mut name = format_track_name(track.index, &track.language, &track.title);
    match &track.codec {
        Some(c) => {
            let label = format_subtitle_codec(c.as_str());
            name.append(" (");
            name.append(label.as_str());
            name.append(")");
        },
        None => {},
    }
    name
}


/// What the video backend reports about its tracks.
#[derive(Debug, Clone)]
pub struct TrackReport {
    pub audio_tracks: Vec<AudioTrack>,
    pub current_audio_track: i32,
    pub subtitle_tracks: Vec<SubtitleTrack>,
    pub current_subtitle_track: Option<i32>,
    pub subtitles_enabled: bool,
}

/// The player's track-selection state. The video itself is driven by the
/// caller: each operation takes what the video reported or answered and says
/// what the caller applies to it.
#[derive(Debug, Clone)]
pub struct PlayerDomainState {
    pub available_audio_tracks: Vec<AudioTrack>,
    pub current_audio_track: i32,
    pub available_subtitle_tracks: Vec<SubtitleTrack>,
    pub current_subtitle_track: Option<i32>,
    pub subtitles_enabled: bool,
    pub last_subtitle_track: Option<i32>,
    /// The last track notification shown to the user.
    pub track_notification: Option<String>,
}

/// Label of the audio track at `index` of `tracks`, or "Track n" when there is none.
pub open spec fn audio_label_at(tracks: Seq<AudioTrack>, index: i32) -> Seq<char> {
    if 0 <= index < tracks.len() { audio_track_label(tracks[index as int]) } else { track_number_label(index) }
}

/// Label of the subtitle track at `index` of `tracks`, or "Track n" when there is none.
pub open spec fn subtitle_label_at(tracks: Seq<SubtitleTrack>, index: i32) -> Seq<char> {
    if 0 <= index < tracks.len() { subtitle_track_label(tracks[index as int]) } else { track_number_label(index) }
}

/// The next audio track index after `current` among `len` tracks (wrapping to 0).
pub open spec fn next_audio_index(current: i32, len: nat) -> i32 {
    if current + 1 >= 0 {
        ((current + 1) % (len as int)) as i32
    } else {
        (-((-(current + 1)) % (len as int))) as i32
    }
}

/// The subtitle selection after `current` among `len` tracks: off, then each
/// track in turn, then off again.
pub open spec fn next_subtitle_index(current: Option<i32>, len: nat) -> Option<i32> {
    match current {
        None => Some(0),
        Some(idx) => if idx + 1 >= len { None } else { Some((idx + 1) as i32) },
    }
}

impl PlayerDomainState {
    pub fn new() -> (s: PlayerDomainState)
        ensures
            s.available_audio_tracks@.len() == 0,
            s.available_subtitle_tracks@.len() == 0,
            s.current_audio_track == 0,
            s.current_subtitle_track is None,
            !s.subtitles_enabled,
            s.last_subtitle_track is None,
            s.track_notification is None,
    {
        PlayerDomainState {
            available_audio_tracks: Vec::new(),
            current_audio_track: 0,
            available_subtitle_tracks: Vec::new(),
            current_subtitle_track: None,
            subtitles_enabled: false,
            last_subtitle_track: None,
            track_notification: None,
        }
    }

    /// Take over the tracks the video reports (nothing happens without a video).
    pub fn update_available_tracks(&mut self, report: Option<TrackReport>)
        ensures
            match report {
                None => *final(self) == *old(self),
                Some(r) => *final(self) == (PlayerDomainState {
                    available_audio_tracks: r.audio_tracks,
                    current_audio_track: r.current_audio_track,
                    available_subtitle_tracks: r.subtitle_tracks,
                    current_subtitle_track: r.current_subtitle_track,
                    subtitles_enabled: r.subtitles_enabled,
                    ..*old(self)
                }),
            },
    {
        if let Some(r) = report {
            self.available_audio_tracks = r.audio_tracks;
            self.current_audio_track = r.current_audio_track;
            self.available_subtitle_tracks = r.subtitle_tracks;
            self.current_subtitle_track = r.current_subtitle_track;
            self.subtitles_enabled = r.subtitles_enabled;
        }
    }

    fn show_track_notification(&mut self, message: String)
        ensures
            *final(self) == (PlayerDomainState { track_notification: Some(message), ..*old(self) }),
    {
        self.track_notification = Some(message);
    }

    /// Format the audio track at `index` for display.
    pub fn format_audio_track(&self, index: i32) -> (r: String)
        ensures
            r@ == audio_label_at(self.available_audio_tracks@, index),
    {
        if index >= 0 && (index as usize) < self.available_audio_tracks.len() {
            format_audio_track(&self.available_audio_tracks[index as usize])
        } else {
            format_track_number(index)
        }
    }

    /// Format the subtitle track at `index` for display.
    pub fn format_subtitle_track(&self, index: i32) -> (r: String)
        ensures
            r@ == subtitle_label_at(self.available_subtitle_tracks@, index),
    {
        if index >= 0 && (index as usize) < self.available_subtitle_tracks.len() {
            format_subtitle_track(&self.available_subtitle_tracks[index as usize])
        } else {
            format_track_number(index)
        }
    }

    /// Record an audio track selection. `video` is `None` without a video, else
    /// the video's answer to selecting `index` (its error as text).
    pub fn select_audio_track(&mut self, index: i32, video: Option<Result<(), String>>) -> (r: Result<(), String>)
        ensures
            match video {
                None => r is Err && r->Err_0@ == "No video loaded"@ && *final(self) == *old(self),
                Some(Err(e)) => r is Err && r->Err_0@ == "Failed to select audio track: "@ + e@
                    && *final(self) == *old(self),
                Some(Ok(())) => {
                    &&& r is Ok
                    &&& final(self).current_audio_track == index
                    &&& final(self).track_notification is Some
                    &&& final(self).track_notification->0@ == "Audio: "@ + audio_label_at(old(self).available_audio_tracks@, index)
                    &&& *final(self) == (PlayerDomainState {
                        current_audio_track: index,
                        track_notification: final(self).track_notification,
                        ..*old(self)
                    })
                },
            },
    {
        match video {
            None => Err(owned("No video loaded")),
            Some(Err(e)) => Err(concat("Failed to select audio track: ", e.as_str())),
            Some(Ok(())) => {
                self.current_audio_track = index;
                let name = self.format_audio_track(index);
                let msg = concat("Audio: ", name.as_str());
                self.show_track_notification(msg);
                Ok(())
            },
        }
    }

    /// Record a subtitle track selection (`None` disables subtitles). `video` is
    /// `None` without a video, else the video's answer to the selection. On
    /// success the caller sets the video's subtitles on exactly when `index` is `Some`.
    pub fn select_subtitle_track(&mut self, index: Option<i32>, video: Option<Result<(), String>>) -> (r: Result<(), String>)
        ensures
            match video {
                None => r is Err && r->Err_0@ == "No video loaded"@ && *final(self) == *old(self),
                Some(Err(e)) => r is Err && r->Err_0@ == "Failed to select subtitle track: "@ + e@
                    && *final(self) == *old(self),
                Some(Ok(())) => {
                    &&& r is Ok
                    &&& final(self).track_notification is Some
                    &&& final(self).track_notification->0@ == match index {
                        Some(idx) => "Subtitles: "@ + subtitle_label_at(old(self).available_subtitle_tracks@, idx),
                        None => "Subtitles: Disabled"@,
                    }
                    &&& *final(self) == (PlayerDomainState {
                        current_subtitle_track: index,
                        subtitles_enabled: index is Some,
                        track_notification: final(self).track_notification,
                        ..*old(self)
                    })
                },
            },
    {
        match video {
            None => Err(owned("No video loaded")),
            Some(Err(e)) => Err(concat("Failed to select subtitle track: ", e.as_str())),
            Some(Ok(())) => {
                self.current_subtitle_track = index;
                self.subtitles_enabled = index.is_some();
                let msg = match index {
                    Some(idx) => {
                        let name = self.format_subtitle_track(idx);
                        concat("Subtitles: ", name.as_str())
                    },
                    None => owned("Subtitles: Disabled"),
                };
                self.show_track_notification(msg);
                Ok(())
            },
        }
    }

    /// Turn subtitles on or off. On success the caller applies `subtitles_enabled` to the video.
    pub fn toggle_subtitles(&mut self, video_loaded: bool) -> (r: Result<(), String>)
        ensures
            !video_loaded ==> r is Err && r->Err_0@ == "No video loaded"@ && *final(self) == *old(self),
            video_loaded ==> {
                &&& r is Ok
                &&& final(self).subtitles_enabled == !old(self).subtitles_enabled
                &&& final(self).track_notification is Some
                &&& final(self).track_notification->0@ == if !old(self).subtitles_enabled {
                    match old(self).current_subtitle_track {
                        Some(idx) => "Subtitles: "@ + subtitle_label_at(old(self).available_subtitle_tracks@, idx),
                        None => "Subtitles: On"@,
                    }
                } else {
                    "Subtitles: Off"@
                }
                &&& *final(self) == (PlayerDomainState {
                    subtitles_enabled: !old(self).subtitles_enabled,
                    track_notification: final(self).track_notification,
                    ..*old(self)
                })
            },
    {
        if !video_loaded {
            return Err(owned("No video loaded"));
        }
        self.subtitles_enabled = !self.subtitles_enabled;
        let msg = if self.subtitles_enabled {
            match self.current_subtitle_track {
                Some(idx) => {
                    let name = self.format_subtitle_track(idx);
                    concat("Subtitles: ", name.as_str())
                },
                None => owned("Subtitles: On"),
            }
        } else {
            owned("Subtitles: Off")
        };
        self.show_track_notification(msg);
        Ok(())
    }

    /// The audio track to select next, cycling through the available ones.
    pub fn cycle_audio_track(&self) -> (r: Result<i32, String>)
        requires
            self.available_audio_tracks@.len() <= i32::MAX,
            self.current_audio_track < i32::MAX,
        ensures
            self.available_audio_tracks@.len() == 0 ==> r is Err && r->Err_0@ == "No audio tracks available"@,
            self.available_audio_tracks@.len() > 0 ==> r == Ok::<i32, String>(next_audio_index(self.current_audio_track, self.available_audio_tracks@.len())),
    {
        if self.available_audio_tracks.len() == 0 {
            return Err(owned("No audio tracks available"));
        }
        let len = self.available_audio_tracks.len() as i32;
        let next = self.current_audio_track + 1;
        if next >= 0 {
            Ok(next % len)
        } else {
            let neg: i64 = -(next as i64);
            let m: i64 = neg % (len as i64);
            Ok((-m) as i32)
        }
    }

    /// The subtitle selection to apply next: off, each track in turn, off again;
    /// `None` when there are no subtitle tracks (nothing to do).
    pub fn cycle_subtitle_track(&self) -> (r: Option<Option<i32>>)
        requires
            self.available_subtitle_tracks@.len() <= i32::MAX,
        ensures
            self.available_subtitle_tracks@.len() == 0 ==> r is None,
            self.available_subtitle_tracks@.len() > 0 ==> r == Some(next_subtitle_index(self.current_subtitle_track, self.available_subtitle_tracks@.len())),
    {
        if self.available_subtitle_tracks.len() == 0 {
            return None;
        }
        let len = self.available_subtitle_tracks.len() as i32;
        let next = match self.current_subtitle_track {
            None => Some(0),
            Some(idx) => {
                if idx >= len - 1 {
                    None
                } else {
                    Some(idx + 1)
                }
            },
        };
        Some(next)
    }

    /// Simple subtitle cycling: off -> first -> off -> last used -> off. Returns
    /// the selection to apply (`None` when there are no subtitle tracks) and
    /// remembers the track being turned off.
    pub fn cycle_subtitle_simple(&mut self) -> (r: Option<Option<i32>>)
        ensures
            old(self).available_subtitle_tracks@.len() == 0 ==> r is None && *final(self) == *old(self),
            old(self).available_subtitle_tracks@.len() > 0 ==> {
                let o = *old(self);
                if !o.subtitles_enabled {
                    r == Some(Some(0i32)) && *final(self) == o
                } else if o.current_subtitle_track == Some(0i32) {
                    r == Some(None::<i32>) && *final(self) == (PlayerDomainState { last_subtitle_track: Some(0i32), ..o })
                } else if o.current_subtitle_track is None && o.last_subtitle_track is Some {
                    r == Some(o.last_subtitle_track) && *final(self) == o
                } else {
                    &&& r == Some(None::<i32>)
                    &&& *final(self) == (PlayerDomainState {
                        last_subtitle_track: if o.current_subtitle_track is Some { o.current_subtitle_track } else { o.last_subtitle_track },
                        ..o
                    })
                }
            },
    {
        if self.available_subtitle_tracks.len() == 0 {
            return None;
        }
        let next_state = if !self.subtitles_enabled {
            Some(0)
        } else if self.current_subtitle_track == Some(0) {
            self.last_subtitle_track = Some(0);
            None
        } else if self.current_subtitle_track.is_none() && self.last_subtitle_track.is_some() {
            self.last_subtitle_track
        } else {
            if let Some(current) = self.current_subtitle_track {
                self.last_subtitle_track = Some(current);
            }
            None
        };
        Some(next_state)
    }
}


/// The audio track selected after cycling `k` times from `current`.
pub open spec fn audio_after(current: i32, len: nat, k: nat) -> i32
    decreases k,
{
    if k == 0 {
        current
    } else {
        next_audio_index(audio_after(current, len, (k - 1) as nat), len)
    }
}

/// Cycling audio tracks from a valid track walks them in order, wrapping
/// around: after `k` steps the track is `(current + k) % len`, so after `len`
/// steps it is `current` again.
pub proof fn lemma_audio_cycle(current: i32, len: nat, k: nat)
    requires
        0 <= current < len,
        len <= i32::MAX,
    ensures
        audio_after(current, len, k) == ((current + k) % (len as int)) as i32,
        audio_after(current, len, len) == current,
{
    lemma_audio_cycle_steps(current, len, k);
    lemma_audio_cycle_steps(current, len, len);
    vstd::arithmetic::div_mod::lemma_add_mod_noop_right(current as int, len as int, len as int);
    vstd::arithmetic::div_mod::lemma_mod_self_0(len as int);
    vstd::arithmetic::div_mod::lemma_small_mod(current as nat, len);
    assert((current + 0) == current);
}

proof fn lemma_audio_cycle_steps(current: i32, len: nat, k: nat)
    requires
        0 <= current < len,
        len <= i32::MAX,
    ensures
        audio_after(current, len, k) == ((current + k) % (len as int)) as i32,
    decreases k,
{
    if k == 0 {
        vstd::arithmetic::div_mod::lemma_small_mod(current as nat, len);
    } else {
        lemma_audio_cycle_steps(current, len, (k - 1) as nat);
        let prev = (current + k - 1) % (len as int);
        vstd::arithmetic::div_mod::lemma_mod_pos_bound(current + k - 1, len as int);
        assert(0 <= prev < len);
        vstd::arithmetic::div_mod::lemma_add_mod_noop_right(1, current + k - 1, len as int);
        assert((1 + prev) % (len as int) == (current + k) % (len as int));
    }
}

/// The subtitle selection after cycling `k` times from off.
pub open spec fn subtitle_after(len: nat, k: nat) -> Option<i32>
    decreases k,
{
    if k == 0 {
        None
    } else {
        next_subtitle_index(subtitle_after(len, (k - 1) as nat), len)
    }
}

/// Cycling subtitles from off selects each track in order and then turns
/// them off again: after `k` steps (`1 <= k <= len`) track `k - 1` is
/// selected, and after `len + 1` steps subtitles are off.
pub proof fn lemma_subtitle_cycle(len: nat, k: nat)
    requires
        len <= i32::MAX,
        1 <= k <= len,
    ensures
        subtitle_after(len, k) == Some((k - 1) as i32),
        subtitle_after(len, len + 1) == None::<i32>,
{
    lemma_subtitle_cycle_steps(len, k);
    lemma_subtitle_cycle_steps(len, len);
    assert(subtitle_after(len, len + 1) == next_subtitle_index(subtitle_after(len, len), len));
}

proof fn lemma_subtitle_cycle_steps(len: nat, k: nat)
    requires
        len <= i32::MAX,
        1 <= k <= len,
    ensures
        subtitle_after(len, k) == Some((k - 1) as i32),
    decreases k,
{
    assert(subtitle_after(len, k) == next_subtitle_index(subtitle_after(len, (k - 1) as nat), len));
    if k > 1 {
        lemma_subtitle_cycle_steps(len, (k - 1) as nat);
        let prev: i32 = (k - 2) as i32;
        assert(subtitle_after(len, (k - 1) as nat) == Some(prev));
        assert(prev + 1 < len);
    } else {
        assert(subtitle_after(len, 0) == None::<i32>);
    }
}

/// Whether `b` is `a` after a successful subtitle toggle (ignoring the text
/// of the notification).
pub open spec fn toggled(a: PlayerDomainState, b: PlayerDomainState) -> bool {
    &&& b.track_notification is Some
    &&& b == (PlayerDomainState {
        subtitles_enabled: !a.subtitles_enabled,
        track_notification: b.track_notification,
        ..a
    })
}

/// Toggling subtitles twice restores the state, but for the notification.
pub proof fn lemma_toggle_twice(a: PlayerDomainState, b: PlayerDomainState, c: PlayerDomainState)
    requires
        toggled(a, b),
        toggled(b, c),
    ensures
        c == (PlayerDomainState { track_notification: c.track_notification, ..a }),
{
}

/// Each known language code is labelled with the name of its own language,
/// and the codes that get a name are exactly that language's ISO 639-1 and
/// 639-2 codes, so codes of different languages never share a label.
#[verifier::rlimit(50)]
pub proof fn lemma_language_names(lc: Seq<char>)
    ensures
        (language_name(lc) == Some("English"@)) == (lc == "en"@ || lc == "eng"@),
        (language_name(lc) == Some("Spanish"@)) == (lc == "es"@ || lc == "spa"@),
        (language_name(lc) == Some("French"@)) == (lc == "fr"@ || lc == "fra"@),
        (language_name(lc) == Some("German"@)) == (lc == "de"@ || lc == "deu"@ || lc == "ger"@),
        (language_name(lc) == Some("Italian"@)) == (lc == "it"@ || lc == "ita"@),
        (language_name(lc) == Some("Portuguese"@)) == (lc == "pt"@ || lc == "por"@),
        (language_name(lc) == Some("Russian"@)) == (lc == "ru"@ || lc == "rus"@),
        (language_name(lc) == Some("Japanese"@)) == (lc == "ja"@ || lc == "jpn"@),
        (language_name(lc) == Some("Chinese"@)) == (lc == "zh"@ || lc == "chi"@ || lc == "zho"@),
        (language_name(lc) == Some("Korean"@)) == (lc == "ko"@ || lc == "kor"@),
        (language_name(lc) == Some("Arabic"@)) == (lc == "ar"@ || lc == "ara"@),
        (language_name(lc) == Some("Hindi"@)) == (lc == "hi"@ || lc == "hin"@),
        (language_name(lc) == Some("Dutch"@)) == (lc == "nl"@ || lc == "nld"@ || lc == "dut"@),
        (language_name(lc) == Some("Swedish"@)) == (lc == "sv"@ || lc == "swe"@),
        (language_name(lc) == Some("Norwegian"@)) == (lc == "no"@ || lc == "nor"@),
        (language_name(lc) == Some("Danish"@)) == (lc == "da"@ || lc == "dan"@),
        (language_name(lc) == Some("Finnish"@)) == (lc == "fi"@ || lc == "fin"@),
        (language_name(lc) == Some("Polish"@)) == (lc == "pl"@ || lc == "pol"@),
        (language_name(lc) == Some("Turkish"@)) == (lc == "tr"@ || lc == "tur"@),
        (language_name(lc) == Some("Greek"@)) == (lc == "el"@ || lc == "ell"@ || lc == "gre"@),
        (language_name(lc) == Some("Hebrew"@)) == (lc == "he"@ || lc == "heb"@),
{
    reveal_strlit("en");
    assert("en"@.len() == 2 && "en"@[0] == 'e' && "en"@[1] == 'n');
    reveal_strlit("eng");
    assert("eng"@.len() == 3 && "eng"@[0] == 'e' && "eng"@[1] == 'n' && "eng"@[2] == 'g');
    reveal_strlit("English");
    assert("English"@.len() == 7 && "English"@[0] == 'E' && "English"@[1] == 'n' && "English"@[2] == 'g' && "English"@[3] == 'l' && "English"@[4] == 'i' && "English"@[5] == 's' && "English"@[6] == 'h');
    reveal_strlit("es");
    assert("es"@.len() == 2 && "es"@[0] == 'e' && "es"@[1] == 's');
    reveal_strlit("spa");
    assert("spa"@.len() == 3 && "spa"@[0] == 's' && "spa"@[1] == 'p' && "spa"@[2] == 'a');
    reveal_strlit("Spanish");
    assert("Spanish"@.len() == 7 && "Spanish"@[0] == 'S' && "Spanish"@[1] == 'p' && "Spanish"@[2] == 'a' && "Spanish"@[3] == 'n' && "Spanish"@[4] == 'i' && "Spanish"@[5] == 's' && "Spanish"@[6] == 'h');
    reveal_strlit("fr");
    assert("fr"@.len() == 2 && "fr"@[0] == 'f' && "fr"@[1] == 'r');
    reveal_strlit("fra");
    assert("fra"@.len() == 3 && "fra"@[0] == 'f' && "fra"@[1] == 'r' && "fra"@[2] == 'a');
    reveal_strlit("French");
    assert("French"@.len() == 6 && "French"@[0] == 'F' && "French"@[1] == 'r' && "French"@[2] == 'e' && "French"@[3] == 'n' && "French"@[4] == 'c' && "French"@[5] == 'h');
    reveal_strlit("de");
    assert("de"@.len() == 2 && "de"@[0] == 'd' && "de"@[1] == 'e');
    reveal_strlit("deu");
    assert("deu"@.len() == 3 && "deu"@[0] == 'd' && "deu"@[1] == 'e' && "deu"@[2] == 'u');
    reveal_strlit("ger");
    assert("ger"@.len() == 3 && "ger"@[0] == 'g' && "ger"@[1] == 'e' && "ger"@[2] == 'r');
    reveal_strlit("German");
    assert("German"@.len() == 6 && "German"@[0] == 'G' && "German"@[1] == 'e' && "German"@[2] == 'r' && "German"@[3] == 'm' && "German"@[4] == 'a' && "German"@[5] == 'n');
    reveal_strlit("it");
    assert("it"@.len() == 2 && "it"@[0] == 'i' && "it"@[1] == 't');
    reveal_strlit("ita");
    assert("ita"@.len() == 3 && "ita"@[0] == 'i' && "ita"@[1] == 't' && "ita"@[2] == 'a');
    reveal_strlit("Italian");
    assert("Italian"@.len() == 7 && "Italian"@[0] == 'I' && "Italian"@[1] == 't' && "Italian"@[2] == 'a' && "Italian"@[3] == 'l' && "Italian"@[4] == 'i' && "Italian"@[5] == 'a' && "Italian"@[6] == 'n');
    reveal_strlit("pt");
    assert("pt"@.len() == 2 && "pt"@[0] == 'p' && "pt"@[1] == 't');
    reveal_strlit("por");
    assert("por"@.len() == 3 && "por"@[0] == 'p' && "por"@[1] == 'o' && "por"@[2] == 'r');
    reveal_strlit("Portuguese");
    assert("Portuguese"@.len() == 10 && "Portuguese"@[0] == 'P' && "Portuguese"@[1] == 'o' && "Portuguese"@[2] == 'r' && "Portuguese"@[3] == 't' && "Portuguese"@[4] == 'u' && "Portuguese"@[5] == 'g' && "Portuguese"@[6] == 'u' && "Portuguese"@[7] == 'e' && "Portuguese"@[8] == 's' && "Portuguese"@[9] == 'e');
    reveal_strlit("ru");
    assert("ru"@.len() == 2 && "ru"@[0] == 'r' && "ru"@[1] == 'u');
    reveal_strlit("rus");
    assert("rus"@.len() == 3 && "rus"@[0] == 'r' && "rus"@[1] == 'u' && "rus"@[2] == 's');
    reveal_strlit("Russian");
    assert("Russian"@.len() == 7 && "Russian"@[0] == 'R' && "Russian"@[1] == 'u' && "Russian"@[2] == 's' && "Russian"@[3] == 's' && "Russian"@[4] == 'i' && "Russian"@[5] == 'a' && "Russian"@[6] == 'n');
    reveal_strlit("ja");
    assert("ja"@.len() == 2 && "ja"@[0] == 'j' && "ja"@[1] == 'a');
    reveal_strlit("jpn");
    assert("jpn"@.len() == 3 && "jpn"@[0] == 'j' && "jpn"@[1] == 'p' && "jpn"@[2] == 'n');
    reveal_strlit("Japanese");
    assert("Japanese"@.len() == 8 && "Japanese"@[0] == 'J' && "Japanese"@[1] == 'a' && "Japanese"@[2] == 'p' && "Japanese"@[3] == 'a' && "Japanese"@[4] == 'n' && "Japanese"@[5] == 'e' && "Japanese"@[6] == 's' && "Japanese"@[7] == 'e');
    reveal_strlit("zh");
    assert("zh"@.len() == 2 && "zh"@[0] == 'z' && "zh"@[1] == 'h');
    reveal_strlit("chi");
    assert("chi"@.len() == 3 && "chi"@[0] == 'c' && "chi"@[1] == 'h' && "chi"@[2] == 'i');
    reveal_strlit("zho");
    assert("zho"@.len() == 3 && "zho"@[0] == 'z' && "zho"@[1] == 'h' && "zho"@[2] == 'o');
    reveal_strlit("Chinese");
    assert("Chinese"@.len() == 7 && "Chinese"@[0] == 'C' && "Chinese"@[1] == 'h' && "Chinese"@[2] == 'i' && "Chinese"@[3] == 'n' && "Chinese"@[4] == 'e' && "Chinese"@[5] == 's' && "Chinese"@[6] == 'e');
    reveal_strlit("ko");
    assert("ko"@.len() == 2 && "ko"@[0] == 'k' && "ko"@[1] == 'o');
    reveal_strlit("kor");
    assert("kor"@.len() == 3 && "kor"@[0] == 'k' && "kor"@[1] == 'o' && "kor"@[2] == 'r');
    reveal_strlit("Korean");
    assert("Korean"@.len() == 6 && "Korean"@[0] == 'K' && "Korean"@[1] == 'o' && "Korean"@[2] == 'r' && "Korean"@[3] == 'e' && "Korean"@[4] == 'a' && "Korean"@[5] == 'n');
    reveal_strlit("ar");
    assert("ar"@.len() == 2 && "ar"@[0] == 'a' && "ar"@[1] == 'r');
    reveal_strlit("ara");
    assert("ara"@.len() == 3 && "ara"@[0] == 'a' && "ara"@[1] == 'r' && "ara"@[2] == 'a');
    reveal_strlit("Arabic");
    assert("Arabic"@.len() == 6 && "Arabic"@[0] == 'A' && "Arabic"@[1] == 'r' && "Arabic"@[2] == 'a' && "Arabic"@[3] == 'b' && "Arabic"@[4] == 'i' && "Arabic"@[5] == 'c');
    reveal_strlit("hi");
    assert("hi"@.len() == 2 && "hi"@[0] == 'h' && "hi"@[1] == 'i');
    reveal_strlit("hin");
    assert("hin"@.len() == 3 && "hin"@[0] == 'h' && "hin"@[1] == 'i' && "hin"@[2] == 'n');
    reveal_strlit("Hindi");
    assert("Hindi"@.len() == 5 && "Hindi"@[0] == 'H' && "Hindi"@[1] == 'i' && "Hindi"@[2] == 'n' && "Hindi"@[3] == 'd' && "Hindi"@[4] == 'i');
    reveal_strlit("nl");
    assert("nl"@.len() == 2 && "nl"@[0] == 'n' && "nl"@[1] == 'l');
    reveal_strlit("nld");
    assert("nld"@.len() == 3 && "nld"@[0] == 'n' && "nld"@[1] == 'l' && "nld"@[2] == 'd');
    reveal_strlit("dut");
    assert("dut"@.len() == 3 && "dut"@[0] == 'd' && "dut"@[1] == 'u' && "dut"@[2] == 't');
    reveal_strlit("Dutch");
    assert("Dutch"@.len() == 5 && "Dutch"@[0] == 'D' && "Dutch"@[1] == 'u' && "Dutch"@[2] == 't' && "Dutch"@[3] == 'c' && "Dutch"@[4] == 'h');
    reveal_strlit("sv");
    assert("sv"@.len() == 2 && "sv"@[0] == 's' && "sv"@[1] == 'v');
    reveal_strlit("swe");
    assert("swe"@.len() == 3 && "swe"@[0] == 's' && "swe"@[1] == 'w' && "swe"@[2] == 'e');
    reveal_strlit("Swedish");
    assert("Swedish"@.len() == 7 && "Swedish"@[0] == 'S' && "Swedish"@[1] == 'w' && "Swedish"@[2] == 'e' && "Swedish"@[3] == 'd' && "Swedish"@[4] == 'i' && "Swedish"@[5] == 's' && "Swedish"@[6] == 'h');
    reveal_strlit("no");
    assert("no"@.len() == 2 && "no"@[0] == 'n' && "no"@[1] == 'o');
    reveal_strlit("nor");
    assert("nor"@.len() == 3 && "nor"@[0] == 'n' && "nor"@[1] == 'o' && "nor"@[2] == 'r');
    reveal_strlit("Norwegian");
    assert("Norwegian"@.len() == 9 && "Norwegian"@[0] == 'N' && "Norwegian"@[1] == 'o' && "Norwegian"@[2] == 'r' && "Norwegian"@[3] == 'w' && "Norwegian"@[4] == 'e' && "Norwegian"@[5] == 'g' && "Norwegian"@[6] == 'i' && "Norwegian"@[7] == 'a' && "Norwegian"@[8] == 'n');
    reveal_strlit("da");
    assert("da"@.len() == 2 && "da"@[0] == 'd' && "da"@[1] == 'a');
    reveal_strlit("dan");
    assert("dan"@.len() == 3 && "dan"@[0] == 'd' && "dan"@[1] == 'a' && "dan"@[2] == 'n');
    reveal_strlit("Danish");
    assert("Danish"@.len() == 6 && "Danish"@[0] == 'D' && "Danish"@[1] == 'a' && "Danish"@[2] == 'n' && "Danish"@[3] == 'i' && "Danish"@[4] == 's' && "Danish"@[5] == 'h');
    reveal_strlit("fi");
    assert("fi"@.len() == 2 && "fi"@[0] == 'f' && "fi"@[1] == 'i');
    reveal_strlit("fin");
    assert("fin"@.len() == 3 && "fin"@[0] == 'f' && "fin"@[1] == 'i' && "fin"@[2] == 'n');
    reveal_strlit("Finnish");
    assert("Finnish"@.len() == 7 && "Finnish"@[0] == 'F' && "Finnish"@[1] == 'i' && "Finnish"@[2] == 'n' && "Finnish"@[3] == 'n' && "Finnish"@[4] == 'i' && "Finnish"@[5] == 's' && "Finnish"@[6] == 'h');
    reveal_strlit("pl");
    assert("pl"@.len() == 2 && "pl"@[0] == 'p' && "pl"@[1] == 'l');
    reveal_strlit("pol");
    assert("pol"@.len() == 3 && "pol"@[0] == 'p' && "pol"@[1] == 'o' && "pol"@[2] == 'l');
    reveal_strlit("Polish");
    assert("Polish"@.len() == 6 && "Polish"@[0] == 'P' && "Polish"@[1] == 'o' && "Polish"@[2] == 'l' && "Polish"@[3] == 'i' && "Polish"@[4] == 's' && "Polish"@[5] == 'h');
    reveal_strlit("tr");
    assert("tr"@.len() == 2 && "tr"@[0] == 't' && "tr"@[1] == 'r');
    reveal_strlit("tur");
    assert("tur"@.len() == 3 && "tur"@[0] == 't' && "tur"@[1] == 'u' && "tur"@[2] == 'r');
    reveal_strlit("Turkish");
    assert("Turkish"@.len() == 7 && "Turkish"@[0] == 'T' && "Turkish"@[1] == 'u' && "Turkish"@[2] == 'r' && "Turkish"@[3] == 'k' && "Turkish"@[4] == 'i' && "Turkish"@[5] == 's' && "Turkish"@[6] == 'h');
    reveal_strlit("el");
    assert("el"@.len() == 2 && "el"@[0] == 'e' && "el"@[1] == 'l');
    reveal_strlit("ell");
    assert("ell"@.len() == 3 && "ell"@[0] == 'e' && "ell"@[1] == 'l' && "ell"@[2] == 'l');
    reveal_strlit("gre");
    assert("gre"@.len() == 3 && "gre"@[0] == 'g' && "gre"@[1] == 'r' && "gre"@[2] == 'e');
    reveal_strlit("Greek");
    assert("Greek"@.len() == 5 && "Greek"@[0] == 'G' && "Greek"@[1] == 'r' && "Greek"@[2] == 'e' && "Greek"@[3] == 'e' && "Greek"@[4] == 'k');
    reveal_strlit("he");
    assert("he"@.len() == 2 && "he"@[0] == 'h' && "he"@[1] == 'e');
    reveal_strlit("heb");
    assert("heb"@.len() == 3 && "heb"@[0] == 'h' && "heb"@[1] == 'e' && "heb"@[2] == 'b');
    reveal_strlit("Hebrew");
    assert("Hebrew"@.len() == 6 && "Hebrew"@[0] == 'H' && "Hebrew"@[1] == 'e' && "Hebrew"@[2] == 'b' && "Hebrew"@[3] == 'r' && "Hebrew"@[4] == 'e' && "Hebrew"@[5] == 'w');
}

/// Channel counts are labelled by their layout: one is mono, two stereo,
/// six 5.1 and eight 7.1; any other count is written as a number of channels.
pub proof fn lemma_channel_labels(ch: i32)
    ensures
        channels_label(1) == "Mono"@,
        channels_label(2) == "Stereo"@,
        channels_label(6) == "5.1"@,
        channels_label(8) == "7.1"@,
        ch != 1 && ch != 2 && ch != 6 && ch != 8 ==> channels_label(ch) == decimal_i32(ch) + " ch"@,
{
}

/// Audio codec identifiers are recognised by the name they contain, in this
/// order: AAC, then AC3 (so `eac3` also reads as AC3), then DTS and the
/// rest; the subtitle codecs likewise (SRT, WebVTT, ASS/SSA, PGS, DVB, DVD).
pub proof fn lemma_codec_names(lc: Seq<char>)
    ensures
        seq_contains(lc, "aac"@) ==> audio_codec_name(lc) == Some("AAC"@),
        !seq_contains(lc, "aac"@) && (seq_contains(lc, "ac3"@) || seq_contains(lc, "ac-3"@) || seq_contains(lc, "eac3"@))
            ==> audio_codec_name(lc) == Some("AC3"@),
        seq_contains(lc, "dts"@) && !seq_contains(lc, "aac"@) && !seq_contains(lc, "ac3"@) && !seq_contains(lc, "ac-3"@)
            && !seq_contains(lc, "eac-3"@) ==> audio_codec_name(lc) == Some("DTS"@),
        seq_contains(lc, "srt"@) ==> subtitle_codec_name(lc) == Some("SRT"@),
        !seq_contains(lc, "srt"@) && seq_contains(lc, "vtt"@) ==> subtitle_codec_name(lc) == Some("WebVTT"@),
        !seq_contains(lc, "srt"@) && !seq_contains(lc, "vtt"@) && !seq_contains(lc, "webvtt"@) && (seq_contains(lc, "ass"@)
            || seq_contains(lc, "ssa"@)) ==> subtitle_codec_name(lc) == Some("ASS/SSA"@),
{
    if seq_contains(lc, "eac3"@) {
        let i = choose|i: int| 0 <= i && i + "eac3"@.len() <= lc.len() && #[trigger] lc.subrange(i, i + "eac3"@.len()) == "eac3"@;
        reveal_strlit("eac3");
        reveal_strlit("ac3");
        assert(lc.subrange(i + 1, i + 1 + "ac3"@.len()) =~= "ac3"@) by {
            assert forall|k: int| 0 <= k < 3 implies lc.subrange(i + 1, i + 4)[k] == "ac3"@[k] by {
                assert(lc.subrange(i + 1, i + 4)[k] == lc.subrange(i, i + 4)[k + 1]);
            }
        }
        assert(seq_contains(lc, "ac3"@));
    }
}

} // verus!
