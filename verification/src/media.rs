//! Media files: which files are played as video or audio, and the values
//! the player reports about what is loaded.
use vstd::prelude::*;
use crate::text::{chars_equal, chars_of, spec_to_lowercase, to_lowercase};
use crate::titles::{extension, file_stem, spec_extension, spec_file_stem};

verus! {

/// Whether a media file is played as video or as audio.
#[derive(Debug, Clone, Copy, PartialEq, Eq, Structural)]
pub enum MediaKind {
    Video,
    Audio,
}

/// Where playback stands.
#[derive(Debug, Clone)]
pub enum PlaybackState {
    Idle,
    Loading,
    Playing,
    Paused,
    Stopped,
    Error(String),
}

/// The same state, with the same message for an error.
pub open spec fn same_playback_state(a: PlaybackState, b: PlaybackState) -> bool {
    match (a, b) {
        (PlaybackState::Idle, PlaybackState::Idle) => true,
        (PlaybackState::Loading, PlaybackState::Loading) => true,
        (PlaybackState::Playing, PlaybackState::Playing) => true,
        (PlaybackState::Paused, PlaybackState::Paused) => true,
        (PlaybackState::Stopped, PlaybackState::Stopped) => true,
        (PlaybackState::Error(x), PlaybackState::Error(y)) => x@ == y@,
        _ => false,
    }
}

impl PartialEq for PlaybackState {
    fn eq(&self, other: &PlaybackState) -> (r: bool) {
        match (self, other) {
            (PlaybackState::Idle, PlaybackState::Idle) => true,
            (PlaybackState::Loading, PlaybackState::Loading) => true,
            (PlaybackState::Playing, PlaybackState::Playing) => true,
            (PlaybackState::Paused, PlaybackState::Paused) => true,
            (PlaybackState::Stopped, PlaybackState::Stopped) => true,
            (PlaybackState::Error(x), PlaybackState::Error(y)) => {
                let same: bool = (*x) == (*y);
                assert(same == (x@ == y@));
                same
            },
            _ => false,
        }
    }
}

impl vstd::std_specs::cmp::PartialEqSpecImpl for PlaybackState {
    open spec fn obeys_eq_spec() -> bool {
        true
    }

    open spec fn eq_spec(&self, other: &PlaybackState) -> bool {
        same_playback_state(*self, *other)
    }
}

/// An audio, subtitle or video track of the loaded file.
#[derive(Debug, Clone)]
pub struct TrackInfo {
    pub id: i64,
    /// `audio`, `sub` or `video`.
    pub kind: String,
    pub title: Option<String>,
    pub lang: Option<String>,
    pub selected: bool,
}

/// The file extensions (lowercase) played as video.
pub open spec fn video_extensions() -> Seq<Seq<char>> {
    seq!["mp4"@, "mkv"@, "avi"@, "mov"@, "webm"@, "flv"@, "wmv"@, "m4v"@, "ts"@]
}

/// The file extensions (lowercase) played as audio.
pub open spec fn audio_extensions() -> Seq<Seq<char>> {
    seq!["mp3"@, "flac"@, "ogg"@, "opus"@, "aac"@, "m4a"@, "wav"@, "wma"@]
}

/// The kind of a file by its extension, compared ignoring case; none when
/// it has no extension or an unknown one.
pub open spec fn media_kind_spec(path: Seq<char>) -> Option<MediaKind> {
    match spec_extension(path) {
        Some(e) => {
            let l = spec_to_lowercase(e);
            if video_extensions().contains(l) {
                Some(MediaKind::Video)
            } else if audio_extensions().contains(l) {
                Some(MediaKind::Audio)
            } else {
                None
            }
        },
        None => None,
    }
}

fn video_list() -> (r: Vec<Vec<char>>)
    ensures
        r@.map_values(|v: Vec<char>| v@) == video_extensions(),
{
    let r = vec![
        chars_of("mp4"),
        chars_of("mkv"),
        chars_of("avi"),
        chars_of("mov"),
        chars_of("webm"),
        chars_of("flv"),
        chars_of("wmv"),
        chars_of("m4v"),
        chars_of("ts"),
    ];
    assert(r@.map_values(|v: Vec<char>| v@) =~= video_extensions());
    r
}

fn audio_list() -> (r: Vec<Vec<char>>)
    ensures
        r@.map_values(|v: Vec<char>| v@) == audio_extensions(),
{
    let r = vec![
        chars_of("mp3"),
        chars_of("flac"),
        chars_of("ogg"),
        chars_of("opus"),
        chars_of("aac"),
        chars_of("m4a"),
        chars_of("wav"),
        chars_of("wma"),
    ];
    assert(r@.map_values(|v: Vec<char>| v@) =~= audio_extensions());
    r
}

fn listed(list: &Vec<Vec<char>>, e: &Vec<char>) -> (r: bool)
    ensures
        r == list@.map_values(|v: Vec<char>| v@).contains(e@),
{
    let ghost views = list@.map_values(|v: Vec<char>| v@);
    let mut i: usize = 0;
    while i < list.len()
        invariant
            i <= list@.len(),
            views == list@.map_values(|v: Vec<char>| v@),
            forall|k: int| 0 <= k < i ==> views[k] != e@,
        decreases list.len() - i,
    {
        if chars_equal(&list[i], e) {
            assert(views[i as int] == e@);
            return true;
        }
        i = i + 1;
    }
    false
}

/// Whether a file is played as video or audio, judged by its extension.
pub fn media_kind(path: &str) -> (r: Option<MediaKind>)
    ensures
        r == media_kind_spec(path@),
{
    match extension(path) {
        Some(e) => {
            let l = chars_of(to_lowercase(e.as_str()).as_str());
            if listed(&video_list(), &l) {
                Some(MediaKind::Video)
            } else if listed(&audio_list(), &l) {
                Some(MediaKind::Audio)
            } else {
                None
            }
        },
        None => None,
    }
}

/// The title of a scanned media file: its file stem, or `Unknown`.
pub fn media_title(path: &str) -> (r: String)
    ensures
        r@ == match spec_file_stem(path@) {
            Some(s) => s,
            None => "Unknown"@,
        },
{
    match file_stem(path) {
        Some(s) => s,
        None => "Unknown".to_string(),
    }
}

/// The extensions offered as video files in the open dialog.
pub fn video_extension_names() -> (r: Vec<&'static str>)
    ensures
        r@.map_values(|s: &'static str| s@) == video_extensions(),
{
    let r = vec!["mp4", "mkv", "avi", "mov", "webm", "flv", "wmv", "m4v", "ts"];
    assert(r@.map_values(|s: &'static str| s@) =~= video_extensions());
    r
}

/// The extensions offered as audio files in the open dialog.
pub fn audio_extension_names() -> (r: Vec<&'static str>)
    ensures
        r@.map_values(|s: &'static str| s@) == audio_extensions(),
{
    let r = vec!["mp3", "flac", "ogg", "opus", "aac", "m4a", "wav", "wma"];
    assert(r@.map_values(|s: &'static str| s@) =~= audio_extensions());
    r
}

/// The extensions offered as playlist files in the open dialog.
pub fn playlist_extension_names() -> (r: Vec<&'static str>)
    ensures
        r@.map_values(|s: &'static str| s@) == seq!["m3u"@, "m3u8"@],
{
    let r = vec!["m3u", "m3u8"];
    assert(r@.map_values(|s: &'static str| s@) =~= seq!["m3u"@, "m3u8"@]);
    r
}

/// The extensions offered in the subtitle dialog.
pub fn subtitle_extension_names() -> (r: Vec<&'static str>)
    ensures
        r@.map_values(|s: &'static str| s@) == seq!["srt"@, "ass"@, "ssa"@, "sub"@, "vtt"@, "sup"@],
{
    let r = vec!["srt", "ass", "ssa", "sub", "vtt", "sup"];
    assert(r@.map_values(|s: &'static str| s@) =~= seq![
        "srt"@,
        "ass"@,
        "ssa"@,
        "sub"@,
        "vtt"@,
        "sup"@,
    ]);
    r
}

/// The message shown when playback stops by itself: when the player was
/// playing, is now idle, and did not reach the end of the file, it is the
/// player's error string, or a generic message when there is none.
pub fn stop_error(was_idle: bool, idle: bool, eof: bool, last_error: Option<String>) -> (r: Option<
    String,
>)
    ensures
        !(!was_idle && idle && !eof) ==> r is None,
        !was_idle && idle && !eof ==> match last_error {
            Some(e) => r == Some(e),
            None => r matches Some(m) && m@ == "Could not open the media source."@,
        },
{
    if !was_idle && idle && !eof {
        match last_error {
            Some(e) => Some(e),
            None => Some("Could not open the media source.".to_string()),
        }
    } else {
        None
    }
}

/// A playback error string worth showing: neither empty nor `(empty)`.
pub fn meaningful_error(s: String) -> (r: Option<String>)
    ensures
        r == if s@.len() == 0 || s@ == "(empty)"@ {
            None::<String>
        } else {
            Some(s)
        },
{
    let cs = chars_of(s.as_str());
    if cs.len() == 0 || chars_equal(&cs, &chars_of("(empty)")) {
        None
    } else {
        Some(s)
    }
}

/// The value of mpv's `sid` property that selects subtitle track `id`;
/// `no` (`None` here) for id 0, which turns subtitles off.
pub fn subtitle_selection(id: i64) -> (r: Option<i64>)
    ensures
        r == if id == 0 {
            None::<i64>
        } else {
            Some(id)
        },
{
    if id == 0 {
        None
    } else {
        Some(id)
    }
}

} // verus!
