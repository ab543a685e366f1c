//! Repeat modes and how each one is presented and applied.
use vstd::prelude::*;

verus! {

/// How playback repeats once the current track or playlist ends.
#[derive(Debug, Clone, Copy, PartialEq, Eq, Structural)]
pub enum RepeatMode {
    /// Stop at the end of the playlist.
    Off,
    /// Start the playlist over after its last track.
    Playlist,
    /// Play the current track again.
    One,
}

/// The mode that follows `m` when the repeat button is pressed:
/// off, then playlist, then one, then off again.
pub open spec fn next_mode(m: RepeatMode) -> RepeatMode {
    match m {
        RepeatMode::Off => RepeatMode::Playlist,
        RepeatMode::Playlist => RepeatMode::One,
        RepeatMode::One => RepeatMode::Off,
    }
}

impl Default for RepeatMode {
    fn default() -> (r: RepeatMode)
        ensures
            r == RepeatMode::Off,
    {
        RepeatMode::Off
    }
}

impl RepeatMode {
    /// The mode the repeat button switches to.
    pub fn cycled(self) -> (r: RepeatMode)
        ensures
            r == next_mode(self),
    {
        match self {
            RepeatMode::Off => RepeatMode::Playlist,
            RepeatMode::Playlist => RepeatMode::One,
            RepeatMode::One => RepeatMode::Off,
        }
    }

    /// The MPRIS `LoopStatus` value for this mode.
    pub fn loop_status(self) -> (r: &'static str)
        ensures
            self == RepeatMode::Off ==> r == "None",
            self == RepeatMode::One ==> r == "Track",
            self == RepeatMode::Playlist ==> r == "Playlist",
    {
        match self {
            RepeatMode::Off => "None",
            RepeatMode::One => "Track",
            RepeatMode::Playlist => "Playlist",
        }
    }

    /// The values of mpv's `loop-playlist` and `loop-file` properties, in that
    /// order, that put the player into this mode.  mpv only ever holds the
    /// current file, so mpv loops that file for repeat-one; repeating the
    /// playlist is the automatic advance's work (it starts over after the
    /// last track), and mpv is told not to loop.
    pub fn mpv_loop_values(self) -> (r: (&'static str, &'static str))
        ensures
            self == RepeatMode::One ==> r == ("no", "inf"),
            self != RepeatMode::One ==> r == ("no", "no"),
    {
        match self {
            RepeatMode::One => ("no", "inf"),
            _ => ("no", "no"),
        }
    }

    /// The icon shown on the repeat button.
    pub fn icon_name(self) -> (r: &'static str)
        ensures
            self == RepeatMode::One ==> r == "media-playlist-repeat-song-symbolic",
            self != RepeatMode::One ==> r == "media-playlist-repeat-symbolic",
    {
        match self {
            RepeatMode::One => "media-playlist-repeat-song-symbolic",
            _ => "media-playlist-repeat-symbolic",
        }
    }

    /// Whether the repeat button is drawn as active (full opacity).
    pub fn is_active(self) -> (r: bool)
        ensures
            r == (self != RepeatMode::Off),
    {
        !matches!(self, RepeatMode::Off)
    }
}

/// Pressing the repeat button three times returns to the mode one started
/// from, and the three modes it passes through are all different.
pub proof fn lemma_repeat_cycle(m: RepeatMode)
    ensures
        next_mode(next_mode(next_mode(m))) == m,
        next_mode(m) != m,
        next_mode(next_mode(m)) != m,
{
}

} // verus!
