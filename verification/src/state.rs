//! The shared playback state: the playlist, the current track, mute, repeat
//! and shuffle, and the moves between tracks.
use vstd::prelude::*;
use crate::repeat::{RepeatMode, next_mode};
use crate::shuffle::{
    build_shuffle_order,
    clock_seed,
    lemma_position_of_distinct,
    lemma_shuffled_order_is_permutation,
    is_permutation,
    position_from,
    position_of,
    shuffled_order,
};

verus! {

/// Playback state shared by the whole user interface.  Tracks are named by
/// their path or URL.
pub struct PlayerState {
    pub playlist: Vec<String>,
    pub current_idx: Option<usize>,
    pub muted: bool,
    /// File to open once the video output is ready (session restore).
    pub pending_open: Option<String>,
    pub repeat_mode: RepeatMode,
    pub shuffle: bool,
    pub shuffle_order: Vec<usize>,
}

/// The index that follows `current`: the next playlist position, or in
/// shuffle mode the entry after `current` in the shuffle order.
pub open spec fn next_index(
    shuffle: bool,
    len: nat,
    order: Seq<usize>,
    current: usize,
) -> Option<usize> {
    if !shuffle {
        if current + 1 < len {
            Some((current + 1) as usize)
        } else {
            None
        }
    } else {
        let p = position_of(order, current);
        if p + 1 < order.len() {
            Some(order[p + 1])
        } else {
            None
        }
    }
}

/// The index of the previous track: one position back, when there is one.
pub open spec fn previous_index(len: nat, current: Option<usize>) -> Option<usize> {
    match current {
        Some(i) => if 0 < i && i - 1 < len {
            Some((i - 1) as usize)
        } else {
            None
        },
        None => None,
    }
}

/// Everything but the fields a move between tracks touches is as before.
pub open spec fn same_except_current(a: PlayerState, b: PlayerState) -> bool {
    &&& a.playlist@ == b.playlist@
    &&& a.muted == b.muted
    &&& a.pending_open == b.pending_open
    &&& a.repeat_mode == b.repeat_mode
    &&& a.shuffle == b.shuffle
    &&& a.shuffle_order@ == b.shuffle_order@
}


/// Where the next-track command goes from state `s`: the index after the
/// current one, when it names a playlist entry.
pub open spec fn next_track_target(s: PlayerState) -> Option<usize> {
    match s.current_idx {
        Some(i) => match next_index(s.shuffle, s.playlist@.len(), s.shuffle_order@, i) {
            Some(n) => if n < s.playlist@.len() {
                Some(n)
            } else {
                None
            },
            None => None,
        },
        None => None,
    }
}

/// Where playback starts over when the playlist repeats: the first entry of
/// the shuffle order in shuffle mode (when it names a playlist entry), else
/// the first playlist entry.
pub open spec fn wrap_start(s: PlayerState) -> usize {
    if s.shuffle && s.shuffle_order@.len() > 0 && s.shuffle_order@[0] < s.playlist@.len() {
        s.shuffle_order@[0]
    } else {
        0
    }
}

/// Where playback goes when the current file ends: the next track; after
/// the last one, with the playlist on repeat, back to where it starts over.
pub open spec fn advance_target(s: PlayerState) -> Option<usize> {
    match next_track_target(s) {
        Some(n) => Some(n),
        None => if s.repeat_mode == RepeatMode::Playlist && s.current_idx is Some
            && s.playlist@.len() > 0 {
            Some(wrap_start(s))
        } else {
            None
        },
    }
}

/// Where the skip-forward button goes: one position on, ignoring shuffle.
pub open spec fn step_forward_target(s: PlayerState) -> Option<usize> {
    match s.current_idx {
        Some(i) => if i + 1 < s.playlist@.len() {
            Some((i + 1) as usize)
        } else {
            None
        },
        None => None,
    }
}

/// The result of moving to `target`: the index and its path, with the state
/// updated; or nothing, with the state as it was.
pub open spec fn moved_to(
    before: PlayerState,
    after: PlayerState,
    target: Option<usize>,
    r: Option<(usize, String)>,
) -> bool {
    &&& same_except_current(before, after)
    &&& match target {
        Some(n) => {
            &&& r == Some((n, before.playlist@[n as int]))
            &&& after.current_idx == Some(n)
        },
        None => {
            &&& r is None
            &&& after.current_idx == before.current_idx
        },
    }
}

/// The playlist entries whose flag is set, in order.
pub open spec fn kept_paths(entries: Seq<(String, bool)>) -> Seq<String>
    decreases entries.len(),
{
    if entries.len() == 0 {
        seq![]
    } else {
        let rest = kept_paths(entries.drop_last());
        if entries.last().1 {
            rest.push(entries.last().0)
        } else {
            rest
        }
    }
}

/// What `Path == Path` says of two paths with these characters (paths are
/// equal when their components are).
pub uninterp spec fn spec_path_eq(a: Seq<char>, b: Seq<char>) -> bool;

/// Two texts name the same path: they read the same, or `Path`'s equality
/// says so.  (`Path` equality is reflexive, so this is that equality.)
pub open spec fn same_path_spec(a: Seq<char>, b: Seq<char>) -> bool {
    a == b || spec_path_eq(a, b)
}

/// Trusted: `Path == Path` on the two paths, which compares them component
/// by component (so `a//b` and `a/b` are the same path).  Path equality is an
/// equivalence, so equal texts give equal paths.
#[verifier::external_body]
fn same_path(a: &str, b: &str) -> (r: bool)
    ensures
        r == spec_path_eq(a@, b@),
        a@ == b@ ==> r,
{
    std::path::Path::new(a) == std::path::Path::new(b)
}

/// The first position at or after `i` of the same path as `v` (see
/// [`same_path_spec`]), or `s.len()`.
pub open spec fn path_position_from(s: Seq<String>, v: Seq<char>, i: int) -> int
    decreases s.len() - i,
{
    if i < 0 || i >= s.len() {
        s.len() as int
    } else if same_path_spec(s[i]@, v) {
        i
    } else {
        path_position_from(s, v, i + 1)
    }
}

pub proof fn lemma_path_position_from(s: Seq<String>, v: Seq<char>, i: int)
    requires
        0 <= i <= s.len(),
    ensures
        i <= path_position_from(s, v, i) <= s.len(),
    decreases s.len() - i,
{
    if i < s.len() && !same_path_spec(s[i]@, v) {
        lemma_path_position_from(s, v, i + 1);
    }
}

/// The index a restored session resumes at: where the previously current
/// file (compared as a path) now stands in the kept list, or the first entry.
pub open spec fn restored_index(entries: Seq<(String, bool)>, saved_idx: Option<usize>) -> int {
    let kept = kept_paths(entries);
    match saved_idx {
        Some(i) => if i < entries.len() {
            let p = path_position_from(kept, entries[i as int].0@, 0);
            if p < kept.len() {
                p
            } else {
                0
            }
        } else {
            0
        },
        None => 0,
    }
}

proof fn lemma_kept_paths_contains(entries: Seq<(String, bool)>, i: int)
    requires
        0 <= i < entries.len(),
        entries[i].1,
    ensures
        exists|k: int|
            0 <= k < kept_paths(entries).len() && #[trigger] kept_paths(entries)[k] == entries[i].0,
    decreases entries.len(),
{
    let last = entries.len() - 1;
    let rest = kept_paths(entries.drop_last());
    if i == last {
        assert(kept_paths(entries)[rest.len() as int] == entries[i].0);
    } else {
        lemma_kept_paths_contains(entries.drop_last(), i);
        let k = choose|k: int| 0 <= k < rest.len() && #[trigger] rest[k] == entries.drop_last()[i].0;
        assert(kept_paths(entries)[k] == entries[i].0);
    }
}

proof fn lemma_path_position_finds(s: Seq<String>, v: Seq<char>, i: int, k: int)
    requires
        0 <= i <= k < s.len(),
        s[k]@ == v,
    ensures
        path_position_from(s, v, i) <= k,
        same_path_spec(s[path_position_from(s, v, i)]@, v),
    decreases k - i,
{
    if !same_path_spec(s[i]@, v) {
        lemma_path_position_from(s, v, i + 1);
        lemma_path_position_finds(s, v, i + 1, k);
    }
}

proof fn lemma_path_position_absent(s: Seq<String>, v: Seq<char>, i: int)
    requires
        0 <= i <= s.len(),
        forall|k: int| i <= k < s.len() ==> !same_path_spec(#[trigger] s[k]@, v),
    ensures
        path_position_from(s, v, i) == s.len(),
    decreases s.len() - i,
{
    if i < s.len() {
        lemma_path_position_absent(s, v, i + 1);
    }
}

/// A restored session starts at the first kept file when it cannot resume
/// the saved one: when there was no saved position, when the saved position
/// `i` lies outside the saved list, or when no kept file is the same path as
/// the file saved at `i`.
pub proof fn lemma_restore_falls_back_to_first(entries: Seq<(String, bool)>, i: usize)
    requires
        i < entries.len() ==> forall|k: int|
            0 <= k < kept_paths(entries).len() ==> !same_path_spec(
                #[trigger] kept_paths(entries)[k]@,
                entries[i as int].0@,
            ),
    ensures
        restored_index(entries, Some(i)) == 0,
        restored_index(entries, None) == 0,
{
    if i < entries.len() {
        lemma_path_position_absent(kept_paths(entries), entries[i as int].0@, 0);
    }
}

/// Restoring a session resumes the file that was current when it was saved,
/// whenever that file still exists: the restored entry is the same path.
pub proof fn lemma_restore_resumes_current(entries: Seq<(String, bool)>, i: usize)
    requires
        i < entries.len(),
        entries[i as int].1,
    ensures
        kept_paths(entries).len() > 0,
        0 <= restored_index(entries, Some(i)) < kept_paths(entries).len(),
        same_path_spec(
            kept_paths(entries)[restored_index(entries, Some(i))]@,
            entries[i as int].0@,
        ),
{
    lemma_kept_paths_contains(entries, i as int);
    let kept = kept_paths(entries);
    let k = choose|k: int| 0 <= k < kept.len() && #[trigger] kept[k] == entries[i as int].0;
    lemma_path_position_from(kept, entries[i as int].0@, 0);
    lemma_path_position_finds(kept, entries[i as int].0@, 0, k);
}

impl PlayerState {
    /// An empty playlist, nothing playing, not muted, no repeat, no shuffle.
    pub fn new() -> (r: PlayerState)
        ensures
            r.playlist@.len() == 0,
            r.current_idx is None,
            !r.muted,
            r.pending_open is None,
            r.repeat_mode == RepeatMode::Off,
            !r.shuffle,
            r.shuffle_order@.len() == 0,
    {
        PlayerState {
            playlist: Vec::new(),
            current_idx: None,
            muted: false,
            pending_open: None,
            repeat_mode: RepeatMode::Off,
            shuffle: false,
            shuffle_order: Vec::new(),
        }
    }

    /// Rebuild the shuffle order from an explicit generator seed.
    pub fn rebuild_shuffle_order_seeded(&mut self, seed: u64)
        ensures
            final(self).shuffle_order@ == shuffled_order(
                old(self).playlist@.len(),
                seed,
                old(self).current_idx,
            ),
            final(self).playlist@ == old(self).playlist@,
            final(self).current_idx == old(self).current_idx,
            final(self).muted == old(self).muted,
            final(self).pending_open == old(self).pending_open,
            final(self).repeat_mode == old(self).repeat_mode,
            final(self).shuffle == old(self).shuffle,
    {
        let order = build_shuffle_order(self.playlist.len(), seed, self.current_idx);
        self.shuffle_order = order;
    }

    /// Rebuild the shuffle order, seeded from the clock.  Whatever the seed,
    /// the new order lists every playlist index exactly once, with the current
    /// track first.
    pub fn rebuild_shuffle_order(&mut self)
        ensures
            exists|seed: u64|
                final(self).shuffle_order@ == shuffled_order(
                    old(self).playlist@.len(),
                    seed,
                    old(self).current_idx,
                ),
            is_permutation(final(self).shuffle_order@, old(self).playlist@.len()),
            old(self).current_idx matches Some(c) ==> (c < old(self).playlist@.len()
                ==> final(self).shuffle_order@[0] == c),
            final(self).playlist@ == old(self).playlist@,
            final(self).current_idx == old(self).current_idx,
            final(self).muted == old(self).muted,
            final(self).pending_open == old(self).pending_open,
            final(self).repeat_mode == old(self).repeat_mode,
            final(self).shuffle == old(self).shuffle,
    {
        let seed = clock_seed();
        let n = self.playlist.len();
        self.rebuild_shuffle_order_seeded(seed);
        proof {
            assert(self.playlist@.len() == n);
            lemma_shuffled_order_is_permutation(self.playlist@.len(), seed, self.current_idx);
        }
    }

    /// Replace the playlist; the first entry becomes current.
    pub fn set_playlist(&mut self, paths: Vec<String>)
        ensures
            final(self).playlist@ == paths@,
            final(self).current_idx == if paths@.len() == 0 {
                None::<usize>
            } else {
                Some(0usize)
            },
            final(self).muted == old(self).muted,
            final(self).pending_open == old(self).pending_open,
            final(self).repeat_mode == old(self).repeat_mode,
            final(self).shuffle == old(self).shuffle,
            final(self).shuffle_order@ == old(self).shuffle_order@,
    {
        let empty = paths.len() == 0;
        self.playlist = paths;
        self.current_idx = if empty {
            None
        } else {
            Some(0)
        };
    }

    /// The path of the current track, if the current index names one.
    pub fn current_path(&self) -> (r: Option<String>)
        ensures
            r == match self.current_idx {
                Some(i) => if i < self.playlist@.len() {
                    Some(self.playlist@[i as int])
                } else {
                    None
                },
                None => None,
            },
    {
        match self.current_idx {
            Some(i) => if i < self.playlist.len() {
                Some(self.playlist[i].clone())
            } else {
                None
            },
            None => None,
        }
    }

    /// A playlist row was activated: it becomes current, and its path is
    /// returned when the row names a playlist entry.
    pub fn activate_row(&mut self, idx: usize) -> (r: Option<String>)
        ensures
            same_except_current(*old(self), *final(self)),
            final(self).current_idx == Some(idx),
            r == if idx < old(self).playlist@.len() {
                Some(old(self).playlist@[idx as int])
            } else {
                None
            },
    {
        self.current_idx = Some(idx);
        if idx < self.playlist.len() {
            Some(self.playlist[idx].clone())
        } else {
            None
        }
    }

    fn move_to(&mut self, target: Option<usize>) -> (r: Option<(usize, String)>)
        requires
            target matches Some(n) ==> n < old(self).playlist@.len(),
        ensures
            moved_to(*old(self), *final(self), target, r),
    {
        match target {
            Some(n) => {
                let p = self.playlist[n].clone();
                self.current_idx = Some(n);
                Some((n, p))
            },
            None => None,
        }
    }

    /// Go back one track (skip-backward button, MPRIS `Previous`).
    pub fn previous_track(&mut self) -> (r: Option<(usize, String)>)
        ensures
            moved_to(
                *old(self),
                *final(self),
                previous_index(old(self).playlist@.len(), old(self).current_idx),
                r,
            ),
    {
        let target = match self.current_idx {
            Some(i) => if i > 0 && i - 1 < self.playlist.len() {
                Some(i - 1)
            } else {
                None
            },
            None => None,
        };
        self.move_to(target)
    }

    /// Go one position on (skip-forward button), ignoring shuffle.
    pub fn step_forward(&mut self) -> (r: Option<(usize, String)>)
        ensures
            moved_to(*old(self), *final(self), step_forward_target(*old(self)), r),
    {
        let target = match self.current_idx {
            Some(i) => if i < self.playlist.len() && i + 1 < self.playlist.len() {
                Some(i + 1)
            } else {
                None
            },
            None => None,
        };
        self.move_to(target)
    }

    /// Go to the next track, respecting shuffle order (end of file, MPRIS
    /// `Next`).
    pub fn next_track(&mut self) -> (r: Option<(usize, String)>)
        ensures
            moved_to(*old(self), *final(self), next_track_target(*old(self)), r),
    {
        let target = match self.current_idx {
            Some(i) => match self.effective_next_idx(i) {
                Some(n) => if n < self.playlist.len() {
                    Some(n)
                } else {
                    None
                },
                None => None,
            },
            None => None,
        };
        self.move_to(target)
    }

    /// Move on when the current file has ended: to the next track, or, after
    /// the last one with the playlist on repeat, back to its start.
    pub fn advance_track(&mut self) -> (r: Option<(usize, String)>)
        ensures
            moved_to(*old(self), *final(self), advance_target(*old(self)), r),
    {
        let target = match self.current_idx {
            Some(i) => match self.effective_next_idx(i) {
                Some(n) => if n < self.playlist.len() {
                    Some(n)
                } else {
                    None
                },
                None => None,
            },
            None => None,
        };
        let target = match target {
            Some(n) => Some(n),
            None => if self.repeat_mode == RepeatMode::Playlist && self.current_idx.is_some()
                && self.playlist.len() > 0 {
                if self.shuffle && self.shuffle_order.len() > 0 && self.shuffle_order[0]
                    < self.playlist.len() {
                    Some(self.shuffle_order[0])
                } else {
                    Some(0)
                }
            } else {
                None
            },
        };
        self.move_to(target)
    }

    /// Flip mute and return the new setting.
    pub fn toggle_mute(&mut self) -> (r: bool)
        ensures
            r == !old(self).muted,
            final(self).muted == r,
            final(self).playlist@ == old(self).playlist@,
            final(self).current_idx == old(self).current_idx,
            final(self).pending_open == old(self).pending_open,
            final(self).repeat_mode == old(self).repeat_mode,
            final(self).shuffle == old(self).shuffle,
            final(self).shuffle_order@ == old(self).shuffle_order@,
    {
        self.muted = !self.muted;
        self.muted
    }

    /// Switch to the next repeat mode and return it.
    pub fn cycle_repeat(&mut self) -> (r: RepeatMode)
        ensures
            r == next_mode(old(self).repeat_mode),
            final(self).repeat_mode == r,
            final(self).playlist@ == old(self).playlist@,
            final(self).current_idx == old(self).current_idx,
            final(self).muted == old(self).muted,
            final(self).pending_open == old(self).pending_open,
            final(self).shuffle == old(self).shuffle,
            final(self).shuffle_order@ == old(self).shuffle_order@,
    {
        self.repeat_mode = self.repeat_mode.cycled();
        self.repeat_mode
    }

    /// Whether a next and a previous track exist, as reported over MPRIS.
    /// With nothing current, position 0 is assumed.
    pub fn navigation_availability(&self) -> (r: (bool, bool))
        ensures
            ({
                let n = self.playlist@.len();
                let i = match self.current_idx {
                    Some(i) => i as int,
                    None => 0,
                };
                r == (i + 1 < n, i > 0 && n > 0)
            }),
    {
        let n = self.playlist.len();
        let i = match self.current_idx {
            Some(i) => i,
            None => 0,
        };
        (i < n && i + 1 < n, i > 0 && n > 0)
    }

    /// Restore a saved session.  `entries` holds each saved path with whether
    /// the file still exists.  When any survives, the surviving paths become
    /// the playlist, the previously current file (or else the first) becomes
    /// current and is queued to open, and its index is returned; otherwise
    /// nothing changes.
    pub fn restore_session(
        &mut self,
        entries: Vec<(String, bool)>,
        saved_idx: Option<usize>,
    ) -> (r: Option<usize>)
        ensures
            ({
                let kept = kept_paths(entries@);
                if kept.len() == 0 {
                    &&& r is None
                    &&& final(self).playlist@ == old(self).playlist@
                    &&& final(self).current_idx == old(self).current_idx
                    &&& final(self).pending_open == old(self).pending_open
                } else {
                    let k = restored_index(entries@, saved_idx);
                    &&& r == Some(k as usize)
                    &&& final(self).playlist@ == kept
                    &&& final(self).current_idx == Some(k as usize)
                    &&& final(self).pending_open == Some(kept[k])
                }
            }),
            final(self).muted == old(self).muted,
            final(self).repeat_mode == old(self).repeat_mode,
            final(self).shuffle == old(self).shuffle,
            final(self).shuffle_order@ == old(self).shuffle_order@,
    {
        let mut kept: Vec<String> = Vec::new();
        let mut i: usize = 0;
        while i < entries.len()
            invariant
                i <= entries@.len(),
                kept@ == kept_paths(entries@.subrange(0, i as int)),
            decreases entries.len() - i,
        {
            assert(entries@.subrange(0, i + 1).drop_last() =~= entries@.subrange(0, i as int));
            if entries[i].1 {
                kept.push(entries[i].0.clone());
            }
            i = i + 1;
        }
        assert(entries@.subrange(0, entries@.len() as int) =~= entries@);
        if kept.len() == 0 {
            return None;
        }
        let mut idx: usize = 0;
        if let Some(si) = saved_idx {
            if si < entries.len() {
                let orig = &entries[si].0;
                let mut p: usize = 0;
                while p < kept.len() && !same_path(kept[p].as_str(), orig.as_str())
                    invariant
                        p <= kept@.len(),
                        path_position_from(kept@, orig@, 0) == path_position_from(
                            kept@,
                            orig@,
                            p as int,
                        ),
                    decreases kept.len() - p,
                {
                    p = p + 1;
                }
                if p < kept.len() {
                    idx = p;
                }
            }
        }
        let path = kept[idx].clone();
        self.playlist = kept;
        self.current_idx = Some(idx);
        self.pending_open = Some(path);
        Some(idx)
    }

    /// The playlist index that follows `current`, respecting shuffle order.
    pub fn effective_next_idx(&self, current: usize) -> (r: Option<usize>)
        ensures
            r == next_index(self.shuffle, self.playlist@.len(), self.shuffle_order@, current),
    {
        if !self.shuffle {
            if current < self.playlist.len() && current + 1 < self.playlist.len() {
                Some(current + 1)
            } else {
                None
            }
        } else {
            let n = self.shuffle_order.len();
            let mut p: usize = 0;
            while p < n && self.shuffle_order[p] != current
                invariant
                    p <= n,
                    n == self.shuffle_order@.len(),
                    position_of(self.shuffle_order@, current) == position_from(
                        self.shuffle_order@,
                        current,
                        p as int,
                    ),
                decreases n - p,
            {
                p = p + 1;
            }
            if p < n && p + 1 < n {
                Some(self.shuffle_order[p + 1])
            } else {
                None
            }
        }
    }
}

/// Ticks to wait after a track change before another automatic advance, so a
/// stale end-of-file flag does not skip a second track.
pub const ADVANCE_COOLDOWN_TICKS: u32 = 5;

/// Automatic advance to the next track at end of file, polled on a timer.
pub struct AutoAdvance {
    pub cooldown: u32,
}

impl AutoAdvance {
    pub fn new() -> (r: AutoAdvance)
        ensures
            r.cooldown == 0,
    {
        AutoAdvance { cooldown: 0 }
    }

    /// A track change was made by hand; hold automatic advance for a while.
    pub fn hold(&mut self)
        ensures
            final(self).cooldown == ADVANCE_COOLDOWN_TICKS,
    {
        self.cooldown = ADVANCE_COOLDOWN_TICKS;
    }

    /// One poll.  While cooling down, count down and do nothing.  Otherwise,
    /// when the file has ended and the player is not idle, move on (see
    /// [`advance_target`]: the next track respecting shuffle, or back to the
    /// start of a repeating playlist) and start a new cooldown if it moved.
    pub fn tick(&mut self, state: &mut PlayerState, eof: bool, idle: bool) -> (r: Option<
        (usize, String),
    >)
        ensures
            old(self).cooldown > 0 ==> {
                &&& final(self).cooldown == old(self).cooldown - 1
                &&& r is None
                &&& *final(state) == *old(state)
            },
            old(self).cooldown == 0 && !(eof && !idle) ==> {
                &&& final(self).cooldown == 0
                &&& r is None
                &&& *final(state) == *old(state)
            },
            old(self).cooldown == 0 && eof && !idle ==> {
                &&& moved_to(*old(state), *final(state), advance_target(*old(state)), r)
                &&& final(self).cooldown == if r is Some {
                    ADVANCE_COOLDOWN_TICKS
                } else {
                    0
                }
            },
    {
        if self.cooldown > 0 {
            self.cooldown = self.cooldown - 1;
            None
        } else if eof && !idle {
            let r = state.advance_track();
            if r.is_some() {
                self.cooldown = ADVANCE_COOLDOWN_TICKS;
            }
            r
        } else {
            None
        }
    }
}

/// With the playlist on repeat and no shuffle, playback at the end of track
/// `i` goes on to track `(i + 1) % n`: the next one, and after the last, the
/// first.
pub proof fn lemma_repeat_playlist_wraps(s: PlayerState, i: usize)
    requires
        s.repeat_mode == RepeatMode::Playlist,
        !s.shuffle,
        s.current_idx == Some(i),
        i < s.playlist@.len(),
        s.playlist@.len() <= usize::MAX,
    ensures
        advance_target(s) == Some(((i + 1) % (s.playlist@.len() as int)) as usize),
{
    let n = s.playlist@.len() as int;
    if i + 1 < n {
        vstd::arithmetic::div_mod::lemma_small_mod((i + 1) as nat, n as nat);
    } else {
        vstd::arithmetic::div_mod::lemma_mod_self_0(n);
    }
}

/// Following the next-track rule from the first entry of a shuffle order
/// visits the order entry by entry: from the entry at `k` it goes to the
/// entry at `k + 1`, and it stops after the last.
pub proof fn lemma_shuffle_walk(
    playlist_len: nat,
    order: Seq<usize>,
    k: int,
)
    requires
        order.no_duplicates(),
        0 <= k < order.len(),
    ensures
        next_index(true, playlist_len, order, order[k]) == if k + 1 < order.len() {
            Some(order[k + 1])
        } else {
            None
        },
{
    lemma_position_of_distinct(order, k);
}

/// Without shuffle, the track after `i` is `i + 1`, as long as the playlist
/// goes on; the previous track of `i + 1` is `i` again.
pub proof fn lemma_next_then_previous(len: nat, order: Seq<usize>, i: usize)
    requires
        i + 1 < len <= usize::MAX,
    ensures
        next_index(false, len, order, i) == Some((i + 1) as usize),
        previous_index(len, Some((i + 1) as usize)) == Some(i),
{
}

} // verus!
