//! What the player reports over the MPRIS media-control interface.
use vstd::prelude::*;
use crate::text::chars_of;

verus! {

/// The MPRIS `PlaybackStatus`: stopped while idle, else paused or playing.
pub fn playback_status(idle: bool, paused: bool) -> (r: &'static str)
    ensures
        r == if idle {
            "Stopped"
        } else if paused {
            "Paused"
        } else {
            "Playing"
        },
{
    if idle {
        "Stopped"
    } else if paused {
        "Paused"
    } else {
        "Playing"
    }
}

/// A metadata value, in the D-Bus type it is sent as.
#[derive(Debug, Clone)]
pub enum MetadataValue {
    /// An object path (`o`).
    ObjectPath(String),
    /// A string (`s`).
    Text(String),
    /// An array of strings (`as`).
    TextList(Vec<String>),
    /// A 64-bit integer (`x`).
    Int(i64),
}

/// The characters of a metadata value (for a list, of each string).
pub enum MetadataView {
    ObjectPath(Seq<char>),
    Text(Seq<char>),
    TextList(Seq<Seq<char>>),
    Int(i64),
}

pub open spec fn metadata_view(v: MetadataValue) -> MetadataView {
    match v {
        MetadataValue::ObjectPath(s) => MetadataView::ObjectPath(s@),
        MetadataValue::Text(s) => MetadataView::Text(s@),
        MetadataValue::TextList(l) => MetadataView::TextList(l@.map_values(|s: String| s@)),
        MetadataValue::Int(i) => MetadataView::Int(i),
    }
}

pub open spec fn metadata_views(m: Seq<(String, MetadataValue)>) -> Seq<(Seq<char>, MetadataView)> {
    m.map_values(|e: (String, MetadataValue)| (e.0@, metadata_view(e.1)))
}

/// The track metadata: the no-track id and the title always; the artist
/// (as a one-element list), album and cover-art address when not empty; the
/// length when positive.
pub open spec fn metadata_spec(
    title: Seq<char>,
    artist: Seq<char>,
    album: Seq<char>,
    art_url: Seq<char>,
    duration_us: i64,
) -> Seq<(Seq<char>, MetadataView)> {
    let base = seq![
        ("mpris:trackid"@, MetadataView::ObjectPath("/org/mpris/MediaPlayer2/TrackList/NoTrack"@)),
        ("xesam:title"@, MetadataView::Text(title)),
    ];
    let with_artist = if artist.len() > 0 {
        base.push(("xesam:artist"@, MetadataView::TextList(seq![artist])))
    } else {
        base
    };
    let with_album = if album.len() > 0 {
        with_artist.push(("xesam:album"@, MetadataView::Text(album)))
    } else {
        with_artist
    };
    let with_art = if art_url.len() > 0 {
        with_album.push(("mpris:artUrl"@, MetadataView::Text(art_url)))
    } else {
        with_album
    };
    if duration_us > 0 {
        with_art.push(("mpris:length"@, MetadataView::Int(duration_us)))
    } else {
        with_art
    }
}

/// Build the track metadata; see [`metadata_spec`].
pub fn build_metadata(
    title: &str,
    artist: &str,
    album: &str,
    art_url: &str,
    duration_us: i64,
) -> (r: Vec<(String, MetadataValue)>)
    ensures
        metadata_views(r@) == metadata_spec(title@, artist@, album@, art_url@, duration_us),
{
    let mut m: Vec<(String, MetadataValue)> = Vec::new();
    m.push(
        (
            "mpris:trackid".to_string(),
            MetadataValue::ObjectPath("/org/mpris/MediaPlayer2/TrackList/NoTrack".to_string()),
        ),
    );
    m.push(("xesam:title".to_string(), MetadataValue::Text(title.to_string())));
    let ghost base = metadata_views(m@);
    if chars_of(artist).len() > 0 {
        let mut list: Vec<String> = Vec::new();
        list.push(artist.to_string());
        m.push(("xesam:artist".to_string(), MetadataValue::TextList(list)));
        assert(list@.map_values(|s: String| s@) =~= seq![artist@]);
    }
    if chars_of(album).len() > 0 {
        m.push(("xesam:album".to_string(), MetadataValue::Text(album.to_string())));
    }
    if chars_of(art_url).len() > 0 {
        m.push(("mpris:artUrl".to_string(), MetadataValue::Text(art_url.to_string())));
    }
    if duration_us > 0 {
        m.push(("mpris:length".to_string(), MetadataValue::Int(duration_us)));
    }
    assert(metadata_views(m@) =~= metadata_spec(title@, artist@, album@, art_url@, duration_us));
    m
}

/// The parts of the player's state that MPRIS clients watch, other than the
/// volume.
#[derive(Debug, Clone)]
pub struct MprisSnapshot {
    pub playback_status: String,
    pub loop_status: String,
    pub title: String,
    pub artist: String,
    pub album: String,
    pub art_url: String,
    pub position_us: i64,
    pub duration_us: i64,
    pub can_go_next: bool,
    pub can_go_previous: bool,
}

/// A property whose change is signalled to MPRIS clients.
#[derive(Debug, Clone, Copy, PartialEq, Eq, Structural)]
pub enum MprisSignal {
    PlaybackStatus,
    Metadata,
    CanGoNext,
    CanGoPrevious,
    LoopStatus,
    Volume,
}

/// The change signals owed between two snapshots, in this order: playback
/// status; metadata when the title, artist, album, cover art or length
/// changed; can-go-next; can-go-previous; loop status; volume when it moved.
/// The position is polled by clients and never signalled.
pub open spec fn signals_spec(prev: MprisSnapshot, cur: MprisSnapshot, volume_moved: bool) -> Seq<
    MprisSignal,
> {
    let s0: Seq<MprisSignal> = seq![];
    let s1 = if cur.playback_status@ != prev.playback_status@ {
        s0.push(MprisSignal::PlaybackStatus)
    } else {
        s0
    };
    let s2 = if cur.title@ != prev.title@ || cur.artist@ != prev.artist@ || cur.album@
        != prev.album@ || cur.art_url@ != prev.art_url@ || cur.duration_us != prev.duration_us {
        s1.push(MprisSignal::Metadata)
    } else {
        s1
    };
    let s3 = if cur.can_go_next != prev.can_go_next {
        s2.push(MprisSignal::CanGoNext)
    } else {
        s2
    };
    let s4 = if cur.can_go_previous != prev.can_go_previous {
        s3.push(MprisSignal::CanGoPrevious)
    } else {
        s3
    };
    let s5 = if cur.loop_status@ != prev.loop_status@ {
        s4.push(MprisSignal::LoopStatus)
    } else {
        s4
    };
    if volume_moved {
        s5.push(MprisSignal::Volume)
    } else {
        s5
    }
}

/// Which change signals to emit after the state went from `prev` to `cur`;
/// `volume_moved` says whether the volume changed noticeably.
pub fn changed_signals(prev: &MprisSnapshot, cur: &MprisSnapshot, volume_moved: bool) -> (r: Vec<
    MprisSignal,
>)
    ensures
        r@ == signals_spec(*prev, *cur, volume_moved),
{
    let mut r: Vec<MprisSignal> = Vec::new();
    if !(cur.playback_status == prev.playback_status) {
        r.push(MprisSignal::PlaybackStatus);
    }
    if !(cur.title == prev.title) || !(cur.artist == prev.artist) || !(cur.album == prev.album)
        || !(cur.art_url == prev.art_url) || cur.duration_us != prev.duration_us {
        r.push(MprisSignal::Metadata);
    }
    if cur.can_go_next != prev.can_go_next {
        r.push(MprisSignal::CanGoNext);
    }
    if cur.can_go_previous != prev.can_go_previous {
        r.push(MprisSignal::CanGoPrevious);
    }
    if !(cur.loop_status == prev.loop_status) {
        r.push(MprisSignal::LoopStatus);
    }
    if volume_moved {
        r.push(MprisSignal::Volume);
    }
    assert(r@ =~= signals_spec(*prev, *cur, volume_moved));
    r
}

/// Nothing is signalled between a snapshot and itself, unless the volume
/// moved.
pub proof fn lemma_no_change_no_signal(s: MprisSnapshot)
    ensures
        signals_spec(s, s, false).len() == 0,
        signals_spec(s, s, true) == seq![MprisSignal::Volume],
{
    assert(signals_spec(s, s, true) =~= seq![MprisSignal::Volume]);
}

/// A signal is sent for exactly the properties that changed: playback
/// status, loop status, can-go-next and can-go-previous each when it
/// differs; metadata when the title, artist, album, cover art or length
/// differs; the volume when it moved.  No signal is sent twice.
pub proof fn lemma_signals_exactly_changes(
    prev: MprisSnapshot,
    cur: MprisSnapshot,
    volume_moved: bool,
)
    ensures
        signals_spec(prev, cur, volume_moved).contains(MprisSignal::PlaybackStatus) <==> (
        prev.playback_status@ != cur.playback_status@),
        signals_spec(prev, cur, volume_moved).contains(MprisSignal::Metadata) <==> (prev.title@
            != cur.title@ || prev.artist@ != cur.artist@ || prev.album@ != cur.album@
            || prev.art_url@ != cur.art_url@ || prev.duration_us != cur.duration_us),
        signals_spec(prev, cur, volume_moved).contains(MprisSignal::CanGoNext) <==> (
        prev.can_go_next != cur.can_go_next),
        signals_spec(prev, cur, volume_moved).contains(MprisSignal::CanGoPrevious) <==> (
        prev.can_go_previous != cur.can_go_previous),
        signals_spec(prev, cur, volume_moved).contains(MprisSignal::LoopStatus) <==> (
        prev.loop_status@ != cur.loop_status@),
        signals_spec(prev, cur, volume_moved).contains(MprisSignal::Volume) <==> volume_moved,
        signals_spec(prev, cur, volume_moved).no_duplicates(),
{
    broadcast use vstd::seq_lib::group_seq_properties;

    let r = signals_spec(prev, cur, volume_moved);
    assert forall|a: int, b: int| 0 <= a < b < r.len() implies r[a] != r[b] by {
        lemma_signal_rank_increasing(prev, cur, volume_moved, a, b);
    }
}

/// The place of each signal in the fixed order they are reported in.
spec fn signal_rank(s: MprisSignal) -> int {
    match s {
        MprisSignal::PlaybackStatus => 0,
        MprisSignal::Metadata => 1,
        MprisSignal::CanGoNext => 2,
        MprisSignal::CanGoPrevious => 3,
        MprisSignal::LoopStatus => 4,
        MprisSignal::Volume => 5,
    }
}

proof fn lemma_signal_rank_increasing(
    prev: MprisSnapshot,
    cur: MprisSnapshot,
    volume_moved: bool,
    a: int,
    b: int,
)
    requires
        0 <= a < b < signals_spec(prev, cur, volume_moved).len(),
    ensures
        signal_rank(signals_spec(prev, cur, volume_moved)[a]) < signal_rank(
            signals_spec(prev, cur, volume_moved)[b],
        ),
{
}

} // verus!
