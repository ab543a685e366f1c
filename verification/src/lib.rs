//! The playback logic of the Aurora media player: playlist and queue state,
//! playlist files, track titles, recent files, saved URL playlists and the
//! values the player reports to the desktop.
use vstd::prelude::*;

pub mod display;
pub mod m3u;
pub mod media;
pub mod mpris;
pub mod order;
pub mod recent;
pub mod repeat;
pub mod shuffle;
pub mod state;
pub mod text;
pub mod titles;

verus! {

} // verus!
