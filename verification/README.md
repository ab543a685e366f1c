# aurora_media

The playback logic of the Aurora media player (a GTK4 / libadwaita front end
for mpv), as a library verified with Verus, and the desktop application
around it.

- `src/` — the verified library:
  - `state` — the playlist, the current track, mute, repeat and shuffle; moves
    between tracks, automatic advance at end of file, session restore.
  - `shuffle` — the shuffled play order (Fisher–Yates with a linear
    congruential generator, current track first).
  - `order` — playlists sorted by file name, ignoring case, stable.
  - `m3u` — M3U / M3U8 playlist text, local files and fetched playlists.
  - `titles` — recognising addresses and the titles shown for entries.
  - `recent` — the recent-files list, saved address playlists, expansion of
    address lists that contain playlists, and when played entries are recorded.
  - `media` — media kinds by extension and values reported by the player.
  - `mpris` — what is reported over the MPRIS media-control interface.
  - `display` — elapsed-time labels, accent colour, colour scheme, desktop entry.
  - `repeat`, `text` — repeat modes; character-level helpers.
- `app/` — the GTK application: windows and widgets, mpv and its OpenGL
  render context, the D-Bus server, files on disk, and the floating-point
  work (positions, volume).
- `tests/` — tests of the library.
