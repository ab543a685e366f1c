use aurora_media::display::{
    accent_css, accent_hex, color_scheme_for, desktop_entry, format_remaining, format_time,
    ColorSchemeChoice,
};
use aurora_media::m3u::{parse_m3u, parse_remote_m3u};
use aurora_media::media::{
    media_kind, media_title, meaningful_error, stop_error, subtitle_selection, MediaKind,
    PlaybackState,
};
use aurora_media::mpris::{build_metadata, changed_signals, playback_status, MetadataValue, MprisSignal, MprisSnapshot};
use aurora_media::order::sort_playlist;
use aurora_media::recent::{
    collect_urls, expand_m3u_urls, push_recent, remove_recent, RecentEntry, RecentTracker,
    SavedPlaylists, RECENT_LIMIT,
};
use aurora_media::repeat::RepeatMode;
use aurora_media::shuffle::build_shuffle_order;
use aurora_media::state::{AutoAdvance, PlayerState, ADVANCE_COOLDOWN_TICKS};
use aurora_media::titles::{
    audio_title, is_m3u, is_placeholder_title, is_real_title, is_url, looks_like_m3u_url,
    now_playing, title_for_path, title_for_url, validate_url, UrlProblem,
};

fn strings(v: &[&str]) -> Vec<String> {
    v.iter().map(|s| s.to_string()).collect()
}

fn state_with(paths: &[&str]) -> PlayerState {
    let mut s = PlayerState::new();
    s.set_playlist(strings(paths));
    s
}

#[test]
fn repeat_mode_cycles_through_three_modes() {
    let m = RepeatMode::default();
    assert_eq!(m, RepeatMode::Off);
    assert_eq!(m.cycled(), RepeatMode::Playlist);
    assert_eq!(m.cycled().cycled(), RepeatMode::One);
    assert_eq!(m.cycled().cycled().cycled(), RepeatMode::Off);
}

#[test]
fn repeat_mode_presentation() {
    assert_eq!(RepeatMode::Off.loop_status(), "None");
    assert_eq!(RepeatMode::One.loop_status(), "Track");
    assert_eq!(RepeatMode::Playlist.loop_status(), "Playlist");
    assert_eq!(RepeatMode::Off.mpv_loop_values(), ("no", "no"));
    assert_eq!(RepeatMode::Playlist.mpv_loop_values(), ("no", "no"));
    assert_eq!(RepeatMode::One.mpv_loop_values(), ("no", "inf"));
    assert_eq!(RepeatMode::One.icon_name(), "media-playlist-repeat-song-symbolic");
    assert_eq!(RepeatMode::Off.icon_name(), "media-playlist-repeat-symbolic");
    assert!(!RepeatMode::Off.is_active());
    assert!(RepeatMode::One.is_active());
}

#[test]
fn shuffle_order_is_a_permutation_with_current_first() {
    for n in 0..40usize {
        for seed in [0u64, 1, 12345, 999_999_999, u64::MAX] {
            let cur = if n > 0 { Some(n / 2) } else { None };
            let order = build_shuffle_order(n, seed, cur);
            let mut sorted = order.clone();
            sorted.sort();
            assert_eq!(sorted, (0..n).collect::<Vec<_>>());
            if let Some(c) = cur {
                assert_eq!(order[0], c);
            }
        }
    }
}

#[test]
fn shuffle_order_matches_fisher_yates_with_lcg() {
    // Three tracks, seed 0: rng starts at 1.
    let mut order = vec![0usize, 1, 2];
    let mut rng: u64 = 1;
    for i in (1..3usize).rev() {
        rng = rng.wrapping_mul(6364136223846793005).wrapping_add(1442695040888963407);
        let j = ((rng >> 33) as usize) % (i + 1);
        order.swap(i, j);
    }
    assert_eq!(build_shuffle_order(3, 0, None), order);
}

#[test]
fn rebuild_shuffle_order_keeps_current_first() {
    let mut s = state_with(&["/a.mp3", "/b.mp3", "/c.mp3", "/d.mp3"]);
    s.current_idx = Some(2);
    s.rebuild_shuffle_order();
    assert_eq!(s.shuffle_order.len(), 4);
    assert_eq!(s.shuffle_order[0], 2);
    s.rebuild_shuffle_order_seeded(7);
    assert_eq!(s.shuffle_order, build_shuffle_order(4, 7, Some(2)));
    let mut empty = PlayerState::new();
    empty.rebuild_shuffle_order();
    assert!(empty.shuffle_order.is_empty());
}

#[test]
fn effective_next_without_and_with_shuffle() {
    let mut s = state_with(&["/a", "/b", "/c"]);
    assert_eq!(s.effective_next_idx(0), Some(1));
    assert_eq!(s.effective_next_idx(1), Some(2));
    assert_eq!(s.effective_next_idx(2), None);
    assert_eq!(s.effective_next_idx(usize::MAX), None);
    s.shuffle = true;
    s.shuffle_order = vec![2, 0, 1];
    assert_eq!(s.effective_next_idx(2), Some(0));
    assert_eq!(s.effective_next_idx(0), Some(1));
    assert_eq!(s.effective_next_idx(1), None);
    assert_eq!(s.effective_next_idx(5), None);
}

#[test]
fn shuffle_walk_visits_every_track_once() {
    let mut s = state_with(&["/a", "/b", "/c", "/d", "/e"]);
    s.shuffle = true;
    s.current_idx = Some(3);
    s.rebuild_shuffle_order_seeded(42);
    let mut seen = vec![3usize];
    let mut cur = 3usize;
    while let Some(n) = s.effective_next_idx(cur) {
        seen.push(n);
        cur = n;
    }
    seen.sort();
    assert_eq!(seen, vec![0, 1, 2, 3, 4]);
}

#[test]
fn set_playlist_selects_first_entry() {
    let mut s = PlayerState::new();
    s.set_playlist(strings(&["/x.mkv", "/y.mkv"]));
    assert_eq!(s.current_idx, Some(0));
    s.set_playlist(Vec::new());
    assert_eq!(s.current_idx, None);
}

#[test]
fn stepping_between_tracks() {
    let mut s = state_with(&["/a", "/b", "/c"]);
    assert_eq!(s.previous_track(), None);
    assert_eq!(s.step_forward(), Some((1, "/b".to_string())));
    assert_eq!(s.step_forward(), Some((2, "/c".to_string())));
    assert_eq!(s.step_forward(), None);
    assert_eq!(s.current_idx, Some(2));
    assert_eq!(s.previous_track(), Some((1, "/b".to_string())));
    assert_eq!(s.next_track(), Some((2, "/c".to_string())));
    assert_eq!(s.next_track(), None);
    s.current_idx = None;
    assert_eq!(s.next_track(), None);
    assert_eq!(s.previous_track(), None);
}

#[test]
fn next_then_previous_returns_to_same_track() {
    let mut s = state_with(&["/a", "/b", "/c", "/d"]);
    s.current_idx = Some(1);
    s.step_forward();
    s.previous_track();
    assert_eq!(s.current_idx, Some(1));
}

#[test]
fn activate_row_sets_current() {
    let mut s = state_with(&["/a", "/b"]);
    assert_eq!(s.activate_row(1), Some("/b".to_string()));
    assert_eq!(s.current_idx, Some(1));
    assert_eq!(s.activate_row(9), None);
    assert_eq!(s.current_idx, Some(9));
    assert_eq!(s.current_path(), None);
}

#[test]
fn mute_and_repeat_toggles() {
    let mut s = PlayerState::new();
    assert!(s.toggle_mute());
    assert!(!s.toggle_mute());
    assert_eq!(s.cycle_repeat(), RepeatMode::Playlist);
    assert_eq!(s.repeat_mode, RepeatMode::Playlist);
}

#[test]
fn navigation_availability_reported_over_mpris() {
    let mut s = state_with(&["/a", "/b", "/c"]);
    assert_eq!(s.navigation_availability(), (true, false));
    s.current_idx = Some(1);
    assert_eq!(s.navigation_availability(), (true, true));
    s.current_idx = Some(2);
    assert_eq!(s.navigation_availability(), (false, true));
    let e = PlayerState::new();
    assert_eq!(e.navigation_availability(), (false, false));
}

#[test]
fn session_restore_drops_missing_files() {
    let mut s = PlayerState::new();
    let entries = vec![
        ("/gone.mp4".to_string(), false),
        ("/a.mp4".to_string(), true),
        ("/b.mp4".to_string(), true),
    ];
    assert_eq!(s.restore_session(entries, Some(2)), Some(1));
    assert_eq!(s.playlist, strings(&["/a.mp4", "/b.mp4"]));
    assert_eq!(s.current_idx, Some(1));
    assert_eq!(s.pending_open, Some("/b.mp4".to_string()));
}

#[test]
fn session_restore_falls_back_to_first() {
    let mut s = PlayerState::new();
    let entries = vec![("/a.mp4".to_string(), true), ("/gone.mp4".to_string(), false)];
    assert_eq!(s.restore_session(entries, Some(1)), Some(0));
    assert_eq!(s.pending_open, Some("/a.mp4".to_string()));
    let mut t = PlayerState::new();
    assert_eq!(t.restore_session(vec![("/x".to_string(), false)], Some(0)), None);
    assert!(t.playlist.is_empty());
    assert_eq!(t.current_idx, None);
}

#[test]
fn auto_advance_waits_for_cooldown() {
    let mut s = state_with(&["/a", "/b", "/c"]);
    let mut adv = AutoAdvance::new();
    assert_eq!(adv.tick(&mut s, false, false), None);
    assert_eq!(adv.tick(&mut s, true, true), None);
    assert_eq!(adv.tick(&mut s, true, false), Some((1, "/b".to_string())));
    assert_eq!(adv.cooldown, ADVANCE_COOLDOWN_TICKS);
    for _ in 0..ADVANCE_COOLDOWN_TICKS {
        assert_eq!(adv.tick(&mut s, true, false), None);
    }
    assert_eq!(adv.tick(&mut s, true, false), Some((2, "/c".to_string())));
    adv.cooldown = 0;
    assert_eq!(adv.tick(&mut s, true, false), None);
    assert_eq!(adv.cooldown, 0);
    adv.hold();
    assert_eq!(adv.cooldown, 5);
}

#[test]
fn url_recognition_and_titles() {
    assert!(is_url("https://example.com/x"));
    assert!(is_url("http://example.com"));
    assert!(!is_url("ftp://example.com"));
    assert_eq!(title_for_url("https://www.youtube.com/watch?v=abc"), "www.youtube.com");
    assert_eq!(title_for_url("http://host?x=1"), "host");
    assert_eq!(title_for_url("example.com/x"), "URL");
    assert_eq!(title_for_path("https://twitch.tv/chan"), "twitch.tv");
    assert_eq!(title_for_path("/music/Song Name.flac"), "Song Name");
    assert_eq!(title_for_path("/"), "?");
}

#[test]
fn url_validation() {
    assert!(matches!(validate_url("example.com"), Some(UrlProblem::NotHttp)));
    assert!(matches!(validate_url("https://"), Some(UrlProblem::MissingHost)));
    assert!(matches!(validate_url("https://?q"), Some(UrlProblem::MissingHost)));
    assert!(validate_url("  https://example.com/a  ").is_none());
    assert_eq!(title_for_url("https://example.com/a"), "example.com");
    assert_eq!(UrlProblem::NotHttp.message(), "Must start with http:// or https://");
    assert_eq!(UrlProblem::MissingHost.message(), "Missing hostname");
}

#[test]
fn playlist_file_recognition() {
    assert!(looks_like_m3u_url("https://x.org/list.M3U8?token=1"));
    assert!(looks_like_m3u_url("http://x.org/a.m3u"));
    assert!(!looks_like_m3u_url("http://x.org/a.mp4?f=.m3u"));
    assert!(is_m3u("/home/u/list.M3U"));
    assert!(is_m3u("list.m3u8"));
    assert!(!is_m3u("/home/u/video.mp4"));
    assert!(!is_m3u("/home/u/m3u"));
}

#[test]
fn titles_while_loading() {
    assert_eq!(now_playing(None, "x"), ("Aurora".to_string(), String::new()));
    assert_eq!(now_playing(Some(""), "A"), ("Loading…".to_string(), "A".to_string()));
    assert_eq!(now_playing(Some("watch?v=abc"), "A").0, "Loading…");
    assert_eq!(now_playing(Some("https://y.com"), "A").0, "Loading…");
    assert_eq!(now_playing(Some("Real Title"), "Artist"), ("Real Title".to_string(), "Artist".to_string()));
    assert_eq!(audio_title(""), "Unknown Track");
    assert_eq!(audio_title("watch?v=1"), "Loading…");
    assert_eq!(audio_title("Song"), "Song");
}

#[test]
fn placeholder_titles() {
    assert!(is_placeholder_title("youtube.com", "youtube.com"));
    assert!(is_placeholder_title("https://youtube.com/watch?v=1", "youtube.com"));
    assert!(is_placeholder_title("watch?v=1", "youtube.com"));
    assert!(!is_placeholder_title("My Song", "youtube.com"));
    assert!(is_real_title("My Song?"));
    assert!(!is_real_title("watch?v=1"));
    assert!(!is_real_title("http://a"));
}

#[test]
fn local_m3u_parsing() {
    let text = "#EXTM3U\r\n#EXTINF:123, First Song \r\nsong1.mp3\n\n# comment\n/abs/song2.flac\nhttps://radio.example/stream\n#EXTINF:-1,\nrel/dir/three.ogg\n";
    let items = parse_m3u("/music/list.m3u", text);
    assert_eq!(
        items,
        vec![
            ("First Song".to_string(), "/music/song1.mp3".to_string()),
            ("song2".to_string(), "/abs/song2.flac".to_string()),
            ("radio.example".to_string(), "https://radio.example/stream".to_string()),
            ("three".to_string(), "/music/rel/dir/three.ogg".to_string()),
        ]
    );
    assert!(parse_m3u("/music/list.m3u", "").is_empty());
}

#[test]
fn remote_m3u_parsing() {
    let text = "#EXTM3U\n#EXTINF:-1 tvg-id=\"x\",Channel One\nhttp://cdn.example/one.m3u8\nnot-a-url\n#EXTINF:-1,Two\n#EXTVLCOPT:foo\nhttps://cdn.example/two\nhttps://host.example/three";
    let items = parse_remote_m3u(text);
    assert_eq!(
        items,
        vec![
            ("Channel One".to_string(), "http://cdn.example/one.m3u8".to_string()),
            ("Two".to_string(), "https://cdn.example/two".to_string()),
            ("host.example".to_string(), "https://host.example/three".to_string()),
        ]
    );
}

#[test]
fn expanding_address_lists() {
    let urls = strings(&["https://a.example/list.m3u", "https://b.example/video", "https://c.example/empty.m3u8"]);
    let fetched = vec![
        Some("#EXTINF:1,One\nhttps://s.example/1\nhttps://s.example/2\n".to_string()),
        None,
        Some("nothing here".to_string()),
    ];
    let items = expand_m3u_urls(&urls, &fetched);
    assert_eq!(
        items,
        vec![
            ("One".to_string(), "https://s.example/1".to_string()),
            ("s.example".to_string(), "https://s.example/2".to_string()),
            ("b.example".to_string(), "https://b.example/video".to_string()),
            ("c.example".to_string(), "https://c.example/empty.m3u8".to_string()),
        ]
    );
}

#[test]
fn recent_list_push_dedupes_and_caps() {
    let mut list: Vec<RecentEntry> = Vec::new();
    for i in 0..12 {
        list = push_recent(&list, &format!("/f{i}"), &format!("T{i}"));
    }
    assert_eq!(list.len(), RECENT_LIMIT);
    assert_eq!(list[0].path, "/f11");
    assert_eq!(list[9].path, "/f2");
    list = push_recent(&list, "/f5", "again");
    assert_eq!(list.len(), RECENT_LIMIT);
    assert_eq!(list[0].path, "/f5");
    assert_eq!(list[0].title, "again");
    assert_eq!(list.iter().filter(|e| e.path == "/f5").count(), 1);
    let removed = remove_recent(&list, "/f5");
    assert_eq!(removed.len(), RECENT_LIMIT - 1);
    assert!(removed.iter().all(|e| e.path != "/f5"));
}

#[test]
fn recent_tracker_records_files_and_waits_for_addresses() {
    let mut s = state_with(&["/m/a.mp3", "https://yt.example/watch?v=1"]);
    let mut t = RecentTracker::new();
    let e = t.playback_started(&s, None).unwrap();
    assert_eq!((e.path.as_str(), e.title.as_str()), ("/m/a.mp3", "a"));
    let e = t.playback_started(&s, Some("Tagged")).unwrap();
    assert_eq!(e.title, "Tagged");
    s.current_idx = Some(1);
    assert!(t.playback_started(&s, Some("x")).is_none());
    assert_eq!(t.pending_idx, Some(1));
    let titles = strings(&["a", "yt.example"]);
    assert_eq!(t.title_reported(&s, &titles, "watch?v=1").0, true);
    assert_eq!(t.pending_idx, Some(1));
    let (rename, rec) = t.title_reported(&s, &titles, "Real Video");
    assert!(rename);
    let rec = rec.unwrap();
    assert_eq!((rec.path.as_str(), rec.title.as_str()), ("https://yt.example/watch?v=1", "Real Video"));
    assert_eq!(t.pending_idx, None);
    t.playback_started(&s, None);
    let rec = t.playback_stopped(&s, &titles).unwrap();
    assert_eq!(rec.title, "yt.example");
    assert!(t.playback_stopped(&s, &titles).is_none());
}

#[test]
fn saved_playlists_upsert_and_delete() {
    let mut saved = SavedPlaylists::new();
    assert!(!saved.save(String::new(), strings(&["https://a"])));
    assert!(!saved.save("x".to_string(), Vec::new()));
    assert!(saved.save("News".to_string(), strings(&["https://a"])));
    assert!(saved.save("Music".to_string(), strings(&["https://b"])));
    assert!(saved.save("News".to_string(), strings(&["https://c", "https://d"])));
    assert_eq!(saved.playlists.len(), 2);
    assert_eq!(saved.playlists[0].urls, strings(&["https://c", "https://d"]));
    assert_eq!(saved.visible("  News "), vec![1]);
    saved.delete("News");
    assert_eq!(saved.playlists.len(), 1);
    assert_eq!(saved.playlists[0].name, "Music");
    assert_eq!(collect_urls(&strings(&["  https://a ", "", "   ", "b"])), strings(&["https://a", "b"]));
}

#[test]
fn playlist_sorting_by_name() {
    let paths = strings(&["/x/b.mp3", "/y/A.mp3", "/z/c.mp3", "/w/a.mp3"]);
    assert_eq!(sort_playlist(&paths), strings(&["/y/A.mp3", "/w/a.mp3", "/x/b.mp3", "/z/c.mp3"]));
    let urls = strings(&["https://b", "https://a"]);
    assert_eq!(sort_playlist(&urls), urls);
    assert!(sort_playlist(&Vec::new()).is_empty());
}

#[test]
fn media_classification() {
    assert_eq!(media_kind("/a/b.MKV"), Some(MediaKind::Video));
    assert_eq!(media_kind("/a/b.flac"), Some(MediaKind::Audio));
    assert_eq!(media_kind("/a/b.txt"), None);
    assert_eq!(media_kind("/a/b"), None);
    assert_eq!(media_title("/a/My Clip.mp4"), "My Clip");
    assert_eq!(media_title("/"), "Unknown");
    assert_eq!(meaningful_error(String::new()), None);
    assert_eq!(meaningful_error("(empty)".to_string()), None);
    assert_eq!(meaningful_error("loading failed".to_string()), Some("loading failed".to_string()));
    assert_eq!(subtitle_selection(0), None);
    assert_eq!(subtitle_selection(3), Some(3));
    assert_eq!(stop_error(false, true, false, None), Some("Could not open the media source.".to_string()));
    assert_eq!(stop_error(false, true, false, Some("e".to_string())), Some("e".to_string()));
    assert_eq!(stop_error(true, true, false, None), None);
    assert_eq!(stop_error(false, true, true, None), None);
}

#[test]
fn time_formatting() {
    assert_eq!(format_time(0), "0:00");
    assert_eq!(format_time(59), "0:59");
    assert_eq!(format_time(61), "1:01");
    assert_eq!(format_time(3599), "59:59");
    assert_eq!(format_time(3600), "1:00:00");
    assert_eq!(format_time(36061), "10:01:01");
    assert_eq!(format_remaining(75), "-1:15");
    assert_eq!(format_time(u64::MAX), format!("{}:{:02}:{:02}", u64::MAX / 3600, (u64::MAX % 3600) / 60, u64::MAX % 60));
}

#[test]
fn accent_and_scheme() {
    assert_eq!(accent_hex("blue"), Some("#3584e4"));
    assert_eq!(accent_hex("slate"), Some("#6f8396"));
    assert_eq!(accent_hex("default"), None);
    assert_eq!(
        accent_css("#3584e4"),
        "@define-color accent_color #3584e4; @define-color accent_bg_color #3584e4; @define-color accent_fg_color #ffffff;"
    );
    assert_eq!(color_scheme_for("light"), ColorSchemeChoice::ForceLight);
    assert_eq!(color_scheme_for("dark"), ColorSchemeChoice::ForceDark);
    assert_eq!(color_scheme_for("system"), ColorSchemeChoice::Default);
    assert_eq!(desktop_entry(Some("aurora")), "aurora_aurora-media-player");
    assert_eq!(desktop_entry(None), "io.github.daniacosta_dev.AuroraMediaPlayer");
}

#[test]
fn mpris_values() {
    assert_eq!(playback_status(true, false), "Stopped");
    assert_eq!(playback_status(false, true), "Paused");
    assert_eq!(playback_status(false, false), "Playing");
    let m = build_metadata("T", "", "Al", "", 5);
    let keys: Vec<&str> = m.iter().map(|(k, _)| k.as_str()).collect();
    assert_eq!(keys, vec!["mpris:trackid", "xesam:title", "xesam:album", "mpris:length"]);
    let m = build_metadata("T", "Ar", "", "file:///c.png", 0);
    match &m[2].1 {
        MetadataValue::TextList(l) => assert_eq!(l, &strings(&["Ar"])),
        _ => panic!("artist must be a list"),
    }
    assert_eq!(m[3].0, "mpris:artUrl");
    assert_eq!(m.len(), 4);
}

#[test]
fn mpris_change_signals() {
    let a = MprisSnapshot {
        playback_status: "Playing".into(),
        loop_status: "None".into(),
        title: "T".into(),
        artist: String::new(),
        album: String::new(),
        art_url: String::new(),
        position_us: 0,
        duration_us: 10,
        can_go_next: true,
        can_go_previous: false,
    };
    let mut b = a.clone();
    b.position_us = 99;
    assert!(changed_signals(&a, &b, false).is_empty());
    b.title = "U".into();
    b.loop_status = "Track".into();
    b.can_go_previous = true;
    assert_eq!(
        changed_signals(&a, &b, true),
        vec![MprisSignal::Metadata, MprisSignal::CanGoPrevious, MprisSignal::LoopStatus, MprisSignal::Volume]
    );
}

#[test]
fn playback_state_equality() {
    assert_eq!(PlaybackState::Idle, PlaybackState::Idle);
    assert_ne!(PlaybackState::Idle, PlaybackState::Paused);
    assert_eq!(PlaybackState::Error("x".into()), PlaybackState::Error("x".into()));
    assert_ne!(PlaybackState::Error("x".into()), PlaybackState::Error("y".into()));
}

#[test]
fn repeat_playlist_wraps_to_first_track() {
    let mut s = state_with(&["/a", "/b", "/c"]);
    s.current_idx = Some(2);
    let mut adv = AutoAdvance::new();
    assert_eq!(adv.tick(&mut s, true, false), None);
    s.repeat_mode = RepeatMode::Playlist;
    assert_eq!(adv.tick(&mut s, true, false), Some((0, "/a".to_string())));
    assert_eq!(s.current_idx, Some(0));
    adv.cooldown = 0;
    assert_eq!(adv.tick(&mut s, true, false), Some((1, "/b".to_string())));
    s.shuffle = true;
    s.shuffle_order = vec![2, 0, 1];
    s.current_idx = Some(1);
    adv.cooldown = 0;
    assert_eq!(adv.tick(&mut s, true, false), Some((2, "/c".to_string())));
    assert_eq!(s.next_track(), Some((0, "/a".to_string())));
}

#[test]
fn playlist_sorting_is_natural() {
    let paths = strings(&["/s/Ep10.mkv", "/s/ep2.mkv", "/s/ep1.mkv", "/s/ep02b.mkv", "/s/ep-x.mkv"]);
    assert_eq!(
        sort_playlist(&paths),
        strings(&["/s/ep-x.mkv", "/s/ep1.mkv", "/s/ep2.mkv", "/s/ep02b.mkv", "/s/Ep10.mkv"])
    );
}

#[test]
fn session_restore_compares_paths_by_component() {
    let mut s = PlayerState::new();
    let entries = vec![
        ("/m//a.mp4".to_string(), true),
        ("/m/b.mp4".to_string(), true),
        ("/m/a.mp4".to_string(), true),
    ];
    assert_eq!(s.restore_session(entries, Some(2)), Some(0));
}
