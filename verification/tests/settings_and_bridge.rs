use sparkplayer::config::{fixed_format, parse_fixed, round_trip_safe, Config, RECENT_CAP};
use sparkplayer::library::TrackRef;
use sparkplayer::metadata::TrackMeta;
use sparkplayer::native::{media_title, GraphicsChoice, MediaSync, NativeConfigStore, NativeLibrary};
use sparkplayer::shared_audio::{
    decode_control, in_progress_marker, metadata_field, normalize_posix_name, normalize_windows_name,
    ring_slot, session_generation, stream_generation, ControlMarks, ControlWords,
};
use sparkplayer::app::Rect;
use sparkplayer::backend::{CoreKey, CoreKeyEvent};
use sparkplayer::web::{
    extra_for, inset_one, manifest_tracks, map_keyboard_event, should_prevent_default,
    LocalStorageConfig, ManifestEntry, WebLibrary,
};

fn chars(s: &str) -> Vec<char> {
    s.chars().collect()
}

#[test]
fn decimals_read_as_thousandths() {
    assert_eq!(parse_fixed(&chars("0.65"), 1500), Some((false, 650)));
    assert_eq!(parse_fixed(&chars("-1.5"), 1500), Some((true, 1500)));
    assert_eq!(parse_fixed(&chars("+2"), 5000), Some((false, 2000)));
    assert_eq!(parse_fixed(&chars(".5"), 5000), Some((false, 500)));
    assert_eq!(parse_fixed(&chars("5."), 9000), Some((false, 5000)));
    assert_eq!(parse_fixed(&chars("1.23456"), 9000), Some((false, 1234)));
    assert_eq!(parse_fixed(&chars("99999999999999999999"), 1500), Some((false, 1500)));
    assert_eq!(parse_fixed(&chars(""), 1500), None);
    assert_eq!(parse_fixed(&chars("."), 1500), None);
    assert_eq!(parse_fixed(&chars("1e3"), 1500), Some((false, 1500)));
    assert_eq!(parse_fixed(&chars("1.2.3"), 1500), None);
}

#[test]
fn thousandths_written_as_shortest_decimals() {
    let f = |v: u64| fixed_format(v).into_iter().collect::<String>();
    assert_eq!(f(650), "0.65");
    assert_eq!(f(1000), "1");
    assert_eq!(f(42_500), "42.5");
    assert_eq!(f(1), "0.001");
    assert_eq!(f(10), "0.01");
    assert_eq!(f(0), "0");
    for v in [0u64, 7, 99, 100, 1001, 1500, 123_456] {
        assert_eq!(parse_fixed(&fixed_format(v), u64::MAX), Some((false, v)));
    }
}

#[test]
fn settings_lines_read_leniently() {
    let text = "# comment\n\n  theme = \"\"\"x\"\"\"  \nnoequals\nunknown = 5\nvolume = -3\nposition_secs = 12.3456\nshuffle = on\nrepeat = ONE\nlast_dir = \"\"\nplaying_index = 4\nplaying_index = abc\nplaycount = \" 7 | /p \"\nplaycount = \"x|/q\"\ntrack = \"\"\ntrack = /a.mp3\nfft_size = 2048\nscroll_speed = -1\n";
    let c = Config::parse(text);
    assert_eq!(c.theme, "x");
    assert_eq!(c.volume, 0);
    assert_eq!(c.position_ms, 12_345);
    assert!(c.shuffle);
    assert_eq!(c.repeat, "one");
    assert_eq!(c.last_dir, None);
    assert_eq!(c.playing_index, None);
    assert_eq!(c.play_counts, vec![("/p".to_string(), 7)]);
    assert_eq!(c.playlist, vec!["/a.mp3".to_string()]);
    assert_eq!(c.fft_size, 2048);
    assert_eq!(c.scroll_speed, 30);
    let c = Config::parse("shuffle = yes\r\nvolume = 1.25\r\n");
    assert!(!c.shuffle);
    assert_eq!(c.volume, 1250);
}

#[test]
fn recent_entries_are_capped_when_read() {
    let mut text = String::new();
    for i in 0..60 {
        text.push_str(&format!("recent = \"/r{i}\"\n"));
    }
    let c = Config::parse(&text);
    assert_eq!(c.recent.len(), RECENT_CAP);
    assert_eq!(c.recent[49], "/r49");
}

#[test]
fn defaults_and_stores() {
    let c = Config::default();
    assert_eq!(c.theme, "default");
    assert_eq!(c.volume, 800);
    assert_eq!(c.visualizer, "spectrum");
    assert_eq!(c.fft_size, 1024);
    assert_eq!(c.scroll_speed, 30);
    assert_eq!(NativeConfigStore::load_from(None), c);
    assert_eq!(LocalStorageConfig::load_from(None), c);
    let loaded = NativeConfigStore::load_from(Some("theme = \"nord\""));
    assert_eq!(loaded.theme, "nord");
    let text = LocalStorageConfig::text_to_save(&loaded);
    assert_eq!(NativeConfigStore::text_to_save(&loaded), text);
    assert_eq!(Config::parse(&text), loaded);
}

#[test]
fn serialized_text_layout() {
    let mut c = Config::default();
    c.playing_index = Some(2);
    c.play_counts = vec![("/a".to_string(), 3)];
    let text = c.serialize();
    let lines: Vec<&str> = text.lines().collect();
    assert!(lines[0].starts_with("# SparkPlayer configuration"));
    assert_eq!(lines[1], "theme = \"default\"");
    assert_eq!(lines[2], "volume = 0.8");
    assert_eq!(lines[7], "shuffle = false");
    assert_eq!(lines[8], "playing_index = 2");
    assert_eq!(lines[9], "position_secs = 0");
    assert_eq!(lines[10], "playcount = \"3|/a\"");
    assert!(text.ends_with('\n'));
}

#[test]
fn round_trip_safety_check() {
    let mut c = Config::default();
    assert!(round_trip_safe(&c));
    c.theme = "two\nlines".to_string();
    assert!(!round_trip_safe(&c));
    c.theme = "plain".to_string();
    c.repeat = "twice".to_string();
    assert!(!round_trip_safe(&c));
    c.repeat = "one".to_string();
    c.recent = (0..51).map(|i| format!("/r{i}")).collect();
    assert!(!round_trip_safe(&c));
    c.recent.truncate(50);
    c.play_counts = vec![(" /padded".to_string(), 1)];
    assert!(!round_trip_safe(&c));
    c.play_counts = vec![("/ok".to_string(), 1)];
    assert!(round_trip_safe(&c));
    assert_eq!(Config::parse(&c.serialize()), c);
}

#[test]
fn stream_names() {
    assert_eq!(normalize_posix_name(""), "/sparkplayer_audio");
    assert_eq!(normalize_posix_name("/my stream"), "/my_stream");
    assert_eq!(normalize_posix_name("C:\\dir\\name.x"), "/name.x");
    assert_eq!(normalize_posix_name("a/b/"), "/sparkplayer_audio");
    assert_eq!(normalize_posix_name("  weird*name  "), "/weird_name");
    assert_eq!(normalize_windows_name("local\\SPARKPLAYERAUDIO"), "Local\\SparkPlayerAudio");
    assert_eq!(normalize_windows_name("Global\\x"), "Global\\x");
    assert_eq!(normalize_windows_name("/sparkplayer_audio"), "Local\\SparkPlayerAudio");
    assert_eq!(normalize_windows_name("my name"), "Local\\my_name");
    assert_eq!(normalize_windows_name(""), "Local\\SparkPlayerAudio");
    assert_eq!(normalize_windows_name("a:"), "Local\\SparkPlayerAudio");
}

#[test]
fn control_words_are_acted_on_once() {
    let w = ControlWords {
        transport_sequence: 1,
        transport_state: 2,
        visualizer_sequence: 3,
        visualizer_delta: 40,
        track_sequence: 1,
        track_action: 2,
    };
    let (c, marks) = decode_control(w, ControlMarks { transport: 0, visualizer: 0, track: 0 });
    assert_eq!(c.playback, Some(false));
    assert_eq!(c.visualizer_delta, 16);
    assert!(c.previous_track);
    assert!(!c.next_track);
    let (again, _) = decode_control(w, marks);
    assert_eq!(again.playback, None);
    assert_eq!(again.visualizer_delta, 0);
    assert!(!again.previous_track);
}

#[test]
fn generations_and_ring_slots() {
    assert_eq!(session_generation(true, 7), 8);
    assert_eq!(session_generation(false, 7), 2);
    assert_eq!(session_generation(true, u64::MAX), 2);
    assert_eq!(stream_generation(8), 10);
    assert_eq!(stream_generation(u64::MAX - 1), 0);
    assert_eq!(in_progress_marker(8), 7);
    assert_eq!(ring_slot(10, 4), (2, 4));
}

#[test]
fn short_metadata_is_zero_padded() {
    let f = metadata_field("abc");
    assert_eq!(f.len(), 128);
    assert_eq!(&f[..4], &[b'a', b'b', b'c', 0]);
    assert!(f[3..].iter().all(|&b| b == 0));
    let long = "x".repeat(300);
    let f = metadata_field(&long);
    assert_eq!(f.iter().position(|&b| b == 0), Some(127));
}

#[test]
fn media_sync_publishes_on_change() {
    let mut m = MediaSync::new();
    let t = "Song".to_string();
    let a = "Band".to_string();
    let p = m.plan(Some(0), &t, &a, false, 0);
    assert!(p.metadata);
    assert_eq!(p.playback, Some(Some(false)));
    let p = m.plan(Some(0), &t, &a, false, 500);
    assert!(!p.metadata);
    assert_eq!(p.playback, None);
    let p = m.plan(Some(0), &t, &a, false, 1000);
    assert_eq!(p.playback, Some(Some(false)));
    let p = m.plan(Some(0), &t, &a, true, 1100);
    assert_eq!(p.playback, Some(Some(true)));
    let p = m.plan(None, &t, &a, true, 1200);
    assert!(!p.metadata);
    assert_eq!(p.playback, Some(None));
    assert_eq!(media_title(None, Some("d".to_string())), "d");
    assert_eq!(media_title(Some("t".to_string()), Some("d".to_string())), "t");
    assert_eq!(media_title(None, None), "");
}

#[test]
fn browser_lists_media_and_folders() {
    assert!(!NativeLibrary::browser_keeps(".hidden", "/x/.hidden", true));
    assert!(NativeLibrary::browser_keeps("music", "/x/music", true));
    assert!(NativeLibrary::browser_keeps("a.mp3", "/x/a.mp3", false));
    assert!(NativeLibrary::browser_keeps("list.M3U", "/x/list.M3U", false));
    assert!(!NativeLibrary::browser_keeps("a.txt", "/x/a.txt", false));
    assert!(GraphicsChoice::Kitty.is_forced());
    assert!(!GraphicsChoice::Auto.is_forced());
}

#[test]
fn web_library_uses_the_latest_tags() {
    let mut first = TrackMeta::default();
    first.title = Some("old".to_string());
    let mut second = TrackMeta::default();
    second.title = Some("new".to_string());
    second.duration_ms = Some(61_000);
    let lib = WebLibrary::new(vec![
        ("blob:1".to_string(), first),
        ("blob:1".to_string(), second),
    ]);
    let m = lib.read_metadata(&TrackRef::Url("blob:1".to_string(), "x".to_string()));
    assert_eq!(m.title.as_deref(), Some("new"));
    assert_eq!(m.duration_ms, Some(61_000));
    let none = lib.read_metadata(&TrackRef::Path("/other".to_string()));
    assert!(none.title.is_none());
}

#[test]
fn browser_keys_map_to_player_keys() {
    assert_eq!(map_keyboard_event("ArrowUp", false), CoreKeyEvent::new(CoreKey::Up));
    assert_eq!(map_keyboard_event("PageDown", true), CoreKeyEvent::with_ctrl(CoreKey::PageDown, true));
    assert_eq!(map_keyboard_event("Escape", false), CoreKeyEvent::new(CoreKey::Esc));
    assert_eq!(map_keyboard_event("q", false), CoreKeyEvent::new(CoreKey::Char('q')));
    assert_eq!(map_keyboard_event("\u{e9}", false), CoreKeyEvent::new(CoreKey::Char('\u{e9}')));
    assert_eq!(map_keyboard_event("Shift", false), CoreKeyEvent::new(CoreKey::Other));
    assert_eq!(map_keyboard_event("Backspace", false), CoreKeyEvent::new(CoreKey::Other));
    assert!(should_prevent_default(CoreKey::Tab));
    assert!(should_prevent_default(CoreKey::Char(' ')));
    assert!(!should_prevent_default(CoreKey::Char('q')));
    assert!(!should_prevent_default(CoreKey::Enter));
}

#[test]
fn overlay_insets_saturate() {
    let r = inset_one(Rect { x: 3, y: 4, width: 10, height: 1 });
    assert_eq!(r, Rect { x: 4, y: 5, width: 8, height: 0 });
    let r = inset_one(Rect { x: u16::MAX, y: 0, width: 0, height: 2 });
    assert_eq!(r, Rect { x: u16::MAX, y: 1, width: 0, height: 0 });
}

fn entry(url: Option<&str>, title: Option<&str>, art: Option<&str>, subs: Option<&str>) -> ManifestEntry {
    ManifestEntry {
        url: url.map(String::from),
        title: title.map(String::from),
        artwork: art.map(String::from),
        subtitles: subs.map(String::from),
    }
}

#[test]
fn manifest_lists_tracks_and_extras() {
    let entries = vec![
        entry(Some("a.mp3"), Some("Song A"), Some("a.jpg"), None),
        entry(None, Some("no url"), Some("x.jpg"), None),
        entry(Some("b.mp4"), None, None, None),
        entry(Some("a.mp3"), None, None, Some("a.vtt")),
    ];
    let (tracks, extras) = manifest_tracks(&entries);
    assert_eq!(tracks.len(), 3);
    assert_eq!(tracks[0].display, "Song A");
    assert_eq!(tracks[0].source, TrackRef::Url("a.mp3".to_string(), "Song A".to_string()));
    assert_eq!(tracks[1].display, "b.mp4");
    assert_eq!(tracks[2].display, "a.mp3");
    assert_eq!(extras.len(), 2);
    let a = extra_for(&extras, "a.mp3").unwrap();
    assert_eq!(a.artwork, None);
    assert_eq!(a.subtitles, Some("a.vtt".to_string()));
    assert!(extra_for(&extras, "b.mp4").is_none());
}

#[test]
fn passed_over_lines_change_nothing() {
    let rest = "theme = \"nord\"\ntrack = /a.mp3\ntrack = \"\"\ntrack = \"/b.flac\"\nvolume = 0.5\n";
    let base = Config::parse(rest);
    for first in ["", "   ", "# theme = x", "noequals", "colour = red", "\r"] {
        let text = format!("{first}\n{rest}");
        assert_eq!(Config::parse(&text), base);
    }
    assert_eq!(Config::parse(""), Config::default());
    assert_eq!(base.playlist, vec!["/a.mp3".to_string(), "/b.flac".to_string()]);
}

#[test]
fn exponents_move_the_decimal_point() {
    assert_eq!(parse_fixed(&chars("1e0"), 1500), Some((false, 1000)));
    assert_eq!(parse_fixed(&chars("1.5E-1"), 1500), Some((false, 150)));
    assert_eq!(parse_fixed(&chars("15e-2"), 1500), Some((false, 150)));
    assert_eq!(parse_fixed(&chars("2e3"), 1500), Some((false, 1500)));
    assert_eq!(parse_fixed(&chars("1e+2"), 9_000_000), Some((false, 100_000)));
    assert_eq!(parse_fixed(&chars("1e-4"), 1500), Some((false, 0)));
    assert_eq!(parse_fixed(&chars("-1e0"), 1500), Some((true, 1000)));
    assert_eq!(parse_fixed(&chars(".5e1"), 9000), Some((false, 5000)));
    assert_eq!(parse_fixed(&chars("5.e-1"), 9000), Some((false, 500)));
    assert_eq!(parse_fixed(&chars("0e99999999999999999999"), 1500), Some((false, 0)));
    assert_eq!(parse_fixed(&chars("1e99999999999999999999"), 1500), Some((false, 1500)));
    assert_eq!(parse_fixed(&chars("1e-99999999999999999999"), 1500), Some((false, 0)));
    assert_eq!(parse_fixed(&chars("1e"), 1500), None);
    assert_eq!(parse_fixed(&chars("e1"), 1500), None);
    assert_eq!(parse_fixed(&chars("1e1.5"), 1500), None);
    assert_eq!(Config::parse("volume = 1e0\nposition_secs = 4.2e1\n").volume, 1000);
    assert_eq!(Config::parse("position_secs = 4.2e1\n").position_ms, 42_000);
    assert_eq!(Config::parse("volume = INF\n").volume, 1500);
    assert_eq!(Config::parse("volume = -infinity\n").volume, 0);
    assert_eq!(Config::parse("position_secs = inf\n").position_ms, u64::MAX);
    assert_eq!(Config::parse("position_secs = 3\nposition_secs = NaN\n").position_ms, 0);
}
