use sparkplayer::app::{fmt_short, fuzzy_match, plural_s, short_name, RepeatMode, SearchScope};
use sparkplayer::library::{
    is_audio_ext, is_playlist_ext, is_playlist_file, is_video, is_video_ext, is_video_file, load_tracks, parse_m3u, parse_playlist,
    parse_pls, scan_order, sort_paths, LoadError, PathKind, Track, TrackRef, TrackSource,
};
use sparkplayer::native::{
    sidecar_label, sidecar_match, sidecar_order, stream_language, stream_title, subtitle_track_label,
    NativeLibrary,
};
use sparkplayer::subtitles::{
    clean_html, decode_text, language_display_name, SubtitleCue, SubtitleSet, SubtitleTrack,
};
use sparkplayer::ui::{eighth_up, fmt_time, pad_right, truncate, wrap_subtitle};
use sparkplayer::visualizer::VisMode;

#[test]
fn lowercasing_reaches_beyond_ascii() {
    assert!(fuzzy_match("\u{c9}COLE", "\u{e9}cole"));
    assert!(!fuzzy_match("ECOLE", "\u{e9}cole"));
}

#[test]
fn decoding_replaces_bad_bytes_and_drops_the_bom() {
    assert_eq!(decode_text(&[0xEF, 0xBB, 0xBF, b'h', b'i']), "hi");
    assert_eq!(decode_text(&[b'a', 0xFF, b'b']), "a\u{FFFD}b");
    assert_eq!(decode_text("caf\u{e9}".as_bytes()), "caf\u{e9}");
}

#[test]
fn playlists_parse() {
    assert_eq!(parse_m3u("#EXTM3U\n a.mp3 \n\n#EXTINF:1,x\nb.flac\r\n"), vec!["a.mp3", "b.flac"]);
    assert_eq!(
        parse_pls("[playlist]\nFile2=b.mp3\nFile1=a.mp3\nTitle1=x\nFileX=c.mp3\n"),
        vec!["c.mp3", "a.mp3", "b.mp3"]
    );
    assert_eq!(parse_playlist("/x/list.PLS", "File1=a.mp3\n"), vec!["a.mp3"]);
    assert_eq!(parse_playlist("/x/list.m3u8", "a.mp3\n"), vec!["a.mp3"]);
}

#[test]
fn loading_decides_by_kind() {
    assert!(matches!(load_tracks("/x/list.m3u", PathKind::File), Ok(TrackSource::Playlist)));
    match load_tracks("/x/song.ogg", PathKind::File) {
        Ok(TrackSource::Single(t)) => assert_eq!(t.display, "song.ogg"),
        _ => panic!("expected a single track"),
    }
    assert!(matches!(load_tracks("/x", PathKind::Directory), Ok(TrackSource::ScanDirectory)));
    let e = load_tracks("/x/notes.txt", PathKind::File).unwrap_err();
    assert_eq!(e, LoadError::UnsupportedFileType("/x/notes.txt".to_string()));
    assert_eq!(e.message(), "unsupported file type: /x/notes.txt");
    let e = load_tracks("/nope", PathKind::Missing).unwrap_err();
    assert_eq!(e.message(), "path does not exist: /nope");
}

#[test]
fn classification_by_extension() {
    assert!(is_audio_ext(Some("FLAC")));
    assert!(!is_audio_ext(None));
    assert!(is_video_file("/v/film.MKV"));
    assert!(is_playlist_file("/p/x.pls"));
    assert!(is_video(&TrackRef::Path("/v/a.mp4".to_string())));
    assert!(!is_video(&TrackRef::Path("/v/a.mp3".to_string())));
    let t = Track::from_url("https://h/s".to_string(), "Stream".to_string());
    assert_eq!(t.source.locator(), "https://h/s");
    assert_eq!(short_name("/a/b/c.mp3"), "c.mp3");
}

#[test]
fn subtitle_helpers() {
    assert_eq!(clean_html("<i>a</i> <b>b</b>"), "a b");
    assert_eq!(language_display_name("en"), "English");
    assert_eq!(language_display_name("xx"), "xx");
    let mut set = SubtitleSet::default();
    set.extend(vec![
        SubtitleTrack { label: "Empty".into(), language: Some("de".into()), cues: vec![] },
        SubtitleTrack {
            label: "French".into(),
            language: Some("fr".into()),
            cues: vec![SubtitleCue { start_ms: 0, end_ms: 5, text: "x".into() }],
        },
    ]);
    assert_eq!(set.track_count(), 1);
    assert_eq!(set.track_label(0).as_deref(), Some("French"));
    assert_eq!(set.find_track_by_language("FR"), Some(0));
    assert_eq!(set.find_track_by_language("de"), None);
    assert!(!set.is_cancelled());
    set.cancel();
    assert!(set.is_cancelled());
}

#[test]
fn formatting_helpers() {
    assert_eq!(fmt_short(125), "02:05");
    assert_eq!(fmt_time(3725), "1:02:05");
    assert_eq!(fmt_time(59), "00:59");
    assert_eq!(plural_s(1), "");
    assert_eq!(plural_s(2), "s");
    assert_eq!(truncate("abcdef", 4), "abc\u{2026}");
    assert_eq!(truncate("abc", 4), "abc");
    assert_eq!(pad_right("ab", 4), "ab  ");
    assert_eq!(eighth_up(3), '\u{2583}');
    assert_eq!(wrap_subtitle("one two three", 7, 2), vec!["one two", "three"]);
}

#[test]
fn mode_cycles() {
    assert_eq!(VisMode::Spectrum.cycle(), VisMode::MirrorBars);
    assert_eq!(VisMode::Spectrum.cycle_back(), VisMode::Cassette);
    assert_eq!(VisMode::from_name(VisMode::Plasma.name()), Some(VisMode::Plasma));
    assert_eq!(VisMode::from_name("nope"), None);
    assert_eq!(RepeatMode::One.cycle(), RepeatMode::Off);
    assert_eq!(SearchScope::MostPlayed.cycle(), SearchScope::All);
    assert_eq!(SearchScope::Recent.label(), "Recent");
}

fn owned(v: &[&str]) -> Vec<String> {
    v.iter().map(|s| s.to_string()).collect()
}

#[test]
fn scan_keeps_media_in_path_order() {
    let found = owned(&["/m/b.mp3", "/m/a.flac", "/m/notes.txt", "/m/A.ogg", "/m/sub/c.mkv"]);
    let tracks = scan_order(&found);
    let paths: Vec<String> = tracks.iter().map(|t| t.source.locator()).collect();
    assert_eq!(paths, owned(&["/m/A.ogg", "/m/a.flac", "/m/b.mp3", "/m/sub/c.mkv"]));
    assert_eq!(tracks[1].display, "a.flac");
    let mut reversed = found.clone();
    reversed.reverse();
    let again: Vec<String> = scan_order(&reversed).iter().map(|t| t.source.locator()).collect();
    assert_eq!(again, paths);
    assert!(scan_order(&owned(&["/m/readme"])).is_empty());
}

#[test]
fn paths_sort_by_code_point() {
    let sorted = sort_paths(&owned(&["b", "a-b", "a/b", "a", "\u{e9}", "Z", "b"]));
    assert_eq!(sorted, owned(&["Z", "a", "a-b", "a/b", "b", "b", "\u{e9}"]));
}

#[test]
fn browser_lists_parent_then_dirs_then_files() {
    let entries = vec![
        ("z.mp3".to_string(), "/m/z.mp3".to_string(), false),
        ("albums".to_string(), "/m/albums".to_string(), true),
        (".hidden".to_string(), "/m/.hidden".to_string(), true),
        ("a.m3u".to_string(), "/m/a.m3u".to_string(), false),
        ("Art".to_string(), "/m/Art".to_string(), true),
        ("notes.txt".to_string(), "/m/notes.txt".to_string(), false),
        (".x.mp3".to_string(), "/m/.x.mp3".to_string(), false),
    ];
    let listing = NativeLibrary::browse_listing(Some("/".to_string()), &entries);
    assert_eq!(listing, owned(&["/", "/m/Art", "/m/albums", "/m/a.m3u", "/m/z.mp3"]));
    let root = NativeLibrary::browse_listing(None, &entries[..2]);
    assert_eq!(root, owned(&["/m/albums", "/m/z.mp3"]));
}

fn pair(a: &str, b: &str) -> (String, String) {
    (a.to_string(), b.to_string())
}

#[test]
fn sidecar_files_match_the_video_stem() {
    assert_eq!(sidecar_match("Movie", "movie", "SRT"), Some(pair("", "srt")));
    assert_eq!(sidecar_match("Movie", "Movie.EN", "vtt"), Some(pair("en", "vtt")));
    assert_eq!(sidecar_match("Movie", "Movie2", "srt"), None);
    assert_eq!(sidecar_match("Movie", "movie.en", "txt"), None);
    assert_eq!(sidecar_label("", "srt"), "sidecar (srt)");
    assert_eq!(sidecar_label("en", "vtt"), "en (sidecar)");
    let cands = vec![pair("en", "vtt"), pair("", "srt"), pair("en", "srt"), pair("de", "srt"), pair("en", "vtt")];
    assert_eq!(sidecar_order(&cands), vec![1, 3, 2, 0, 4]);
}

#[test]
fn embedded_subtitle_tracks_are_labelled() {
    assert_eq!(stream_language(Some(" en ")), Some("en".to_string()));
    assert_eq!(stream_language(Some("und")), None);
    assert_eq!(stream_language(Some("  ")), None);
    assert_eq!(stream_title(Some(" Signs ")), Some("Signs".to_string()));
    assert_eq!(stream_title(None), None);
    assert_eq!(subtitle_track_label(Some("en"), None, false, false, false, 1), "English");
    assert_eq!(subtitle_track_label(Some("en"), Some("SDH"), true, false, false, 2), "English (forced, SDH)");
    assert_eq!(
        subtitle_track_label(None, Some("Director commentary"), false, true, false, 3),
        "Director commentary (SDH, commentary)"
    );
    assert_eq!(subtitle_track_label(None, Some("ENG"), false, false, true, 4), "Track 4 (commentary)");
    assert_eq!(subtitle_track_label(None, None, false, false, false, 12), "Track 12");
}

#[test]
fn subtitle_lines_fit_their_width() {
    assert_eq!(wrap_subtitle("ab abcdefgh", 4, 3), vec!["ab", "abcd", "efgh"]);
    assert_eq!(wrap_subtitle("abcdefghij", 4, 2), vec!["abcd", "efg\u{2026}"]);
    assert_eq!(wrap_subtitle("one two three four", 7, 2), vec!["one two", "three\u{2026}"]);
    assert_eq!(wrap_subtitle("hi\n\nthere", 10, 5), vec!["hi", "there"]);
    assert!(wrap_subtitle("anything", 0, 3).is_empty());
    assert!(wrap_subtitle("anything", 3, 0).is_empty());
}

#[test]
fn visualizer_cycle_follows_the_key_table() {
    let mut m = VisMode::Spectrum;
    let mut seen = Vec::new();
    for _ in 0..11 {
        seen.push(m);
        m = m.cycle();
    }
    assert_eq!(m, VisMode::Spectrum);
    assert_eq!(
        seen,
        vec![
            VisMode::Spectrum,
            VisMode::MirrorBars,
            VisMode::Radial,
            VisMode::Waveform,
            VisMode::ScrollingWaveform,
            VisMode::Spectrogram,
            VisMode::Lissajous,
            VisMode::Vu,
            VisMode::Spectrum3D,
            VisMode::Plasma,
            VisMode::Cassette,
        ]
    );
    assert_eq!(VisMode::Lissajous.cycle_back(), VisMode::Spectrogram);
    assert_eq!(VisMode::Waterfall.cycle(), VisMode::Lissajous);
    assert_eq!(VisMode::from_name("waterfall"), Some(VisMode::Waterfall));
}

#[test]
fn pls_entries_keep_file_order_within_an_index() {
    assert_eq!(
        parse_pls("[playlist]\nFile2=b.mp3\nFile1=a.mp3\nFile2=c.mp3\nFileX=z.mp3\nFile1= \n"),
        vec!["z.mp3", "a.mp3", "b.mp3", "c.mp3"]
    );
}

#[test]
fn playlist_extensions_are_never_media() {
    for e in ["m3u", "M3U8", "Pls"] {
        assert!(is_playlist_ext(Some(e)));
        assert!(!is_audio_ext(Some(e)));
        assert!(!is_video_ext(Some(e)));
    }
    assert!(!is_playlist_ext(None));
    assert!(is_audio_ext(Some("FLAC")));
}
