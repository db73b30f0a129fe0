use sparkplayer::app::{filtered_indices, fuzzy_match};
use sparkplayer::config::Config;
use sparkplayer::library::{parse_m3u, playlist_m3u, Track};
use sparkplayer::shared_audio::{metadata_field, SharedAudioFramePacker, METADATA_LEN};
use sparkplayer::subtitles::{
    parse_ass_dialogue, parse_srt, parse_vtt, SubtitleCue, SubtitleSet, SubtitleTrack,
};

#[test]
fn fuzzy_matches_subsequence_case_insensitively() {
    assert!(fuzzy_match("The Beatles - Help", "beat"));
    assert!(fuzzy_match("The Beatles - Help", "thlp"));
    assert!(fuzzy_match("Beethoven", "BTHVN".to_ascii_lowercase().as_str()));
    assert!(fuzzy_match("anything", ""));
    assert!(!fuzzy_match("short", "longer"));
    assert!(!fuzzy_match("abc", "acb"));
}

#[test]
fn filter_empty_query_matches_all() {
    let items = ["Alpha", "Beta", "Gamma"];
    assert_eq!(filtered_indices(&items, ""), vec![0, 1, 2]);
    assert_eq!(filtered_indices(&items, "   "), vec![0, 1, 2]);
}

#[test]
fn filter_is_case_insensitive_substring() {
    let items = ["The Beatles - Help", "Beethoven", "beat it"];
    assert_eq!(filtered_indices(&items, "beat"), vec![0, 2]);
    assert_eq!(filtered_indices(&items, "BEET"), vec![1]);
    assert!(filtered_indices(&items, "zzz").is_empty());
}

#[test]
fn round_trips_session_state() {
    let cfg = Config {
        theme: "dracula".to_string(),
        volume: 650,
        visualizer: "waveform".to_string(),
        fft_size: 4096,
        scroll_speed: 45,
        last_dir: Some("/home/me/Music".to_string()),
        repeat: "all".to_string(),
        shuffle: true,
        playlist: vec![
            "/home/me/Music/a.flac".to_string(),
            "/home/me/Music/b.mp3".to_string(),
        ],
        playing_index: Some(1),
        position_ms: 42_500,
        favorites: vec!["/home/me/Music/a.flac".to_string()],
        recent: vec![
            "/home/me/Music/b.mp3".to_string(),
            "/home/me/Music/a.flac".to_string(),
        ],
        play_counts: vec![
            ("/home/me/Music/a.flac".to_string(), 7),
            ("/home/me/Music/b.mp3".to_string(), 3),
        ],
    };
    let parsed = Config::parse(&cfg.serialize());
    assert_eq!(parsed, cfg);
}

#[test]
fn defaults_for_missing_keys() {
    let cfg = Config::parse("theme = \"nord\"\n");
    assert_eq!(cfg.theme, "nord");
    assert_eq!(cfg.repeat, "off");
    assert!(!cfg.shuffle);
    assert!(cfg.playlist.is_empty());
    assert_eq!(cfg.playing_index, None);
}

#[test]
fn ignores_invalid_repeat_and_clamps_volume() {
    let cfg = Config::parse("repeat = bogus\nvolume = 9.0\n");
    assert_eq!(cfg.repeat, "off");
    assert_eq!(cfg.volume, 1500);
}

#[test]
fn srt_basic() {
    let text = "1\n00:00:01,000 --> 00:00:02,500\nHello world\n\n2\n00:00:03,000 --> 00:00:04,000\n<i>Second</i> line\n";
    let cues = parse_srt(text);
    assert_eq!(cues.len(), 2);
    assert_eq!(cues[0].start_ms, 1000);
    assert_eq!(cues[0].end_ms, 2500);
    assert_eq!(cues[0].text, "Hello world");
    assert_eq!(cues[1].text, "Second line");
}

#[test]
fn vtt_basic() {
    let text = "WEBVTT\n\nNOTE this is a note\n\n00:00:01.000 --> 00:00:02.000 align:start\nFirst\n\ncue-id\n00:00:03.000 --> 00:00:04.000\nSecond";
    let cues = parse_vtt(text);
    assert_eq!(cues.len(), 2);
    assert_eq!(cues[0].text, "First");
    assert_eq!(cues[1].text, "Second");
}

#[test]
fn cue_at_binary_search() {
    let mut set = SubtitleSet::default();
    set.extend(vec![SubtitleTrack {
        label: "t".into(),
        language: None,
        cues: vec![
            SubtitleCue { start_ms: 1000, end_ms: 2000, text: "a".into() },
            SubtitleCue { start_ms: 3000, end_ms: 4000, text: "b".into() },
        ],
    }]);
    assert_eq!(set.cue_at(0, 500), None);
    assert_eq!(set.cue_at(0, 1500).as_deref(), Some("a"));
    assert_eq!(set.cue_at(0, 2500), None);
    assert_eq!(set.cue_at(0, 3500).as_deref(), Some("b"));
}

#[test]
fn ass_strip() {
    let s = "0,0,Default,,0,0,0,,{\\an8}Hello\\Nworld";
    assert_eq!(parse_ass_dialogue(s), "Hello\nworld");
}

#[test]
fn save_playlist_round_trips_via_parse_m3u() {
    let dir = "/tmp/sparkplayer-test";
    let tracks = vec![
        Track::from_path(format!("{dir}/one.flac")),
        Track::from_path(format!("{dir}/two.mp3")),
    ];
    let content = playlist_m3u(&tracks);
    assert!(content.starts_with("#EXTM3U\n"));
    let parsed = parse_m3u(&content);
    assert_eq!(parsed.len(), 2);
    assert_eq!(parsed[0], format!("{dir}/one.flac"));
    assert_eq!(parsed[1], format!("{dir}/two.mp3"));
}

#[test]
fn mono_samples_are_duplicated_to_stereo_frames() {
    let mut packer = SharedAudioFramePacker::new(1);
    assert_eq!(packer.push_sample(0.25f32), Some((0.25, 0.25)));
    assert_eq!(packer.push_sample(-0.5f32), Some((-0.5, -0.5)));
}

#[test]
fn stereo_samples_are_packed_in_pairs() {
    let mut packer = SharedAudioFramePacker::new(2);
    assert_eq!(packer.push_sample(0.25f32), None);
    assert_eq!(packer.push_sample(-0.5f32), Some((0.25, -0.5)));
}

#[test]
fn multichannel_sources_keep_the_first_stereo_pair() {
    let mut packer = SharedAudioFramePacker::new(6);
    for sample in [0.1f32, 0.2, 0.3, 0.4, 0.5] {
        assert_eq!(packer.push_sample(sample), None);
    }
    assert_eq!(packer.push_sample(0.6f32), Some((0.1, 0.2)));
}

#[test]
fn metadata_truncation_preserves_utf8_boundaries() {
    let value = format!("{}é", "a".repeat(126));
    let output = metadata_field(&value);
    assert_eq!(output.len(), METADATA_LEN);
    let end = output.iter().position(|&byte| byte == 0).unwrap();
    assert_eq!(end, 126);
    assert!(std::str::from_utf8(&output[..end]).is_ok());
}
