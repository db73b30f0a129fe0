use sparkplayer::app::{FocusPane, InputMode, MouseControl, Rect, RepeatMode};
use sparkplayer::audio_tap::{SampleRing, TAP_CAPACITY};
use sparkplayer::backend::{CoreKey, CoreKeyEvent, CoreMouseEvent, CoreMouseKind};
use sparkplayer::config::{config_playlist, repeat_of, repeat_word_of};
use sparkplayer::input::{export_file_name, InputCommit, TextInput};
use sparkplayer::library::Track;
use sparkplayer::menu::{subtitle_announcement, subtitle_status};
use sparkplayer::metadata::{best_picture, mime_name, ImageMime, PictureKind, TrackMeta};
use sparkplayer::mouse::{click_list, frac_at, handle_mouse, volume_at_row, MouseAction, MouseContext};
use sparkplayer::native::{
    audio_track_label, channel_desc, fit_image_rect, is_cover_file, resolve_entry,
};
use sparkplayer::window::{aspect_fit, blend_pixel, translate_key, ForwardedKey, WindowKey, WindowRect};
use sparkplayer::player::{
    activate_selection, announce_subtitles, entry_kind, preferred_subtitle, queue_selected_browser,
    Activation, EntryKind, QueuePlan,
};
use sparkplayer::subtitles::{SubtitleCue, SubtitleSet, SubtitleTrack};
use sparkplayer::ui::{layout_badges, three_up_padding, volume_bar};

fn rect(x: u16, y: u16, width: u16, height: u16) -> Rect {
    Rect { x, y, width, height }
}

fn ctx() -> MouseContext {
    MouseContext {
        modal: false,
        playlist: Some(rect(0, 10, 40, 10)),
        browser: Some(rect(40, 10, 40, 10)),
        progress: Some(rect(0, 5, 80, 1)),
        visualizer: Some(rect(0, 0, 70, 5)),
        volume: Some(rect(70, 0, 2, 5)),
        controls: vec![(rect(10, 6, 4, 1), MouseControl::PlayPause)],
    }
}

fn ev(kind: CoreMouseKind, col: u16, row: u16) -> CoreMouseEvent {
    CoreMouseEvent { kind, col, row }
}

#[test]
fn mouse_dispatch() {
    let c = ctx();
    assert_eq!(handle_mouse(&c, ev(CoreMouseKind::ScrollUp, 5, 12)), MouseAction::ScrollPane(FocusPane::Playlist, -3));
    assert_eq!(handle_mouse(&c, ev(CoreMouseKind::ScrollDown, 45, 12)), MouseAction::ScrollPane(FocusPane::Browser, 3));
    assert_eq!(handle_mouse(&c, ev(CoreMouseKind::ScrollUp, 5, 2)), MouseAction::VolumeStep(5));
    assert_eq!(handle_mouse(&c, ev(CoreMouseKind::Down, 20, 5)), MouseAction::SeekTo(20, 80));
    assert_eq!(handle_mouse(&c, ev(CoreMouseKind::Down, 11, 6)), MouseAction::Control(MouseControl::PlayPause));
    assert_eq!(handle_mouse(&c, ev(CoreMouseKind::Down, 71, 0)), MouseAction::SetVolume(Some(1500), true));
    assert_eq!(handle_mouse(&c, ev(CoreMouseKind::Down, 3, 3)), MouseAction::CycleVisualizer);
    assert_eq!(handle_mouse(&c, ev(CoreMouseKind::Down, 3, 13)), MouseAction::ClickList(FocusPane::Playlist, 3));
    assert_eq!(handle_mouse(&c, ev(CoreMouseKind::Down, 79, 30)), MouseAction::Nothing);
    assert_eq!(handle_mouse(&c, ev(CoreMouseKind::Drag, 71, 40)), MouseAction::SetVolume(Some(0), false));
    assert_eq!(handle_mouse(&c, ev(CoreMouseKind::Drag, 200, 5)), MouseAction::SeekTo(79, 80));
    let mut m = ctx();
    m.modal = true;
    assert_eq!(handle_mouse(&m, ev(CoreMouseKind::Down, 3, 3)), MouseAction::Nothing);
}

#[test]
fn mouse_geometry() {
    assert_eq!(frac_at(None, 5), (0, 1));
    assert_eq!(frac_at(Some(rect(10, 0, 0, 1)), 5), (0, 1));
    assert_eq!(frac_at(Some(rect(10, 0, 20, 1)), 5), (0, 20));
    assert_eq!(volume_at_row(rect(0, 10, 4, 1), 10), None);
    assert_eq!(volume_at_row(rect(0, 10, 4, 4), 11), Some(1000));
    assert_eq!(click_list(&[2, 5, 7], 1, 1, FocusPane::Browser, None, 0), Some((7, false)));
    assert_eq!(click_list(&[2, 5, 7], 1, 2, FocusPane::Browser, None, 0), None);
    let last = Some((FocusPane::Browser, 7, 1000));
    assert_eq!(click_list(&[2, 5, 7], 1, 1, FocusPane::Browser, last, 1300), Some((7, true)));
    assert_eq!(click_list(&[2, 5, 7], 1, 1, FocusPane::Browser, last, 1500), Some((7, false)));
    assert_eq!(click_list(&[2, 5, 7], 1, 1, FocusPane::Playlist, last, 1300), Some((7, false)));
}

#[test]
fn text_entry() {
    let mut t = TextInput::new();
    t.push('x');
    assert_eq!(t.filter_query, "");
    t.start_filter();
    t.push('a');
    t.push('\u{1b}');
    t.push('b');
    assert_eq!(t.filter_query, "ab");
    t.backspace();
    assert_eq!(t.filter_query, "a");
    assert_eq!(t.confirm(), InputCommit::KeepFilter);
    assert_eq!(t.mode, InputMode::Normal);
    assert_eq!(t.filter_query, "a");
    assert!(!t.start_save_playlist(0));
    assert!(t.start_save_playlist(3));
    assert_eq!(t.buffer, "playlist");
    for _ in 0..8 {
        t.backspace();
    }
    t.push(' ');
    assert_eq!(t.confirm(), InputCommit::SavePlaylist("playlist.m3u".to_string()));
    t.start_filter();
    t.push('z');
    t.cancel();
    assert_eq!(t.filter_query, "");
    assert_eq!(export_file_name("  mix  "), "mix.m3u");
}

#[test]
fn tap_ring_keeps_the_latest_samples() {
    let mut ring = SampleRing::new(0i32);
    let mut out = vec![(9, 9); 3];
    assert_eq!(ring.latest_stereo(&mut out, 0), 0);
    assert_eq!(out, vec![(0, 0); 3]);
    ring.push_slice(&[1, 2, 3, 4, 5]);
    assert_eq!(ring.latest_stereo(&mut out, 0), 2);
    assert_eq!(out, vec![(1, 2), (3, 4), (0, 0)]);
    ring.set_format(1, 0);
    assert_eq!(ring.channels(), 1);
    assert_eq!(ring.sample_rate(), 1);
    assert_eq!(ring.latest_stereo(&mut out, 0), 3);
    assert_eq!(out, vec![(3, 3), (4, 4), (5, 5)]);
    let big: Vec<i32> = (0..(TAP_CAPACITY as i32 + 10)).collect();
    ring.push_slice(&big);
    let mut last = vec![(0, 0); 2];
    ring.latest_stereo(&mut last, 0);
    assert_eq!(last, vec![(TAP_CAPACITY as i32 + 8, TAP_CAPACITY as i32 + 8), (TAP_CAPACITY as i32 + 9, TAP_CAPACITY as i32 + 9)]);
    ring.reset(0);
    assert_eq!(ring.samples_consumed(), 0);
}

#[test]
fn tap_position() {
    let mut ring = SampleRing::new(0u8);
    ring.set_format(2, 1000);
    for _ in 0..4000 {
        ring.push(1);
    }
    assert_eq!(ring.samples_consumed(), 4000);
    assert_eq!(ring.position_ms(), 2000);
    ring.set_base_offset(500);
    assert_eq!(ring.position_ms(), 2500);
}

#[test]
fn metadata_lines_and_pictures() {
    let mut m = TrackMeta::default();
    assert_eq!(m.format_line(), "\u{2014}");
    m.sample_rate = Some(44100);
    m.channels = Some(2);
    m.year = Some(1999);
    assert_eq!(m.format_line(), "44100 Hz  \u{2022}  2 ch  \u{2022}  1999");
    let copy = m.duplicate();
    assert_eq!(copy.year, Some(1999));
    assert_eq!(best_picture(&[]), None);
    assert_eq!(best_picture(&[(PictureKind::CoverFront, false), (PictureKind::Rest, true)]), Some(1));
    assert_eq!(
        best_picture(&[(PictureKind::Icon, true), (PictureKind::CoverFront, true), (PictureKind::CoverFront, true)]),
        Some(1)
    );
    assert_eq!(mime_name(ImageMime::Jpeg), "image/jpeg");
    assert_eq!(mime_name(ImageMime::Unknown), "application/octet-stream");
}

#[test]
fn audio_labels_and_paths() {
    assert_eq!(channel_desc(0), None);
    assert_eq!(channel_desc(6).as_deref(), Some("5.1"));
    assert_eq!(channel_desc(3).as_deref(), Some("3ch"));
    assert_eq!(audio_track_label(Some("Commentary"), Some(" fre "), 2, Some(6)), "French (5.1)");
    assert_eq!(audio_track_label(Some(" Director "), Some("und"), 2, Some(2)), "Director (stereo)");
    assert_eq!(audio_track_label(Some("  "), None, 3, None), "Track 3");
    assert_eq!(audio_track_label(None, Some("xx"), 1, Some(0)), "xx");
    assert_eq!(resolve_entry("/music", "a.mp3"), "/music/a.mp3");
    assert_eq!(resolve_entry("/music/", "a.mp3"), "/music/a.mp3");
    assert_eq!(resolve_entry("/music", "/abs/b.mp3"), "/abs/b.mp3");
    assert_eq!(resolve_entry("", "c.mp3"), "c.mp3");
    assert!(is_cover_file("Folder", "JPG"));
    assert!(!is_cover_file("cover", "gif"));
    assert!(!is_cover_file("back", "png"));
}

#[test]
fn badge_rows_wrap() {
    assert_eq!(layout_badges(&[3, 3, 3], 8), vec![vec![0, 1], vec![], vec![2]]);
    assert_eq!(layout_badges(&[10, 2], 5), vec![vec![0], vec![], vec![1]]);
    assert_eq!(layout_badges(&[], 5), Vec::<Vec<usize>>::new());
    assert_eq!(layout_badges(&[1, 1, 1], 100), vec![vec![0, 1, 2]]);
}

#[test]
fn settings_words_and_playlist() {
    assert_eq!(repeat_of("all"), RepeatMode::All);
    assert_eq!(repeat_of("ALL"), RepeatMode::Off);
    assert_eq!(repeat_word_of(RepeatMode::One), "one");
    let tracks = vec![
        Track::from_path("/a.mp3".to_string()),
        Track::from_url("https://x/s".to_string(), "s".to_string()),
        Track::from_path("/b.mp3".to_string()),
    ];
    assert_eq!(config_playlist(&tracks), vec!["/a.mp3".to_string(), "/b.mp3".to_string()]);
}

#[test]
fn activation_and_queueing() {
    assert_eq!(entry_kind("/x", true), EntryKind::Directory);
    assert_eq!(entry_kind("/x/a.pls", false), EntryKind::Playlist);
    assert_eq!(entry_kind("/x/a.opus", false), EntryKind::Media);
    assert_eq!(entry_kind("/x/a.txt", false), EntryKind::Other);
    assert_eq!(activate_selection(FocusPane::Playlist, 3, 1, None), Activation::Play(1));
    assert_eq!(activate_selection(FocusPane::Playlist, 0, 0, None), Activation::Nothing);
    assert_eq!(activate_selection(FocusPane::Browser, 0, 0, Some(EntryKind::Playlist)), Activation::LoadPlaylist);
    assert_eq!(activate_selection(FocusPane::Browser, 0, 0, Some(EntryKind::Other)), Activation::Nothing);
    assert_eq!(queue_selected_browser(0, true, Some(EntryKind::Directory)), QueuePlan::RefuseParent);
    assert_eq!(queue_selected_browser(0, false, Some(EntryKind::Directory)), QueuePlan::ScanDirectory);
    assert_eq!(queue_selected_browser(2, true, Some(EntryKind::Media)), QueuePlan::AppendTrack);
    assert!(announce_subtitles(0, 2));
    assert!(!announce_subtitles(1, 2));
    assert!(!announce_subtitles(0, 0));
}

#[test]
fn subtitle_texts() {
    let mut subs = SubtitleSet::default();
    assert_eq!(subtitle_announcement(&subs), None);
    assert_eq!(preferred_subtitle(false, Some("en"), &subs), None);
    let cue = || vec![SubtitleCue { start_ms: 0, end_ms: 1, text: "x".to_string() }];
    subs.extend(vec![
        SubtitleTrack { label: "English".into(), language: Some("en".into()), cues: cue() },
        SubtitleTrack { label: "German".into(), language: Some("de".into()), cues: cue() },
    ]);
    assert_eq!(
        subtitle_announcement(&subs).as_deref(),
        Some("Subtitles available: English, German \u{2014} press 'c' to cycle")
    );
    assert_eq!(subtitle_status(&subs, Some(1)), "Subtitles: German");
    assert_eq!(subtitle_status(&subs, Some(4)), "Subtitles: Track 5");
    assert_eq!(subtitle_status(&subs, None), "Subtitles: off");
    assert_eq!(preferred_subtitle(false, Some("de"), &subs), Some(1));
    assert_eq!(preferred_subtitle(true, Some("de"), &subs), None);
    assert_eq!(preferred_subtitle(false, None, &subs), None);
}

#[test]
fn volume_meter_cells() {
    assert_eq!(volume_bar(1000, 3), "[\u{2588}\u{2588}\u{2591}]");
    assert_eq!(volume_bar(1500, 4), "[\u{2588}\u{2588}\u{2588}\u{2588}]");
    assert_eq!(volume_bar(2000, 4), volume_bar(1500, 4));
    assert_eq!(volume_bar(0, 2), "[\u{2591}\u{2591}]");
    assert_eq!(volume_bar(750, 3), "[\u{2588}\u{2588}\u{2591}]");
    assert_eq!(volume_bar(700, 0), "");
}

#[test]
fn frames_keep_their_aspect_in_the_window() {
    assert_eq!(aspect_fit(1920, 1080, 800, 800), WindowRect { x: 0, y: 175, w: 800, h: 450 });
    assert_eq!(aspect_fit(1080, 1920, 800, 800), WindowRect { x: 175, y: 0, w: 450, h: 800 });
    assert_eq!(aspect_fit(0, 10, 300, 0), WindowRect { x: 0, y: 0, w: 300, h: 1 });
    assert_eq!(aspect_fit(4000, 1, 100, 100), WindowRect { x: 0, y: 49, w: 100, h: 1 });
}

#[test]
fn album_art_is_centred_in_cells() {
    assert_eq!(fit_image_rect(rect(2, 1, 40, 20), 100, 100, 8, 16), rect(2, 1, 40, 20));
    assert_eq!(fit_image_rect(rect(0, 0, 40, 20), 200, 100, 10, 20), rect(0, 5, 40, 10));
    assert_eq!(fit_image_rect(rect(0, 0, 40, 20), 0, 0, 0, 0), rect(10, 0, 20, 20));
}

fn fwd(code: CoreKey, ctrl: bool, shift: bool, alt: bool) -> Option<ForwardedKey> {
    Some(ForwardedKey { code, ctrl, shift, alt })
}

#[test]
fn window_keys_reach_the_player() {
    assert_eq!(translate_key(WindowKey::Other(97), false, true, false), fwd(CoreKey::Char('A'), false, true, false));
    assert_eq!(translate_key(WindowKey::Other(97), true, true, false), fwd(CoreKey::Char('a'), true, true, false));
    assert_eq!(translate_key(WindowKey::Other(122), false, false, true), fwd(CoreKey::Char('z'), false, false, true));
    assert_eq!(translate_key(WindowKey::Other(48), false, false, false), None);
    assert_eq!(translate_key(WindowKey::Equals, false, true, false), fwd(CoreKey::Char('+'), false, true, false));
    assert_eq!(translate_key(WindowKey::Plus, false, false, false), fwd(CoreKey::Char('='), false, false, false));
    assert_eq!(translate_key(WindowKey::Slash, false, true, false), fwd(CoreKey::Char('?'), false, true, false));
    assert_eq!(translate_key(WindowKey::Return2, false, false, false), fwd(CoreKey::Enter, false, false, false));
    assert_eq!(translate_key(WindowKey::KpMinus, false, false, false), fwd(CoreKey::Char('-'), false, false, false));
    let k = translate_key(WindowKey::Other(99), true, false, false).unwrap();
    assert_eq!(k.event(), CoreKeyEvent::with_ctrl(CoreKey::Char('c'), true));
}

#[test]
fn glyph_coverage_composites_over_the_frame() {
    let mut buf = vec![0u8; 8];
    blend_pixel(&mut buf, 2, 1, 1, 0, 200, 100, 0, 255);
    assert_eq!(buf, vec![0, 0, 0, 0, 200, 100, 0, 255]);
    let mut buf = vec![10u8, 20, 30, 255];
    blend_pixel(&mut buf, 1, 1, 0, 0, 250, 0, 0, 128);
    assert_eq!(buf, vec![130, 10, 15, 255]);
    let before = buf.clone();
    blend_pixel(&mut buf, 1, 1, 1, 0, 250, 0, 0, 128);
    blend_pixel(&mut buf, 1, 1, 0, -1, 250, 0, 0, 128);
    blend_pixel(&mut buf, 1, 1, 0, 0, 250, 0, 0, 0);
    assert_eq!(buf, before);
}

#[test]
fn status_line_centres_its_middle_part() {
    assert_eq!(three_up_padding(5, 4, 5, 30), Some((8, 8)));
    assert_eq!(three_up_padding(10, 10, 10, 30), None);
    assert_eq!(three_up_padding(20, 2, 1, 30), Some((0, 7)));
}
