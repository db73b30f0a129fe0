use sparkplayer::app::{EscapeMenuKind, FullscreenMode, InputMode, RepeatMode};
use sparkplayer::backend::{CoreKey, CoreKeyEvent};
use sparkplayer::keys::{handle_key, KeyAction, KeyContext};
use sparkplayer::menu::{
    escape_menu_activate, escape_menu_adjust, escape_menu_items, escape_menu_move, open_escape_menu,
    selectable_indices, MenuCommand, MenuState,
};
use sparkplayer::subtitles::{SubtitleSet, SubtitleTrack};
use sparkplayer::visualizer::VisMode;

fn normal() -> KeyContext {
    KeyContext {
        show_help: false,
        help_scroll: 0,
        input_mode: InputMode::Normal,
        show_search: false,
        show_escape_menu: false,
        external_window: false,
    }
}

fn key(c: char) -> CoreKeyEvent {
    CoreKeyEvent::new(CoreKey::Char(c))
}

#[test]
fn key_event_constructors() {
    let a = CoreKeyEvent::new(CoreKey::Up);
    assert_eq!(a.code, CoreKey::Up);
    assert!(!a.ctrl);
    let b = CoreKeyEvent::with_ctrl(CoreKey::Char('c'), true);
    assert_eq!(b.code, CoreKey::Char('c'));
    assert!(b.ctrl);
}

#[test]
fn ctrl_c_quits_in_every_view_but_help_and_input() {
    let ctrl_c = CoreKeyEvent::with_ctrl(CoreKey::Char('c'), true);
    let mut ctx = normal();
    assert_eq!(handle_key(ctx, ctrl_c), KeyAction::Quit);
    ctx.show_search = true;
    assert_eq!(handle_key(ctx, ctrl_c), KeyAction::Quit);
    ctx.show_search = false;
    ctx.show_escape_menu = true;
    assert_eq!(handle_key(ctx, ctrl_c), KeyAction::Quit);
    ctx.show_escape_menu = false;
    ctx.external_window = true;
    assert_eq!(handle_key(ctx, ctrl_c), KeyAction::Quit);
    ctx.input_mode = InputMode::Filter;
    assert_eq!(handle_key(ctx, ctrl_c), KeyAction::InputPush('c'));
}

#[test]
fn plain_c_cycles_subtitles() {
    assert_eq!(handle_key(normal(), key('c')), KeyAction::CycleSubtitleTrack);
    assert_eq!(handle_key(normal(), key('C')), KeyAction::ClearPlaylist);
}

#[test]
fn fullscreen_video_ignores_panel_keys() {
    let mut ctx = normal();
    ctx.external_window = true;
    assert_eq!(handle_key(ctx, key('a')), KeyAction::Nothing);
    assert_eq!(handle_key(ctx, key('d')), KeyAction::Nothing);
    assert_eq!(handle_key(ctx, CoreKeyEvent::new(CoreKey::Up)), KeyAction::Nothing);
    assert_eq!(handle_key(ctx, CoreKeyEvent::new(CoreKey::Esc)), KeyAction::ExitFullscreenVideo);
    assert_eq!(handle_key(ctx, key('f')), KeyAction::ExitFullscreenVideo);
    assert_eq!(handle_key(ctx, key(' ')), KeyAction::TogglePause);
    assert_eq!(
        handle_key(ctx, CoreKeyEvent::with_ctrl(CoreKey::Right, true)),
        KeyAction::Seek(30)
    );
}

#[test]
fn typing_captures_shortcut_letters() {
    let mut ctx = normal();
    ctx.input_mode = InputMode::SavePlaylist;
    assert_eq!(handle_key(ctx, key('q')), KeyAction::InputPush('q'));
    assert_eq!(handle_key(ctx, CoreKeyEvent::new(CoreKey::Enter)), KeyAction::ConfirmInput);
    assert_eq!(handle_key(ctx, CoreKeyEvent::new(CoreKey::Esc)), KeyAction::CancelInput);
}

#[test]
fn help_overlay_scrolls_and_saturates() {
    let mut ctx = normal();
    ctx.show_help = true;
    ctx.help_scroll = 5;
    assert_eq!(handle_key(ctx, CoreKeyEvent::new(CoreKey::PageUp)), KeyAction::SetHelpScroll(0));
    assert_eq!(handle_key(ctx, CoreKeyEvent::new(CoreKey::Down)), KeyAction::SetHelpScroll(6));
    ctx.help_scroll = u16::MAX - 3;
    assert_eq!(
        handle_key(ctx, CoreKeyEvent::new(CoreKey::PageDown)),
        KeyAction::SetHelpScroll(u16::MAX)
    );
    assert_eq!(handle_key(ctx, key('q')), KeyAction::CloseHelp);
    assert_eq!(handle_key(ctx, key('n')), KeyAction::Nothing);
}

#[test]
fn normal_view_keys() {
    let ctx = normal();
    assert_eq!(handle_key(ctx, key('q')), KeyAction::Quit);
    assert_eq!(handle_key(ctx, CoreKeyEvent::new(CoreKey::Esc)), KeyAction::OpenEscapeMenu);
    assert_eq!(
        handle_key(ctx, CoreKeyEvent::with_ctrl(CoreKey::Up, true)),
        KeyAction::MoveSelectedTrack(-1)
    );
    assert_eq!(handle_key(ctx, CoreKeyEvent::new(CoreKey::Down)), KeyAction::MoveSelection(1));
    assert_eq!(handle_key(ctx, key('-')), KeyAction::VolumeStep(-5));
    assert_eq!(handle_key(ctx, key('=')), KeyAction::VolumeStep(5));
    assert_eq!(handle_key(ctx, key('h')), KeyAction::ShowHelp);
    assert_eq!(handle_key(ctx, CoreKeyEvent::new(CoreKey::Delete)), KeyAction::RemoveSelectedTrack);
    assert_eq!(handle_key(ctx, CoreKeyEvent::new(CoreKey::Left)), KeyAction::Seek(-10));
}

#[test]
fn search_and_menu_keys() {
    let mut ctx = normal();
    ctx.show_search = true;
    assert_eq!(handle_key(ctx, CoreKeyEvent::new(CoreKey::PageUp)), KeyAction::SearchMove(-10));
    assert_eq!(handle_key(ctx, key('x')), KeyAction::SearchPush('x'));
    assert_eq!(handle_key(ctx, CoreKeyEvent::new(CoreKey::Tab)), KeyAction::SearchCycleScope);
    ctx.show_search = false;
    ctx.show_escape_menu = true;
    assert_eq!(handle_key(ctx, key(' ')), KeyAction::EscapeMenuActivate);
    assert_eq!(handle_key(ctx, CoreKeyEvent::new(CoreKey::Left)), KeyAction::EscapeMenuAdjust(-1));
}

fn music_state() -> MenuState {
    MenuState {
        has_video: false,
        volume_percent: 80,
        audio_tracks: vec![],
        active_audio_track: None,
        active_subtitle: None,
        auto_av_offset: true,
        av_offset_ms: 120,
        visualizer: VisMode::Spectrum,
        fft_size: 1024,
        theme_label: "Default".to_string(),
        fullscreen: FullscreenMode::Off,
        window_supported: false,
        window_on: false,
        repeat: RepeatMode::All,
        shuffle: true,
        url_open_supported: true,
    }
}

#[test]
fn escape_menu_rows_for_music() {
    let subs = SubtitleSet::default();
    let items = escape_menu_items(&music_state(), &subs);
    assert_eq!(items.len(), 15);
    assert_eq!(items[0].kind, EscapeMenuKind::Volume);
    assert_eq!(items[0].value, " 80%");
    assert_eq!(items[1].value, "\u{2014}");
    assert!(!items[1].enabled);
    assert_eq!(items[2].value, "\u{2014}");
    assert_eq!(items[3].value, "\u{2014}");
    assert_eq!(items[4].value, "FFT Bars");
    assert_eq!(items[5].value, "1024 samples");
    assert_eq!(items[6].value, "Default");
    assert_eq!(items[7].value, "Off");
    assert!(!items[8].enabled);
    assert_eq!(items[9].value, "All");
    assert_eq!(items[10].value, "On");
    assert_eq!(items[12].kind, EscapeMenuKind::Github);
    assert_eq!(items[13].kind, EscapeMenuKind::Separator);
    assert_eq!(items[14].kind, EscapeMenuKind::Quit);
}

#[test]
fn escape_menu_rows_for_video() {
    let mut st = music_state();
    st.has_video = true;
    st.audio_tracks = vec!["English".to_string(), "French".to_string()];
    st.active_audio_track = Some(1);
    st.active_subtitle = Some(0);
    st.auto_av_offset = false;
    st.av_offset_ms = -40;
    st.url_open_supported = false;
    let mut subs = SubtitleSet::default();
    subs.extend(vec![SubtitleTrack {
        label: "English (SRT)".to_string(),
        language: Some("en".to_string()),
        cues: vec![sparkplayer::subtitles::SubtitleCue {
            start_ms: 0,
            end_ms: 10,
            text: "x".to_string(),
        }],
    }]);
    let items = escape_menu_items(&st, &subs);
    assert_eq!(items.len(), 14);
    assert_eq!(items[1].value, "French");
    assert!(items[1].enabled);
    assert_eq!(items[2].value, "English (SRT)");
    assert_eq!(items[3].value, "-40 ms");
    st.auto_av_offset = true;
    st.av_offset_ms = 0;
    st.active_subtitle = Some(5);
    let items = escape_menu_items(&st, &subs);
    assert_eq!(items[3].value, "Auto (+0 ms)");
    assert_eq!(items[2].value, "Track 6");
}

#[test]
fn escape_menu_cursor_skips_disabled_rows() {
    let subs = SubtitleSet::default();
    let items = escape_menu_items(&music_state(), &subs);
    assert_eq!(selectable_indices(&items), vec![0, 4, 5, 6, 7, 9, 10, 11, 12, 14]);
    assert_eq!(open_escape_menu(&items, 7), 0);
    assert_eq!(escape_menu_move(&items, 0, 1), 4);
    assert_eq!(escape_menu_move(&items, 0, -1), 14);
    assert_eq!(escape_menu_move(&items, 14, 1), 0);
    assert_eq!(escape_menu_move(&items, 12, 1), 14);
}

#[test]
fn escape_menu_adjust_and_activate() {
    let subs = SubtitleSet::default();
    let items = escape_menu_items(&music_state(), &subs);
    assert_eq!(escape_menu_adjust(&items, 0, -1), Some(MenuCommand::VolumeStep(-5)));
    assert_eq!(escape_menu_adjust(&items, 4, 1), Some(MenuCommand::CycleVisualizer));
    assert_eq!(escape_menu_adjust(&items, 4, -1), Some(MenuCommand::CycleVisualizerBack));
    assert_eq!(escape_menu_adjust(&items, 1, 1), None);
    assert_eq!(escape_menu_adjust(&items, 99, 1), None);
    assert_eq!(escape_menu_activate(&items, 14), (Some(MenuCommand::Quit), true));
    assert_eq!(escape_menu_activate(&items, 11), (Some(MenuCommand::ShowHelp), true));
    assert_eq!(escape_menu_activate(&items, 9), (Some(MenuCommand::CycleRepeat), false));
    assert_eq!(escape_menu_activate(&items, 0), (None, false));
    assert_eq!(escape_menu_activate(&items, 13), (None, false));
}
