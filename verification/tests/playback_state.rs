use sparkplayer::app::{FullscreenMode, RepeatMode};
use sparkplayer::library::Track;
use sparkplayer::player::{
    advance_index, clamp_search_selection, cycle_display_mode, cycle_subtitle_track, is_control,
    move_selected_track, next_track_index, prev_track_index, remove_selected_track, search_move,
    shuffle_remaining, shuffle_seed, step_audio_track, step_subtitle_track, toggle_fullscreen,
    adjust_av_offset, preload_allowed, AvSync, search_scroll_start, seek_target, start_plan, toggle_video_window, volume_after, DisplayStatus,
    StartPlan,
};

fn tracks(names: &[&str]) -> Vec<Track> {
    names.iter().map(|n| Track::from_path(format!("/m/{n}.mp3"))).collect()
}

fn names(ts: &[Track]) -> Vec<String> {
    ts.iter().map(|t| t.display.clone()).collect()
}

#[test]
fn next_and_previous_follow_repeat() {
    assert_eq!(next_track_index(3, Some(1), RepeatMode::Off), Some(2));
    assert_eq!(next_track_index(3, Some(2), RepeatMode::Off), None);
    assert_eq!(next_track_index(3, Some(2), RepeatMode::All), Some(0));
    assert_eq!(next_track_index(3, None, RepeatMode::Off), Some(0));
    assert_eq!(next_track_index(0, None, RepeatMode::All), None);
    assert_eq!(prev_track_index(3, Some(0), RepeatMode::Off), None);
    assert_eq!(prev_track_index(3, Some(0), RepeatMode::All), Some(2));
    assert_eq!(prev_track_index(3, Some(2), RepeatMode::One), Some(1));
}

#[test]
fn finished_track_advances_or_repeats() {
    assert_eq!(advance_index(3, Some(1), true, RepeatMode::One), Some(1));
    assert_eq!(advance_index(3, Some(1), true, RepeatMode::Off), Some(2));
    assert_eq!(advance_index(3, Some(1), false, RepeatMode::Off), None);
    assert_eq!(advance_index(3, None, true, RepeatMode::Off), None);
}

#[test]
fn repeat_all_visits_every_track() {
    let mut at = 1usize;
    let mut seen = vec![at];
    for _ in 0..4 {
        at = next_track_index(4, Some(at), RepeatMode::All).unwrap();
        seen.push(at);
    }
    assert_eq!(seen, vec![1, 2, 3, 0, 1]);
}

#[test]
fn removing_keeps_the_playing_track_marked() {
    let mut ts = tracks(&["a", "b", "c", "d"]);
    let out = remove_selected_track(&mut ts, 1, Some(3));
    assert_eq!(names(&ts), vec!["a.mp3", "c.mp3", "d.mp3"]);
    assert_eq!(out.playing, Some(2));
    assert!(!out.stopped);
    assert_eq!(out.selected, 1);
    let out = remove_selected_track(&mut ts, 9, Some(2));
    assert_eq!(names(&ts), vec!["a.mp3", "c.mp3"]);
    assert_eq!(out.playing, None);
    assert!(out.stopped);
    assert_eq!(out.selected, 1);
}

#[test]
fn moving_swaps_and_follows_the_playing_track() {
    let mut ts = tracks(&["a", "b", "c"]);
    let out = move_selected_track(&mut ts, 0, Some(0), 1).unwrap();
    assert_eq!(names(&ts), vec!["b.mp3", "a.mp3", "c.mp3"]);
    assert_eq!(out.selected, 1);
    assert_eq!(out.playing, Some(1));
    assert!(move_selected_track(&mut ts, 0, None, -1).is_none());
    assert!(move_selected_track(&mut ts, 2, None, 1).is_none());
    assert_eq!(names(&ts), vec!["b.mp3", "a.mp3", "c.mp3"]);
}

#[test]
fn shuffle_keeps_the_played_part_and_the_tracks() {
    let before: Vec<u32> = (0..20).collect();
    let mut v = before.clone();
    let seed = shuffle_seed(1_234_567);
    shuffle_remaining(&mut v, Some(4), seed);
    assert_eq!(&v[..5], &before[..5]);
    let mut sorted = v.clone();
    sorted.sort();
    assert_eq!(sorted, before);
    assert_ne!(v, before);
    let mut w = before.clone();
    shuffle_remaining(&mut w, Some(19), seed);
    assert_eq!(w, before);
    let mut again = before.clone();
    shuffle_remaining(&mut again, Some(4), seed);
    assert_eq!(again, v);
}

#[test]
fn shuffle_seed_is_never_zero() {
    assert_ne!(shuffle_seed(0x9E3779B97F4A7C15), 0);
    assert_eq!(shuffle_seed(0x9E3779B97F4A7C15), 1);
    assert_eq!(shuffle_seed(0), 0x9E3779B97F4A7C15);
}

#[test]
fn subtitle_cycle_goes_through_off() {
    assert_eq!(cycle_subtitle_track(None, 2), Some(0));
    assert_eq!(cycle_subtitle_track(Some(0), 2), Some(1));
    assert_eq!(cycle_subtitle_track(Some(1), 2), None);
    assert_eq!(cycle_subtitle_track(None, 0), None);
    assert_eq!(step_subtitle_track(None, 2, 1), Some(Some(0)));
    assert_eq!(step_subtitle_track(Some(0), 2, -1), Some(None));
    assert_eq!(step_subtitle_track(None, 2, -1), Some(Some(1)));
    assert_eq!(step_subtitle_track(Some(1), 2, 1), Some(None));
    assert_eq!(step_subtitle_track(None, 0, 1), None);
}

#[test]
fn audio_track_steps_wrap() {
    assert_eq!(step_audio_track(3, Some(2), 1), Some(0));
    assert_eq!(step_audio_track(3, None, -1), Some(2));
    assert_eq!(step_audio_track(1, Some(0), 1), None);
}

#[test]
fn display_mode_cycles() {
    let m = cycle_display_mode(false, false, false, FullscreenMode::Off, true);
    assert_eq!(m.fullscreen, FullscreenMode::Visualizer);
    assert_eq!(m.status.text(), "Display: fullscreen visualizer");
    let m = cycle_display_mode(false, false, false, FullscreenMode::Visualizer, true);
    assert_eq!(m.fullscreen, FullscreenMode::AlbumArt);
    let m = cycle_display_mode(false, false, false, FullscreenMode::Visualizer, false);
    assert_eq!(m.fullscreen, FullscreenMode::Off);
    let m = cycle_display_mode(false, false, false, FullscreenMode::AlbumArt, true);
    assert_eq!(m.status, DisplayStatus::FullscreenAlbumArtVisualizer);
    let m = cycle_display_mode(true, false, true, FullscreenMode::Visualizer, false);
    assert_eq!(m.window, Some(true));
    assert_eq!(m.fullscreen, FullscreenMode::Off);
    assert_eq!(m.status.text(), "Display: video window");
    let m = cycle_display_mode(true, true, true, FullscreenMode::Off, false);
    assert_eq!(m.window, Some(false));
    let m = cycle_display_mode(true, false, false, FullscreenMode::Visualizer, false);
    assert_eq!(m.window, None);
    assert_eq!(m.status, DisplayStatus::Normal);
    assert_eq!(toggle_fullscreen(FullscreenMode::AlbumArt), FullscreenMode::Off);
    assert_eq!(toggle_fullscreen(FullscreenMode::Off), FullscreenMode::Visualizer);
    assert_eq!(toggle_video_window(false, false), None);
    assert_eq!(toggle_video_window(true, true), Some(false));
}

#[test]
fn volume_steps_stay_in_range() {
    assert_eq!(volume_after(800, 5), 850);
    assert_eq!(volume_after(20, -5), 0);
    assert_eq!(volume_after(1480, 5), 1500);
}

#[test]
fn search_cursor_wraps_and_clamps() {
    assert_eq!(search_move(0, 3, 1), 0);
    assert_eq!(search_move(5, 4, 1), 0);
    assert_eq!(search_move(5, 0, -1), 4);
    assert_eq!(search_move(5, 9, 1), 0);
    assert_eq!(clamp_search_selection(3, 7), 2);
    assert_eq!(clamp_search_selection(0, 7), 0);
    assert!(is_control('\u{7}'));
    assert!(is_control('\u{85}'));
    assert!(!is_control('a'));
}

#[test]
fn startup_resumes_the_saved_track() {
    assert_eq!(start_plan(false, true, 3, Some(1), 5000), StartPlan::Idle);
    assert_eq!(start_plan(true, true, 0, Some(0), 5000), StartPlan::Idle);
    assert_eq!(
        start_plan(true, true, 3, Some(1), 5000),
        StartPlan::Resume { index: 1, seek_ms: Some(5000) }
    );
    assert_eq!(start_plan(true, true, 3, Some(2), 1000), StartPlan::Resume { index: 2, seek_ms: None });
    assert_eq!(start_plan(true, true, 3, Some(3), 5000), StartPlan::PlayFirst);
    assert_eq!(start_plan(true, false, 3, Some(1), 5000), StartPlan::PlayFirst);
    assert_eq!(start_plan(true, true, 3, None, 5000), StartPlan::PlayFirst);
}

#[test]
fn seeks_stay_inside_the_track() {
    assert_eq!(seek_target(5_000, 10_000, Some(60_000)), 15_000);
    assert_eq!(seek_target(5_000, -10_000, Some(60_000)), 0);
    assert_eq!(seek_target(55_000, 10_000, Some(60_000)), 59_950);
    assert_eq!(seek_target(55_000, 10_000, Some(0)), 65_000);
    assert_eq!(seek_target(10, 100, Some(30)), 0);
    assert_eq!(seek_target(1_000, 500, None), 1_500);
}

#[test]
fn only_audio_follows_audio_gaplessly() {
    assert!(preload_allowed(Some("/m/a.mp3"), false, "/m/b.flac"));
    assert!(!preload_allowed(Some("/m/a.mp3"), true, "/m/b.flac"));
    assert!(!preload_allowed(Some("/m/a.mkv"), false, "/m/b.flac"));
    assert!(!preload_allowed(Some("/m/a.mp3"), false, "/m/b.mp4"));
    assert!(!preload_allowed(None, false, "/m/b.flac"));
}

#[test]
fn av_offset_moves_in_clamped_steps() {
    assert_eq!(adjust_av_offset(0, 1), 25);
    assert_eq!(adjust_av_offset(-490, -1), -500);
    assert_eq!(adjust_av_offset(1990, 4), 2000);
    assert_eq!(adjust_av_offset(100, -2), 50);
    let mut av = AvSync { offset_ms: 120, auto: true };
    av.nudge(-1);
    assert_eq!(av, AvSync { offset_ms: 95, auto: false });
    av.nudge(100);
    assert_eq!(av, AvSync { offset_ms: 2000, auto: false });
    av.reset_auto(80);
    assert_eq!(av, AvSync { offset_ms: 80, auto: true });
}

#[test]
fn search_list_scrolls_to_the_cursor() {
    assert_eq!(search_scroll_start(30, 3, 10), 0);
    assert_eq!(search_scroll_start(30, 12, 10), 3);
    assert_eq!(search_scroll_start(5, 40, 3), 2);
    assert_eq!(search_scroll_start(30, 12, 0), 0);
}
