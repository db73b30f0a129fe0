use sparkplayer::app::{FocusPane, InputMode, RepeatMode};
use sparkplayer::input::InputCommit;
use sparkplayer::library::Track;
use sparkplayer::library::TrackRef;
use sparkplayer::session::{OpenedEntry, Session};
use sparkplayer::stats::Stats;

fn tracks(names: &[&str]) -> Vec<Track> {
    names.iter().map(|n| Track::from_path(format!("/m/{n}.mp3"))).collect()
}

fn names(s: &Session) -> Vec<String> {
    s.tracks().iter().map(|t| t.display.clone()).collect()
}

#[test]
fn cursor_wraps_over_the_filtered_rows() {
    let mut s = Session::new(tracks(&["alpha", "beta", "gamma", "alpine"]), RepeatMode::Off, false, "/m".to_string());
    assert_eq!(s.visible_indices(FocusPane::Playlist), vec![0, 1, 2, 3]);
    s.move_selection(-1);
    assert_eq!(s.selected(), 3);
    s.move_selection(1);
    assert_eq!(s.selected(), 0);
    s.start_filter();
    assert_eq!(s.input_mode(), InputMode::Filter);
    s.input_push('a');
    s.input_push('l');
    assert_eq!(s.filter_query(), "al");
    assert_eq!(s.visible_indices(FocusPane::Playlist), vec![0, 3]);
    s.move_selection(1);
    assert_eq!(s.selected(), 3);
    s.move_selection(1);
    assert_eq!(s.selected(), 0);
    s.input_push('p');
    s.input_push('i');
    assert_eq!(s.visible_indices(FocusPane::Playlist), vec![3]);
    assert_eq!(s.selected(), 3);
    s.input_backspace();
    assert_eq!(s.filter_query(), "alp");
    assert_eq!(s.confirm_input(), InputCommit::KeepFilter);
    assert_eq!(s.input_mode(), InputMode::Normal);
    s.select_first();
    assert_eq!(s.selected(), 0);
    s.select_last();
    assert_eq!(s.selected(), 3);
    assert!(!s.move_selected(-1));
}

#[test]
fn page_moves_ten_visible_rows() {
    let many: Vec<String> = (0..12).map(|i| format!("t{i:02}")).collect();
    let refs: Vec<&str> = many.iter().map(|s| s.as_str()).collect();
    let mut s = Session::new(tracks(&refs), RepeatMode::All, false, "/m".to_string());
    s.page(1);
    assert_eq!(s.selected(), 10);
    s.page(1);
    assert_eq!(s.selected(), 8);
    s.page(-1);
    assert_eq!(s.selected(), 10);
}

#[test]
fn browser_cursor_follows_its_listing() {
    let mut s = Session::new(Vec::new(), RepeatMode::Off, false, "/m".to_string());
    s.set_browser(vec!["/".to_string(), "/m/b".to_string(), "/m/a.mp3".to_string()]);
    s.focus_next();
    assert_eq!(s.focus(), FocusPane::Browser);
    s.select_last();
    assert_eq!(s.browser_selected(), 2);
    s.set_browser(vec!["/".to_string()]);
    assert_eq!(s.browser_selected(), 0);
    s.enter_directory("/m".to_string(), vec!["/m".to_string(), "/m/x".to_string()]);
    assert_eq!(s.browser_dir(), "/m");
    assert_eq!(s.browser_selected(), 0);
    assert_eq!(s.browser().len(), 2);
    s.start_filter();
    s.input_push('x');
    assert_eq!(s.filter_pane(), FocusPane::Browser);
    assert_eq!(s.browser_selected(), 1);
    s.cancel_input();
    assert_eq!(s.filter_query(), "");
    assert_eq!(s.visible_indices(FocusPane::Browser), vec![0, 1]);
}

#[test]
fn playing_marker_follows_its_track() {
    let mut s = Session::new(tracks(&["a", "b", "c", "d"]), RepeatMode::Off, false, "/m".to_string());
    s.started(2);
    assert_eq!(s.playing(), Some(2));
    assert_eq!(s.selected(), 2);
    assert!(s.move_selected(-1));
    assert_eq!(names(&s), vec!["a.mp3", "c.mp3", "b.mp3", "d.mp3"]);
    assert_eq!(s.playing(), Some(1));
    assert_eq!(s.selected(), 1);
    s.select_first();
    assert_eq!(s.remove_selected(), Some(false));
    assert_eq!(s.playing(), Some(0));
    assert_eq!(s.tracks()[0].display, "c.mp3");
    assert_eq!(s.remove_selected(), Some(true));
    assert_eq!(s.playing(), None);
    assert_eq!(names(&s), vec!["b.mp3", "d.mp3"]);
    s.focus_next();
    assert_eq!(s.remove_selected(), None);
}

#[test]
fn queueing_and_loading_playlists() {
    let mut s = Session::new(tracks(&["a"]), RepeatMode::Off, false, "/m".to_string());
    s.queue(tracks(&["b", "c"]));
    assert_eq!(names(&s), vec!["a.mp3", "b.mp3", "c.mp3"]);
    assert_eq!(s.selected(), 0);
    s.focus_next();
    let idx = s.add_and_select(Track::from_path("/m/z.mp3".to_string()));
    assert_eq!(idx, 3);
    assert_eq!(s.selected(), 3);
    assert_eq!(s.focus(), FocusPane::Playlist);
    s.load_playlist(tracks(&["x", "y"]));
    assert_eq!(names(&s), vec!["x.mp3", "y.mp3"]);
    assert_eq!(s.selected(), 0);
    s.clear_playlist();
    assert!(s.tracks().is_empty());
    assert_eq!(s.playing(), None);
    assert!(!s.start_save_playlist());
    s.queue(tracks(&["q"]));
    assert!(s.start_save_playlist());
    assert_eq!(s.input_buffer(), "playlist");
    s.input_push('!');
    assert_eq!(s.confirm_input(), InputCommit::SavePlaylist("playlist!.m3u".to_string()));
}

#[test]
fn repeat_and_shuffle_steer_the_next_track() {
    let mut s = Session::new(tracks(&["a", "b", "c"]), RepeatMode::Off, false, "/m".to_string());
    assert_eq!(s.next_target(), Some(0));
    s.started(2);
    assert_eq!(s.next_target(), None);
    assert_eq!(s.cycle_repeat(), RepeatMode::All);
    assert_eq!(s.next_target(), Some(0));
    assert_eq!(s.prev_target(), Some(1));
    assert_eq!(s.cycle_repeat(), RepeatMode::One);
    assert_eq!(s.advance_target(true), Some(2));
    assert_eq!(s.advance_target(false), None);
    s.started(0);
    assert!(s.toggle_shuffle(12345));
    assert_eq!(s.tracks()[0].display, "a.mp3");
    let mut shuffled = names(&s);
    shuffled.sort();
    assert_eq!(shuffled, vec!["a.mp3", "b.mp3", "c.mp3"]);
    assert!(!s.toggle_shuffle(1));
    assert!(!s.shuffle());
    assert_eq!(s.repeat(), RepeatMode::One);
    s.stop();
    assert_eq!(s.playing(), None);
}

#[test]
fn enter_acts_on_the_highlighted_entry() {
    let mut s = Session::new(tracks(&["a", "b"]), RepeatMode::Off, false, "/m".to_string());
    s.move_selection(1);
    assert_eq!(s.activate_selection(None), Some(1));
    s.focus_next();
    s.set_browser(vec!["/".to_string(), "/m/x".to_string()]);
    s.select_last();
    assert_eq!(s.browser_dir(), "/m");
    assert_eq!(
        s.activate_selection(Some(OpenedEntry::Directory("/m/x".to_string(), vec!["/m".to_string()]))),
        None
    );
    assert_eq!(s.browser_dir(), "/m/x");
    assert_eq!(s.browser_selected(), 0);
    assert_eq!(s.browser().len(), 1);
    assert_eq!(s.activate_selection(Some(OpenedEntry::Playlist(None))), None);
    assert_eq!(names(&s), vec!["a.mp3", "b.mp3"]);
    assert_eq!(s.activate_selection(Some(OpenedEntry::Media("/m/z.ogg".to_string()))), Some(2));
    assert_eq!(s.focus(), FocusPane::Playlist);
    assert_eq!(s.selected(), 2);
    assert_eq!(s.tracks()[2].source, TrackRef::Path("/m/z.ogg".to_string()));
    s.focus_next();
    assert_eq!(s.activate_selection(Some(OpenedEntry::Playlist(Some(tracks(&["p", "q"]))))), Some(0));
    assert_eq!(names(&s), vec!["p.mp3", "q.mp3"]);
    assert_eq!(s.focus(), FocusPane::Playlist);
    s.focus_next();
    assert_eq!(s.activate_selection(Some(OpenedEntry::Other)), None);
}

#[test]
fn starting_a_track_counts_the_play() {
    let mut s = Session::new(tracks(&["a", "b"]), RepeatMode::Off, false, "/m".to_string());
    let mut st = Stats::from_lists(&[], &[], &[]);
    s.play_result(1, true, &mut st);
    assert_eq!(s.playing(), Some(1));
    assert_eq!(s.selected(), 1);
    assert_eq!(st.play_count(&"/m/b.mp3".to_string()), 1);
    assert_eq!(st.recent_list(), vec!["/m/b.mp3".to_string()]);
    s.play_result(0, false, &mut st);
    assert_eq!(s.playing(), None);
    assert_eq!(s.selected(), 1);
    s.play_result(9, true, &mut st);
    assert_eq!(st.play_count(&"/m/b.mp3".to_string()), 1);
}
