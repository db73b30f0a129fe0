use sparkplayer::app::{FocusPane, RepeatMode, SearchScope};
use sparkplayer::config::{session_config, Config};
use sparkplayer::player::favorite_target;
use sparkplayer::search::SearchPanel;
use sparkplayer::visualizer::VisMode;
use sparkplayer::library::Track;
use sparkplayer::stats::Stats;

fn s(x: &str) -> String {
    x.to_string()
}

#[test]
fn loading_dedups_favorites_and_keeps_last_count() {
    let st = Stats::from_lists(
        &[s("a"), s("b"), s("a")],
        &[s("b"), s("a")],
        &[(s("a"), 2), (s("b"), 1), (s("a"), 5)],
    );
    assert_eq!(st.favorites_list(), vec![s("a"), s("b")]);
    assert_eq!(st.recent_list(), vec![s("b"), s("a")]);
    assert_eq!(st.play_count(&s("a")), 5);
    assert_eq!(st.play_count(&s("b")), 1);
    assert_eq!(st.play_count(&s("c")), 0);
    assert_eq!(st.count_list().len(), 2);
}

#[test]
fn playing_moves_to_the_front_and_counts() {
    let mut st = Stats::from_lists(&[], &[s("x"), s("y"), s("x")], &[]);
    st.note_play(&s("y"));
    assert_eq!(st.recent_list(), vec![s("y"), s("x"), s("x")]);
    st.note_play(&s("x"));
    assert_eq!(st.recent_list(), vec![s("x"), s("y")]);
    assert_eq!(st.play_count(&s("x")), 1);
    assert_eq!(st.play_count(&s("y")), 1);
    st.note_play(&s("y"));
    assert_eq!(st.play_count(&s("y")), 2);
}

#[test]
fn recent_list_is_capped() {
    let mut st = Stats::from_lists(&[], &[], &[]);
    for i in 0..60 {
        st.note_play(&format!("t{i}"));
    }
    let r = st.recent_list();
    assert_eq!(r.len(), 50);
    assert_eq!(r[0], "t59");
    assert_eq!(r[49], "t10");
}

#[test]
fn favorites_toggle() {
    let mut st = Stats::from_lists(&[s("a")], &[], &[]);
    assert!(st.is_favorite(&s("a")));
    assert!(!st.toggle_favorite(&s("a")));
    assert!(!st.is_favorite(&s("a")));
    assert!(st.toggle_favorite(&s("b")));
    assert_eq!(st.favorites_list(), vec![s("b")]);
}

fn index() -> Vec<Track> {
    vec![
        Track::from_path(s("/m/Alpha.mp3")),
        Track::from_path(s("/m/Beta.mp3")),
        Track::from_path(s("/m/Gamma.mp3")),
        Track::from_path(s("/m/Beatles.mp3")),
    ]
}

#[test]
fn search_filters_by_scope_and_query() {
    let st = Stats::from_lists(&[s("/m/Gamma.mp3"), s("/m/Beta.mp3")], &[], &[]);
    let ix = index();
    assert_eq!(st.search_results(&ix, SearchScope::All, ""), vec![0, 1, 2, 3]);
    assert_eq!(st.search_results(&ix, SearchScope::All, "  BEA "), vec![1, 3]);
    assert_eq!(st.search_results(&ix, SearchScope::All, "bta"), vec![1]);
    assert_eq!(st.search_results(&ix, SearchScope::Favorites, ""), vec![1, 2]);
    assert_eq!(st.search_results(&ix, SearchScope::MostPlayed, ""), Vec::<usize>::new());
}

#[test]
fn search_orders_recent_and_most_played() {
    let st = Stats::from_lists(
        &[],
        &[s("/m/Beatles.mp3"), s("/m/Alpha.mp3"), s("/m/Gamma.mp3")],
        &[(s("/m/Alpha.mp3"), 2), (s("/m/Gamma.mp3"), 9), (s("/m/Beta.mp3"), 2)],
    );
    let ix = index();
    assert_eq!(st.search_results(&ix, SearchScope::Recent, ""), vec![3, 0, 2]);
    assert_eq!(st.search_results(&ix, SearchScope::MostPlayed, ""), vec![2, 0, 1]);
    assert_eq!(st.search_results(&ix, SearchScope::MostPlayed, "a"), vec![2, 0, 1]);
    assert_eq!(st.search_results(&ix, SearchScope::Recent, "mm"), vec![2]);
}

#[test]
fn favorite_key_targets_focus_then_playing() {
    let playing = Some(s("/m/now.mp3"));
    assert_eq!(favorite_target(FocusPane::Playlist, Some(s("/m/sel.mp3")), None, playing.clone()), Some(s("/m/sel.mp3")));
    assert_eq!(favorite_target(FocusPane::Playlist, None, None, playing.clone()), playing);
    assert_eq!(
        favorite_target(FocusPane::Browser, Some(s("/m/sel.mp3")), Some((s("/m/b.flac"), true)), playing.clone()),
        Some(s("/m/b.flac"))
    );
    assert_eq!(favorite_target(FocusPane::Browser, None, Some((s("/m/albums"), false)), playing.clone()), playing);
    assert_eq!(favorite_target(FocusPane::Browser, None, Some((s("/m/list.m3u"), true)), None), None);
}

#[test]
fn session_snapshot_round_trips_through_the_settings_file() {
    let stats = Stats::from_lists(&[s("/m/a.mp3")], &[s("/m/b.mp3")], &[(s("/m/b.mp3"), 3)]);
    let tracks = vec![
        Track::from_path(s("/m/a.mp3")),
        Track::from_url(s("blob:1"), s("web.mp3")),
        Track::from_path(s("/m/b.mp3")),
    ];
    let cfg = session_config(
        "neon", 1200, VisMode::Radial, 2048, 30, "/m", RepeatMode::All, true, &tracks, Some(2), 61500, &stats,
    );
    assert_eq!(cfg.theme, "neon");
    assert_eq!(cfg.volume, 1200);
    assert_eq!(cfg.visualizer, "radial");
    assert_eq!(cfg.last_dir, Some(s("/m")));
    assert_eq!(cfg.repeat, "all");
    assert!(cfg.shuffle);
    assert_eq!(cfg.playlist, vec![s("/m/a.mp3"), s("/m/b.mp3")]);
    assert_eq!(cfg.playing_index, Some(2));
    assert_eq!(cfg.position_ms, 61500);
    assert_eq!(cfg.favorites, vec![s("/m/a.mp3")]);
    assert_eq!(cfg.recent, vec![s("/m/b.mp3")]);
    assert_eq!(cfg.play_counts, vec![(s("/m/b.mp3"), 3)]);
    assert_eq!(Config::parse(&cfg.serialize()), cfg);
}

#[test]
fn search_overlay_keeps_its_cursor_on_the_results() {
    let st = Stats::from_lists(&[s("/m/Beta.mp3")], &[], &[]);
    let mut panel = SearchPanel::new();
    panel.selected = 7;
    panel.set_search_index(index(), &st);
    assert!(panel.ready);
    assert_eq!(panel.selected, 3);
    panel.open_search();
    assert!(panel.visible);
    panel.search_move(-1, &st);
    assert_eq!(panel.selected, 3);
    panel.search_input_push('b');
    panel.search_input_push('e');
    panel.search_input_push('\u{7}');
    assert_eq!(panel.query, "be");
    assert_eq!(panel.selected, 0);
    assert_eq!(panel.results(&st), vec![1, 3]);
    panel.search_move(1, &st);
    assert_eq!(panel.activate(&st), Some(3));
    assert!(!panel.visible);
    panel.open_search();
    panel.search_cycle_scope();
    assert_eq!(panel.scope, SearchScope::Favorites);
    assert_eq!(panel.results(&st), vec![1]);
    panel.search_input_push('z');
    assert_eq!(panel.activate(&st), None);
    assert!(panel.visible);
    panel.search_input_backspace();
    assert_eq!(panel.query, "");
    panel.close_search();
    assert!(!panel.visible);
}
