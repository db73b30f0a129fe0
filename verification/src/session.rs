//! The player's session: the playlist with its cursor and playing marker,
//! the file browser's listing and cursor, the focused pane, the list filter
//! and text input, and the repeat and shuffle settings. Every operation
//! keeps the cursors on entries that exist; every operation but replacing
//! the playlist from a playlist file keeps the playing marker on a track of
//! the playlist, and on the same track when the tracks move.
use vstd::prelude::*;

use crate::app::{filtered_indices, filtered_indices_spec, FocusPane, InputMode, RepeatMode};
use crate::input::{InputCommit, TextInput};
use crate::library::{display_name_of, short_name, string_views, Track, TrackRef};
use crate::stats::{count_in, recent_after, without, Stats};
use crate::config::RECENT_CAP;
use crate::player::{
    advance_index, advance_spec, clamp_selected, move_selected_track, next_track_index,
    next_track_spec, prev_track_index, prev_track_spec, remove_selected_track, shuffle_remaining,
    shuffled, snap_selection, snap_spec, wrap_move, wrap_move_spec,
};

verus! {

broadcast use vstd::string::group_string_axioms;

/// Every entry of a filter result indexes the filtered list.
pub proof fn lemma_filtered_in_bounds(items: Seq<Seq<char>>, query: Seq<char>)
    ensures
        forall|k: int|
            0 <= k < filtered_indices_spec(items, query).len() ==> #[trigger] filtered_indices_spec(
                items,
                query,
            )[k] < items.len(),
    decreases items.len(),
{
    if items.len() > 0 {
        lemma_filtered_in_bounds(items.drop_last(), query);
        let prev = filtered_indices_spec(items.drop_last(), query);
        let cur = filtered_indices_spec(items, query);
        assert forall|k: int| 0 <= k < cur.len() implies #[trigger] cur[k] < items.len() by {
            if k < prev.len() {
                assert(cur[k] == prev[k]);
            }
        }
    }
}

/// The names a pane lists: track titles, or the browser entries' file names.
pub open spec fn track_names(ts: Seq<Track>) -> Seq<Seq<char>> {
    ts.map_values(|t: Track| t.display@)
}

pub open spec fn entry_names(es: Seq<Seq<char>>) -> Seq<Seq<char>> {
    es.map_values(|p: Seq<char>| display_name_of(p))
}

/// The highlighted browser entry when Enter is pressed on it, with what
/// reading it gave.
pub enum OpenedEntry {
    /// A directory at this path, with its listing.
    Directory(String, Vec<String>),
    /// A playlist file, with its tracks, or `None` when it could not be read.
    Playlist(Option<Vec<Track>>),
    /// An audio or video file at this path.
    Media(String),
    /// Anything else.
    Other,
}

pub struct Session {
    tracks: Vec<Track>,
    selected: usize,
    playing: Option<usize>,
    focus: FocusPane,
    browser: Vec<String>,
    browser_dir: String,
    browser_selected: usize,
    input: TextInput,
    filter_pane: FocusPane,
    repeat: RepeatMode,
    shuffle: bool,
}

impl Session {
    pub closed spec fn tracks_spec(&self) -> Seq<Track> {
        self.tracks@
    }

    /// The playlist cursor.
    pub closed spec fn selected_spec(&self) -> usize {
        self.selected
    }

    /// The index of the playing track.
    pub closed spec fn playing_spec(&self) -> Option<usize> {
        self.playing
    }

    pub closed spec fn focus_spec(&self) -> FocusPane {
        self.focus
    }

    /// The browser's entries, as paths.
    pub closed spec fn browser_spec(&self) -> Seq<Seq<char>> {
        string_views(self.browser@)
    }

    /// The directory the browser shows.
    pub closed spec fn browser_dir_spec(&self) -> Seq<char> {
        self.browser_dir@
    }

    /// The browser cursor.
    pub closed spec fn browser_selected_spec(&self) -> usize {
        self.browser_selected
    }

    pub closed spec fn input_mode_spec(&self) -> InputMode {
        self.input.mode
    }

    /// The list filter as typed.
    pub closed spec fn filter_spec(&self) -> Seq<char> {
        self.input.filter_query@
    }

    /// The playlist name being typed.
    pub closed spec fn buffer_spec(&self) -> Seq<char> {
        self.input.buffer@
    }

    /// The pane the filter applies to.
    pub closed spec fn filter_pane_spec(&self) -> FocusPane {
        self.filter_pane
    }

    pub closed spec fn repeat_spec(&self) -> RepeatMode {
        self.repeat
    }

    pub closed spec fn shuffle_spec(&self) -> bool {
        self.shuffle
    }

    /// The cursors are on entries that exist (0 in an empty list).
    pub open spec fn wf(&self) -> bool {
        &&& (self.tracks_spec().len() == 0 ==> self.selected_spec() == 0)
        &&& (self.tracks_spec().len() > 0 ==> self.selected_spec() < self.tracks_spec().len())
        &&& (self.browser_spec().len() == 0 ==> self.browser_selected_spec() == 0)
        &&& (self.browser_spec().len() > 0 ==> self.browser_selected_spec()
            < self.browser_spec().len())
    }

    /// The playing marker, when set, is on a track of the playlist.
    pub open spec fn marker_on_track(&self) -> bool {
        self.playing_spec() matches Some(p) ==> p < self.tracks_spec().len()
    }

    /// The cursor of `pane`.
    pub open spec fn selection_spec(&self, pane: FocusPane) -> usize {
        match pane {
            FocusPane::Playlist => self.selected_spec(),
            FocusPane::Browser => self.browser_selected_spec(),
        }
    }

    /// The names `pane` lists.
    pub open spec fn names_spec(&self, pane: FocusPane) -> Seq<Seq<char>> {
        match pane {
            FocusPane::Playlist => track_names(self.tracks_spec()),
            FocusPane::Browser => entry_names(self.browser_spec()),
        }
    }

    /// The filter applied to `pane`: the typed filter for the filtered pane,
    /// none for the other.
    pub open spec fn query_spec(&self, pane: FocusPane) -> Seq<char> {
        if pane == self.filter_pane_spec() {
            self.filter_spec()
        } else {
            Seq::empty()
        }
    }

    /// The rows of `pane` that pass its filter, as indices into its list.
    pub open spec fn visible_spec(&self, pane: FocusPane) -> Seq<usize> {
        filtered_indices_spec(self.names_spec(pane), self.query_spec(pane))
    }

    /// Whether `other` is `self` with only the playlist cursor, the browser
    /// cursor and the playing marker possibly changed.
    pub open spec fn same_lists(&self, other: &Session) -> bool {
        &&& other.tracks_spec() == self.tracks_spec()
        &&& other.focus_spec() == self.focus_spec()
        &&& other.browser_spec() == self.browser_spec()
        &&& other.browser_dir_spec() == self.browser_dir_spec()
        &&& other.input_mode_spec() == self.input_mode_spec()
        &&& other.filter_spec() == self.filter_spec()
        &&& other.buffer_spec() == self.buffer_spec()
        &&& other.filter_pane_spec() == self.filter_pane_spec()
        &&& other.repeat_spec() == self.repeat_spec()
        &&& other.shuffle_spec() == self.shuffle_spec()
    }

    /// A session over the startup playlist: cursor on the first track,
    /// nothing playing, the playlist focused, an empty browser, no filter.
    pub fn new(tracks: Vec<Track>, repeat: RepeatMode, shuffle: bool, browser_dir: String) -> (r: Self)
        ensures
            r.browser_dir_spec() == browser_dir@,
            r.wf(),
            r.marker_on_track(),
            r.tracks_spec() == tracks@,
            r.selected_spec() == 0,
            r.playing_spec() is None,
            r.focus_spec() == FocusPane::Playlist,
            r.browser_spec().len() == 0,
            r.browser_selected_spec() == 0,
            r.input_mode_spec() == InputMode::Normal,
            r.filter_spec().len() == 0,
            r.buffer_spec().len() == 0,
            r.filter_pane_spec() == FocusPane::Playlist,
            r.repeat_spec() == repeat,
            r.shuffle_spec() == shuffle,
    {
        let r = Session {
            tracks,
            selected: 0,
            playing: None,
            focus: FocusPane::Playlist,
            browser: Vec::new(),
            browser_dir,
            browser_selected: 0,
            input: TextInput::new(),
            filter_pane: FocusPane::Playlist,
            repeat,
            shuffle,
        };
        assert(string_views(r.browser@) =~= Seq::<Seq<char>>::empty());
        r
    }

    pub fn tracks(&self) -> (r: &Vec<Track>)
        ensures
            r@ == self.tracks_spec(),
    {
        &self.tracks
    }

    pub fn selected(&self) -> (r: usize)
        ensures
            r == self.selected_spec(),
    {
        self.selected
    }

    pub fn playing(&self) -> (r: Option<usize>)
        ensures
            r == self.playing_spec(),
    {
        self.playing
    }

    pub fn focus(&self) -> (r: FocusPane)
        ensures
            r == self.focus_spec(),
    {
        self.focus
    }

    pub fn browser_selected(&self) -> (r: usize)
        ensures
            r == self.browser_selected_spec(),
    {
        self.browser_selected
    }

    /// The directory the browser shows.
    pub fn browser_dir(&self) -> (r: &String)
        ensures
            r@ == self.browser_dir_spec(),
    {
        &self.browser_dir
    }

    pub fn browser(&self) -> (r: &Vec<String>)
        ensures
            string_views(r@) == self.browser_spec(),
    {
        &self.browser
    }

    pub fn input_mode(&self) -> (r: InputMode)
        ensures
            r == self.input_mode_spec(),
    {
        self.input.mode
    }

    pub fn filter_query(&self) -> (r: &String)
        ensures
            r@ == self.filter_spec(),
    {
        &self.input.filter_query
    }

    pub fn input_buffer(&self) -> (r: &String)
        ensures
            r@ == self.buffer_spec(),
    {
        &self.input.buffer
    }

    pub fn filter_pane(&self) -> (r: FocusPane)
        ensures
            r == self.filter_pane_spec(),
    {
        self.filter_pane
    }

    pub fn repeat(&self) -> (r: RepeatMode)
        ensures
            r == self.repeat_spec(),
    {
        self.repeat
    }

    pub fn shuffle(&self) -> (r: bool)
        ensures
            r == self.shuffle_spec(),
    {
        self.shuffle
    }

    /// Replaces the browser listing (after changing directory or saving a
    /// playlist into it), pulling the cursor back onto the list.
    pub fn set_browser(&mut self, entries: Vec<String>)
        requires
            old(self).wf(),
        ensures
            final(self).wf(),
            final(self).browser_spec() == string_views(entries@),
            final(self).browser_dir_spec() == old(self).browser_dir_spec(),
            final(self).browser_selected_spec() == if old(self).browser_selected_spec() >= entries@.len() {
                if entries@.len() == 0 { 0 } else { (entries@.len() - 1) as usize }
            } else {
                old(self).browser_selected_spec()
            },
            final(self).tracks_spec() == old(self).tracks_spec(),
            final(self).selected_spec() == old(self).selected_spec(),
            final(self).playing_spec() == old(self).playing_spec(),
            final(self).focus_spec() == old(self).focus_spec(),
            final(self).input_mode_spec() == old(self).input_mode_spec(),
            final(self).filter_spec() == old(self).filter_spec(),
            final(self).buffer_spec() == old(self).buffer_spec(),
            final(self).filter_pane_spec() == old(self).filter_pane_spec(),
            final(self).repeat_spec() == old(self).repeat_spec(),
            final(self).shuffle_spec() == old(self).shuffle_spec(),
    {
        let n = entries.len();
        self.browser = entries;
        if self.browser_selected >= n {
            self.browser_selected = if n == 0 { 0 } else { n - 1 };
        }
    }

    /// Tab: switches focus between the playlist and the browser.
    pub fn focus_next(&mut self)
        requires
            old(self).wf(),
        ensures
            final(self).wf(),
            final(self).focus_spec() == match old(self).focus_spec() {
                FocusPane::Playlist => FocusPane::Browser,
                FocusPane::Browser => FocusPane::Playlist,
            },
            final(self).tracks_spec() == old(self).tracks_spec(),
            final(self).selected_spec() == old(self).selected_spec(),
            final(self).playing_spec() == old(self).playing_spec(),
            final(self).browser_spec() == old(self).browser_spec(),
            final(self).browser_dir_spec() == old(self).browser_dir_spec(),
            final(self).browser_selected_spec() == old(self).browser_selected_spec(),
            final(self).input_mode_spec() == old(self).input_mode_spec(),
            final(self).filter_spec() == old(self).filter_spec(),
            final(self).buffer_spec() == old(self).buffer_spec(),
            final(self).filter_pane_spec() == old(self).filter_pane_spec(),
            final(self).repeat_spec() == old(self).repeat_spec(),
            final(self).shuffle_spec() == old(self).shuffle_spec(),
    {
        self.focus = match self.focus {
            FocusPane::Playlist => FocusPane::Browser,
            FocusPane::Browser => FocusPane::Playlist,
        };
    }


    /// The other pane.
    pub open spec fn other_pane(pane: FocusPane) -> FocusPane {
        match pane {
            FocusPane::Playlist => FocusPane::Browser,
            FocusPane::Browser => FocusPane::Playlist,
        }
    }

    /// Whether `new` is `self` with at most the cursor of `pane` moved to
    /// `to`.
    pub open spec fn cursor_moved(&self, new: Session, pane: FocusPane, to: usize) -> bool {
        &&& self.same_lists(&new)
        &&& new.playing_spec() == self.playing_spec()
        &&& new.selection_spec(pane) == to
        &&& new.selection_spec(Self::other_pane(pane)) == self.selection_spec(Self::other_pane(pane))
    }

    fn selection(&self, pane: FocusPane) -> (r: usize)
        ensures
            r == self.selection_spec(pane),
    {
        match pane {
            FocusPane::Playlist => self.selected,
            FocusPane::Browser => self.browser_selected,
        }
    }

    fn set_selection(&mut self, pane: FocusPane, idx: usize)
        ensures
            old(self).cursor_moved(*final(self), pane, idx),
    {
        match pane {
            FocusPane::Playlist => self.selected = idx,
            FocusPane::Browser => self.browser_selected = idx,
        }
    }

    proof fn lemma_names_len(&self, pane: FocusPane)
        ensures
            self.names_spec(pane).len() == match pane {
                FocusPane::Playlist => self.tracks_spec().len(),
                FocusPane::Browser => self.browser_spec().len(),
            },
    {
    }

    /// Up/Down: moves the focused pane's cursor by `delta` visible rows,
    /// wrapping around; nothing happens when no row is visible.
    pub fn move_selection(&mut self, delta: i32)
        requires
            old(self).wf(),
        ensures
            final(self).wf(),
            ({
                let pane = old(self).focus_spec();
                let vis = old(self).visible_spec(pane);
                old(self).cursor_moved(
                    *final(self),
                    pane,
                    if vis.len() == 0 {
                        old(self).selection_spec(pane)
                    } else {
                        wrap_move_spec(vis, old(self).selection_spec(pane), delta)->0
                    },
                )
            }),
            old(self).visible_spec(old(self).focus_spec()).len() > 0 ==> old(self).visible_spec(
                old(self).focus_spec(),
            ).contains(final(self).selection_spec(old(self).focus_spec())),
    {
        let pane = self.focus;
        let vis = self.visible_indices(pane);
        proof {
            self.lemma_names_len(pane);
        }
        match wrap_move(vis.as_slice(), self.selection(pane), delta) {
            Some(to) => {
                proof {
                    crate::player::lemma_wrap_move_visible(vis@, self.selection_spec(pane), delta);
                    let k = choose|k: int| 0 <= k < vis@.len() && vis@[k] == to;
                    assert(vis@[k] < self.names_spec(pane).len());
                }
                self.set_selection(pane, to);
            },
            None => {},
        }
    }

    /// Page Up/Down: moves the cursor ten visible rows per step of `dir`.
    pub fn page(&mut self, dir: i32)
        requires
            old(self).wf(),
            -214748364 <= dir <= 214748364,
        ensures
            final(self).wf(),
            ({
                let pane = old(self).focus_spec();
                let vis = old(self).visible_spec(pane);
                old(self).cursor_moved(
                    *final(self),
                    pane,
                    if vis.len() == 0 {
                        old(self).selection_spec(pane)
                    } else {
                        wrap_move_spec(vis, old(self).selection_spec(pane), (dir * 10) as i32)->0
                    },
                )
            }),
    {
        self.move_selection(dir * 10);
    }

    /// Home: the focused pane's cursor to its first visible row.
    pub fn select_first(&mut self)
        requires
            old(self).wf(),
        ensures
            final(self).wf(),
            ({
                let pane = old(self).focus_spec();
                let vis = old(self).visible_spec(pane);
                old(self).cursor_moved(
                    *final(self),
                    pane,
                    if vis.len() == 0 { old(self).selection_spec(pane) } else { vis[0] },
                )
            }),
    {
        let pane = self.focus;
        let vis = self.visible_indices(pane);
        proof {
            self.lemma_names_len(pane);
        }
        if vis.len() > 0 {
            self.set_selection(pane, vis[0]);
        }
    }

    /// End: the focused pane's cursor to its last visible row.
    pub fn select_last(&mut self)
        requires
            old(self).wf(),
        ensures
            final(self).wf(),
            ({
                let pane = old(self).focus_spec();
                let vis = old(self).visible_spec(pane);
                old(self).cursor_moved(
                    *final(self),
                    pane,
                    if vis.len() == 0 { old(self).selection_spec(pane) } else { vis.last() },
                )
            }),
    {
        let pane = self.focus;
        let vis = self.visible_indices(pane);
        proof {
            self.lemma_names_len(pane);
        }
        if vis.len() > 0 {
            self.set_selection(pane, vis[vis.len() - 1]);
        }
    }

    /// Keeps the filtered pane's cursor on a visible row after the filter
    /// changed.
    fn snap_selection_to_visible(&mut self)
        requires
            old(self).wf(),
        ensures
            final(self).wf(),
            ({
                let pane = old(self).filter_pane_spec();
                old(self).cursor_moved(
                    *final(self),
                    pane,
                    snap_spec(old(self).visible_spec(pane), old(self).selection_spec(pane)),
                )
            }),
    {
        let pane = self.filter_pane;
        let vis = self.visible_indices(pane);
        proof {
            self.lemma_names_len(pane);
        }
        let to = snap_selection(vis.as_slice(), self.selection(pane));
        self.set_selection(pane, to);
    }


    /// Whether `new` has the playlist, playing marker, browser listing, focus,
    /// repeat and shuffle of `self`.
    pub open spec fn same_core(&self, new: Session) -> bool {
        &&& new.tracks_spec() == self.tracks_spec()
        &&& new.playing_spec() == self.playing_spec()
        &&& new.browser_spec() == self.browser_spec()
        &&& new.browser_dir_spec() == self.browser_dir_spec()
        &&& new.focus_spec() == self.focus_spec()
        &&& new.repeat_spec() == self.repeat_spec()
        &&& new.shuffle_spec() == self.shuffle_spec()
    }

    /// Whether both cursors of `new` are those of `self`.
    pub open spec fn same_cursors(&self, new: Session) -> bool {
        &&& new.selected_spec() == self.selected_spec()
        &&& new.browser_selected_spec() == self.browser_selected_spec()
    }

    /// `/`: starts a fresh filter on the focused pane.
    pub fn start_filter(&mut self)
        requires
            old(self).wf(),
        ensures
            final(self).wf(),
            old(self).same_core(*final(self)),
            old(self).same_cursors(*final(self)),
            final(self).filter_pane_spec() == old(self).focus_spec(),
            final(self).input_mode_spec() == InputMode::Filter,
            final(self).filter_spec().len() == 0,
            final(self).buffer_spec() == old(self).buffer_spec(),
    {
        self.filter_pane = self.focus;
        self.input.start_filter();
    }

    /// `w`: starts the "save playlist as" prompt with `playlist` typed;
    /// refused (`false`) when the playlist is empty.
    pub fn start_save_playlist(&mut self) -> (started: bool)
        requires
            old(self).wf(),
        ensures
            final(self).wf(),
            old(self).same_core(*final(self)),
            old(self).same_cursors(*final(self)),
            final(self).filter_pane_spec() == old(self).filter_pane_spec(),
            final(self).filter_spec() == old(self).filter_spec(),
            started == (old(self).tracks_spec().len() > 0),
            started ==> final(self).input_mode_spec() == InputMode::SavePlaylist
                && final(self).buffer_spec() == "playlist"@,
            !started ==> final(self).input_mode_spec() == old(self).input_mode_spec()
                && final(self).buffer_spec() == old(self).buffer_spec(),
    {
        self.input.start_save_playlist(self.tracks.len())
    }

    /// A typed character: extends the filter (keeping the filtered pane's
    /// cursor on a visible row) or the playlist name; control characters
    /// are ignored.
    pub fn input_push(&mut self, c: char)
        requires
            old(self).wf(),
        ensures
            final(self).wf(),
            old(self).same_core(*final(self)),
            final(self).filter_pane_spec() == old(self).filter_pane_spec(),
            final(self).input_mode_spec() == old(self).input_mode_spec(),
            final(self).filter_spec() == if old(self).input_mode_spec() == InputMode::Filter
                && !crate::player::is_control_spec(c) {
                old(self).filter_spec().push(c)
            } else {
                old(self).filter_spec()
            },
            final(self).buffer_spec() == if old(self).input_mode_spec() == InputMode::SavePlaylist
                && !crate::player::is_control_spec(c) {
                old(self).buffer_spec().push(c)
            } else {
                old(self).buffer_spec()
            },
            (old(self).input_mode_spec() == InputMode::Filter && !crate::player::is_control_spec(c))
                ==> ({
                let fp = old(self).filter_pane_spec();
                &&& final(self).selection_spec(fp) == snap_spec(
                    final(self).visible_spec(fp),
                    old(self).selection_spec(fp),
                )
                &&& final(self).selection_spec(Self::other_pane(fp)) == old(self).selection_spec(
                    Self::other_pane(fp),
                )
            }),
            !(old(self).input_mode_spec() == InputMode::Filter && !crate::player::is_control_spec(c))
                ==> old(self).same_cursors(*final(self)),
    {
        self.input.push(c);
        if self.input.mode == InputMode::Filter && !crate::player::is_control(c) {
            self.snap_selection_to_visible();
        }
    }

    /// Backspace: shortens the filter (keeping the filtered pane's cursor on
    /// a visible row) or the playlist name.
    pub fn input_backspace(&mut self)
        requires
            old(self).wf(),
        ensures
            final(self).wf(),
            old(self).same_core(*final(self)),
            final(self).filter_pane_spec() == old(self).filter_pane_spec(),
            final(self).input_mode_spec() == old(self).input_mode_spec(),
            final(self).filter_spec() == if old(self).input_mode_spec() == InputMode::Filter
                && old(self).filter_spec().len() > 0 {
                old(self).filter_spec().drop_last()
            } else {
                old(self).filter_spec()
            },
            final(self).buffer_spec() == if old(self).input_mode_spec() == InputMode::SavePlaylist
                && old(self).buffer_spec().len() > 0 {
                old(self).buffer_spec().drop_last()
            } else {
                old(self).buffer_spec()
            },
            old(self).input_mode_spec() == InputMode::Filter ==> ({
                let fp = old(self).filter_pane_spec();
                &&& final(self).selection_spec(fp) == snap_spec(
                    final(self).visible_spec(fp),
                    old(self).selection_spec(fp),
                )
                &&& final(self).selection_spec(Self::other_pane(fp)) == old(self).selection_spec(
                    Self::other_pane(fp),
                )
            }),
            old(self).input_mode_spec() != InputMode::Filter ==> old(self).same_cursors(*final(self)),
    {
        self.input.backspace();
        if self.input.mode == InputMode::Filter {
            self.snap_selection_to_visible();
        }
    }

    /// Esc while typing: stops typing; a filter is cleared.
    pub fn cancel_input(&mut self)
        requires
            old(self).wf(),
        ensures
            final(self).wf(),
            old(self).same_core(*final(self)),
            old(self).same_cursors(*final(self)),
            final(self).filter_pane_spec() == old(self).filter_pane_spec(),
            final(self).input_mode_spec() == InputMode::Normal,
            final(self).buffer_spec().len() == 0,
            final(self).filter_spec() == if old(self).input_mode_spec() == InputMode::Filter {
                Seq::<char>::empty()
            } else {
                old(self).filter_spec()
            },
    {
        self.input.cancel();
    }

    /// Enter while typing: a filter stays applied; a playlist name becomes
    /// the file to save to.
    pub fn confirm_input(&mut self) -> (r: InputCommit)
        requires
            old(self).wf(),
        ensures
            final(self).wf(),
            old(self).same_core(*final(self)),
            old(self).same_cursors(*final(self)),
            final(self).filter_pane_spec() == old(self).filter_pane_spec(),
            final(self).input_mode_spec() == InputMode::Normal,
            final(self).filter_spec() == old(self).filter_spec(),
            match old(self).input_mode_spec() {
                InputMode::Filter => r == InputCommit::KeepFilter && final(self).buffer_spec()
                    == old(self).buffer_spec(),
                InputMode::SavePlaylist => (r matches InputCommit::SavePlaylist(f) && f@
                    == crate::input::export_file_spec(old(self).buffer_spec()))
                    && final(self).buffer_spec().len() == 0,
                InputMode::Normal => r == InputCommit::Nothing && final(self).buffer_spec()
                    == old(self).buffer_spec(),
            },
    {
        self.input.confirm()
    }


    /// Whether `new` has the browser, focus, input, filter pane, repeat and
    /// shuffle of `self`.
    pub open spec fn same_surroundings(&self, new: Session) -> bool {
        &&& new.focus_spec() == self.focus_spec()
        &&& new.browser_spec() == self.browser_spec()
        &&& new.browser_dir_spec() == self.browser_dir_spec()
        &&& new.browser_selected_spec() == self.browser_selected_spec()
        &&& new.input_mode_spec() == self.input_mode_spec()
        &&& new.filter_spec() == self.filter_spec()
        &&& new.buffer_spec() == self.buffer_spec()
        &&& new.filter_pane_spec() == self.filter_pane_spec()
        &&& new.repeat_spec() == self.repeat_spec()
        &&& new.shuffle_spec() == self.shuffle_spec()
    }

    /// Track `idx` started playing: it becomes the playing track and the
    /// cursor moves to it.
    pub fn started(&mut self, idx: usize)
        requires
            old(self).wf(),
            idx < old(self).tracks_spec().len(),
        ensures
            final(self).wf(),
            final(self).marker_on_track(),
            old(self).same_surroundings(*final(self)),
            final(self).tracks_spec() == old(self).tracks_spec(),
            final(self).playing_spec() == Some(idx),
            final(self).selected_spec() == idx,
    {
        self.playing = Some(idx);
        self.selected = idx;
    }

    /// Playback stopped (or a track failed to start): nothing is playing;
    /// the cursor stays.
    pub fn stop(&mut self)
        requires
            old(self).wf(),
        ensures
            final(self).wf(),
            final(self).marker_on_track(),
            old(self).same_surroundings(*final(self)),
            final(self).tracks_spec() == old(self).tracks_spec(),
            final(self).playing_spec() is None,
            final(self).selected_spec() == old(self).selected_spec(),
    {
        self.playing = None;
    }

    /// Empties the playlist; nothing plays.
    pub fn clear_playlist(&mut self)
        requires
            old(self).wf(),
        ensures
            final(self).wf(),
            final(self).marker_on_track(),
            old(self).same_surroundings(*final(self)),
            final(self).tracks_spec().len() == 0,
            final(self).playing_spec() is None,
            final(self).selected_spec() == 0,
    {
        self.tracks = Vec::new();
        self.selected = 0;
        self.playing = None;
    }

    /// Appends tracks to the playlist (queued from the browser).
    pub fn queue(&mut self, more: Vec<Track>)
        requires
            old(self).wf(),
        ensures
            final(self).wf(),
            old(self).marker_on_track() ==> final(self).marker_on_track(),
            old(self).same_surroundings(*final(self)),
            final(self).tracks_spec() == old(self).tracks_spec() + more@,
            final(self).playing_spec() == old(self).playing_spec(),
            final(self).selected_spec() == old(self).selected_spec(),
    {
        let mut more = more;
        self.tracks.append(&mut more);
    }

    /// A playlist file opened from the browser replaces the playlist: the
    /// cursor goes to its top and the playlist takes focus. The playing
    /// marker is left as it was (the caller starts the first track).
    pub fn load_playlist(&mut self, tracks: Vec<Track>)
        requires
            old(self).wf(),
        ensures
            final(self).wf(),
            final(self).tracks_spec() == tracks@,
            final(self).selected_spec() == 0,
            final(self).focus_spec() == FocusPane::Playlist,
            final(self).playing_spec() == old(self).playing_spec(),
            final(self).browser_spec() == old(self).browser_spec(),
            final(self).browser_dir_spec() == old(self).browser_dir_spec(),
            final(self).browser_selected_spec() == old(self).browser_selected_spec(),
            final(self).input_mode_spec() == old(self).input_mode_spec(),
            final(self).filter_spec() == old(self).filter_spec(),
            final(self).buffer_spec() == old(self).buffer_spec(),
            final(self).filter_pane_spec() == old(self).filter_pane_spec(),
            final(self).repeat_spec() == old(self).repeat_spec(),
            final(self).shuffle_spec() == old(self).shuffle_spec(),
    {
        self.tracks = tracks;
        self.selected = 0;
        self.focus = FocusPane::Playlist;
    }

    /// A file opened from the browser joins the playlist: the cursor moves to
    /// it and the playlist takes focus. Returns its index (to play it).
    pub fn add_and_select(&mut self, track: Track) -> (idx: usize)
        requires
            old(self).wf(),
            old(self).tracks_spec().len() < usize::MAX,
        ensures
            final(self).wf(),
            old(self).marker_on_track() ==> final(self).marker_on_track(),
            final(self).tracks_spec() == old(self).tracks_spec().push(track),
            idx == old(self).tracks_spec().len(),
            final(self).selected_spec() == idx,
            final(self).focus_spec() == FocusPane::Playlist,
            final(self).playing_spec() == old(self).playing_spec(),
            final(self).browser_spec() == old(self).browser_spec(),
            final(self).browser_dir_spec() == old(self).browser_dir_spec(),
            final(self).browser_selected_spec() == old(self).browser_selected_spec(),
            final(self).input_mode_spec() == old(self).input_mode_spec(),
            final(self).filter_spec() == old(self).filter_spec(),
            final(self).buffer_spec() == old(self).buffer_spec(),
            final(self).filter_pane_spec() == old(self).filter_pane_spec(),
            final(self).repeat_spec() == old(self).repeat_spec(),
            final(self).shuffle_spec() == old(self).shuffle_spec(),
    {
        self.tracks.push(track);
        let idx = self.tracks.len() - 1;
        self.selected = idx;
        self.focus = FocusPane::Playlist;
        idx
    }

    /// Entering a directory in the browser: its listing replaces the old one
    /// and the browser cursor goes to the top.
    pub fn enter_directory(&mut self, dir: String, entries: Vec<String>)
        requires
            old(self).wf(),
        ensures
            final(self).wf(),
            final(self).browser_dir_spec() == dir@,
            old(self).marker_on_track() ==> final(self).marker_on_track(),
            final(self).browser_spec() == string_views(entries@),
            final(self).browser_selected_spec() == 0,
            final(self).tracks_spec() == old(self).tracks_spec(),
            final(self).selected_spec() == old(self).selected_spec(),
            final(self).playing_spec() == old(self).playing_spec(),
            final(self).focus_spec() == old(self).focus_spec(),
            final(self).input_mode_spec() == old(self).input_mode_spec(),
            final(self).filter_spec() == old(self).filter_spec(),
            final(self).buffer_spec() == old(self).buffer_spec(),
            final(self).filter_pane_spec() == old(self).filter_pane_spec(),
            final(self).repeat_spec() == old(self).repeat_spec(),
            final(self).shuffle_spec() == old(self).shuffle_spec(),
    {
        self.browser_dir = dir;
        self.browser_selected = 0;
        self.set_browser(entries);
    }

    /// The track to play next (`n`, or when a track ends and repeat is not
    /// `One`), if any.
    pub fn next_target(&self) -> (r: Option<usize>)
        ensures
            r == match next_track_spec(self.tracks_spec().len(), self.playing_spec(), self.repeat_spec()) {
                Some(i) => Some(i as usize),
                None => None,
            },
    {
        next_track_index(self.tracks.len(), self.playing, self.repeat)
    }

    /// The track to play for `p` (previous), if any.
    pub fn prev_target(&self) -> (r: Option<usize>)
        ensures
            r == match prev_track_spec(self.tracks_spec().len(), self.playing_spec(), self.repeat_spec()) {
                Some(i) => Some(i as usize),
                None => None,
            },
    {
        prev_track_index(self.tracks.len(), self.playing, self.repeat)
    }

    /// The track to start when the audio output reports `finished`: the same
    /// one under repeat `One`, else the next; none while something plays.
    pub fn advance_target(&self, finished: bool) -> (r: Option<usize>)
        ensures
            r == match advance_spec(self.tracks_spec().len(), self.playing_spec(), finished, self.repeat_spec()) {
                Some(i) => Some(i as usize),
                None => None,
            },
    {
        advance_index(self.tracks.len(), self.playing, finished, self.repeat)
    }

    /// `r`: the next repeat mode.
    pub fn cycle_repeat(&mut self) -> (r: RepeatMode)
        requires
            old(self).wf(),
        ensures
            final(self).wf(),
            r == final(self).repeat_spec(),
            final(self).repeat_spec() == old(self).repeat_spec().next_spec(),
            final(self).tracks_spec() == old(self).tracks_spec(),
            final(self).playing_spec() == old(self).playing_spec(),
            old(self).same_cursors(*final(self)),
            final(self).focus_spec() == old(self).focus_spec(),
            final(self).browser_spec() == old(self).browser_spec(),
            final(self).browser_dir_spec() == old(self).browser_dir_spec(),
            final(self).input_mode_spec() == old(self).input_mode_spec(),
            final(self).filter_spec() == old(self).filter_spec(),
            final(self).buffer_spec() == old(self).buffer_spec(),
            final(self).filter_pane_spec() == old(self).filter_pane_spec(),
            final(self).shuffle_spec() == old(self).shuffle_spec(),
    {
        self.repeat = self.repeat.cycle();
        self.repeat
    }

    /// `s`: flips shuffle; turning it on shuffles the tracks after the
    /// playing one with `seed`.
    pub fn toggle_shuffle(&mut self, seed: u64) -> (on: bool)
        requires
            old(self).wf(),
        ensures
            final(self).wf(),
            old(self).marker_on_track() ==> final(self).marker_on_track(),
            on == final(self).shuffle_spec(),
            final(self).shuffle_spec() == !old(self).shuffle_spec(),
            final(self).tracks_spec() == if final(self).shuffle_spec() {
                shuffled(old(self).tracks_spec(), old(self).playing_spec(), seed)
            } else {
                old(self).tracks_spec()
            },
            final(self).playing_spec() == old(self).playing_spec(),
            old(self).same_cursors(*final(self)),
            final(self).focus_spec() == old(self).focus_spec(),
            final(self).browser_spec() == old(self).browser_spec(),
            final(self).browser_dir_spec() == old(self).browser_dir_spec(),
            final(self).input_mode_spec() == old(self).input_mode_spec(),
            final(self).filter_spec() == old(self).filter_spec(),
            final(self).buffer_spec() == old(self).buffer_spec(),
            final(self).filter_pane_spec() == old(self).filter_pane_spec(),
            final(self).repeat_spec() == old(self).repeat_spec(),
            final(self).tracks_spec().to_multiset() == old(self).tracks_spec().to_multiset(),
            old(self).marker_on_track() ==> (old(self).playing_spec() matches Some(p)
                ==> final(self).tracks_spec()[p as int] == old(self).tracks_spec()[p as int]),
    {
        self.shuffle = !self.shuffle;
        if self.shuffle {
            let ghost before = self.tracks@;
            shuffle_remaining(&mut self.tracks, self.playing, seed);
            proof {
                crate::player::lemma_shuffle_permutes(before, self.playing, seed);
            }
        }
        self.shuffle
    }


    /// `x`: removes the highlighted track when the playlist is focused and
    /// not empty; `Some(stopped)` when a track was removed, `stopped` telling
    /// whether it was the playing one.
    pub fn remove_selected(&mut self) -> (r: Option<bool>)
        requires
            old(self).wf(),
        ensures
            final(self).wf(),
            old(self).marker_on_track() ==> final(self).marker_on_track(),
            old(self).same_surroundings(*final(self)),
            (old(self).focus_spec() != FocusPane::Playlist || old(self).tracks_spec().len() == 0) ==> {
                &&& r is None
                &&& final(self).tracks_spec() == old(self).tracks_spec()
                &&& final(self).selected_spec() == old(self).selected_spec()
                &&& final(self).playing_spec() == old(self).playing_spec()
            },
            (old(self).focus_spec() == FocusPane::Playlist && old(self).tracks_spec().len() > 0) ==> {
                let idx = old(self).selected_spec() as int;
                &&& final(self).tracks_spec() == old(self).tracks_spec().remove(idx)
                &&& r == Some(old(self).playing_spec() == Some(idx as usize))
                &&& final(self).playing_spec() == (match old(self).playing_spec() {
                    Some(p) => if p == idx {
                        None
                    } else if p > idx {
                        Some((p - 1) as usize)
                    } else {
                        Some(p)
                    },
                    None => None,
                })
                &&& final(self).selected_spec() == clamp_selected(
                    old(self).selected_spec(),
                    final(self).tracks_spec().len(),
                )
            },
            old(self).marker_on_track() && r == Some(false) ==> (old(self).playing_spec() matches Some(p)
                ==> final(self).playing_spec() matches Some(q) && final(self).tracks_spec()[q as int]
                == old(self).tracks_spec()[p as int]),
    {
        if self.focus != FocusPane::Playlist || self.tracks.len() == 0 {
            return None;
        }
        proof {
            match self.playing {
                Some(p) => if p != self.selected && p < self.tracks@.len() {
                    crate::player::lemma_remove_keeps_playing(self.tracks@, self.selected as int, p as int);
                },
                None => {},
            }
        }
        let out = remove_selected_track(&mut self.tracks, self.selected, self.playing);
        self.selected = out.selected;
        self.playing = out.playing;
        Some(out.stopped)
    }

    /// Whether a filter hides rows of the playlist.
    pub open spec fn playlist_filtered(&self) -> bool {
        self.filter_pane_spec() == FocusPane::Playlist && crate::text::trim(self.filter_spec()).len() > 0
    }

    /// Shift+Up/Down: moves the highlighted track `delta` rows, with the
    /// cursor and the playing marker following it; only in the focused,
    /// unfiltered playlist and when the target row exists. `true` when moved.
    pub fn move_selected(&mut self, delta: i32) -> (moved: bool)
        requires
            old(self).wf(),
        ensures
            final(self).wf(),
            old(self).marker_on_track() ==> final(self).marker_on_track(),
            old(self).same_surroundings(*final(self)),
            ({
                let n = old(self).tracks_spec().len();
                let from = old(self).selected_spec() as int;
                let to = from + delta;
                if old(self).focus_spec() != FocusPane::Playlist || old(self).playlist_filtered() || n < 2
                    || to < 0 || to >= n {
                    &&& !moved
                    &&& final(self).tracks_spec() == old(self).tracks_spec()
                    &&& final(self).selected_spec() == old(self).selected_spec()
                    &&& final(self).playing_spec() == old(self).playing_spec()
                } else {
                    &&& moved
                    &&& final(self).tracks_spec() == old(self).tracks_spec().update(
                        from,
                        old(self).tracks_spec()[to],
                    ).update(to, old(self).tracks_spec()[from])
                    &&& final(self).selected_spec() == to
                    &&& final(self).playing_spec() == (match old(self).playing_spec() {
                        Some(p) => if p == from {
                            Some(to as usize)
                        } else if p == to {
                            Some(from as usize)
                        } else {
                            Some(p)
                        },
                        None => None,
                    })
                }
            }),
            old(self).marker_on_track() ==> (old(self).playing_spec() matches Some(p)
                ==> final(self).playing_spec() matches Some(q) && final(self).tracks_spec()[q as int]
                == old(self).tracks_spec()[p as int]),
            final(self).tracks_spec().to_multiset() == old(self).tracks_spec().to_multiset(),
    {
        if self.focus != FocusPane::Playlist {
            return false;
        }
        if self.filter_pane == FocusPane::Playlist {
            let q = crate::text::trim_chars(crate::text::to_chars(self.input.filter_query.as_str()).as_slice());
            if q.len() > 0 {
                return false;
            }
        }
        let ghost before = self.tracks@;
        let ghost sel = self.selected;
        let r = move_selected_track(&mut self.tracks, self.selected, self.playing, delta);
        proof {
            if r is Some {
                let n = before.len();
                let to = sel + delta;
                match self.playing {
                    Some(p) => if p < n {
                        crate::player::lemma_move_keeps_tracks(before, sel as int, to, p as int);
                    } else {
                        crate::player::lemma_move_keeps_tracks(before, sel as int, to, sel as int);
                    },
                    None => {
                        crate::player::lemma_move_keeps_tracks(before, sel as int, to, sel as int);
                    },
                }
            }
        }
        match r {
            Some(out) => {
                self.selected = out.selected;
                self.playing = out.playing;
                true
            },
            None => false,
        }
    }


    /// Whether `new` is `self` in every part.
    pub open spec fn same_session(&self, new: Session) -> bool {
        &&& self.same_lists(&new)
        &&& self.same_cursors(new)
        &&& new.playing_spec() == self.playing_spec()
    }

    /// Enter. On the playlist: the highlighted track is to be played (its
    /// index is returned; nothing when the playlist is empty). On the
    /// browser, by what the highlighted entry is: a directory is entered
    /// (its listing shown, cursor on top); a playlist file that could be
    /// read replaces the playlist (cursor on top, playlist focused) and its
    /// first track is to be played; a media file joins the playlist (cursor
    /// on it, playlist focused) and is to be played; anything else, or an
    /// unreadable playlist, changes nothing.
    pub fn activate_selection(&mut self, entry: Option<OpenedEntry>) -> (play: Option<usize>)
        requires
            old(self).wf(),
            old(self).tracks_spec().len() < usize::MAX,
        ensures
            final(self).wf(),
            old(self).focus_spec() == FocusPane::Playlist ==> {
                &&& old(self).same_session(*final(self))
                &&& play == if old(self).tracks_spec().len() > 0 {
                    Some(old(self).selected_spec())
                } else {
                    None
                }
            },
            old(self).focus_spec() == FocusPane::Browser ==> match entry {
                Some(OpenedEntry::Directory(dir, listing)) => {
                    &&& play is None
                    &&& final(self).browser_dir_spec() == dir@
                    &&& final(self).browser_spec() == string_views(listing@)
                    &&& final(self).browser_selected_spec() == 0
                    &&& final(self).tracks_spec() == old(self).tracks_spec()
                    &&& final(self).selected_spec() == old(self).selected_spec()
                    &&& final(self).playing_spec() == old(self).playing_spec()
                    &&& final(self).focus_spec() == old(self).focus_spec()
                    &&& final(self).input_mode_spec() == old(self).input_mode_spec()
                    &&& final(self).filter_spec() == old(self).filter_spec()
                    &&& final(self).buffer_spec() == old(self).buffer_spec()
                    &&& final(self).filter_pane_spec() == old(self).filter_pane_spec()
                    &&& final(self).repeat_spec() == old(self).repeat_spec()
                    &&& final(self).shuffle_spec() == old(self).shuffle_spec()
                },
                Some(OpenedEntry::Playlist(Some(ts))) => {
                    &&& play == if ts@.len() > 0 { Some(0usize) } else { None }
                    &&& final(self).tracks_spec() == ts@
                    &&& final(self).selected_spec() == 0
                    &&& final(self).focus_spec() == FocusPane::Playlist
                    &&& final(self).playing_spec() == old(self).playing_spec()
                    &&& old(self).same_browser_and_input(*final(self))
                },
                Some(OpenedEntry::Media(path)) => {
                    let n = old(self).tracks_spec().len();
                    &&& play == Some(n as usize)
                    &&& final(self).tracks_spec().len() == n + 1
                    &&& final(self).tracks_spec().take(n as int) == old(self).tracks_spec()
                    &&& final(self).tracks_spec()[n as int].source == TrackRef::Path(path)
                    &&& final(self).tracks_spec()[n as int].display@ == display_name_of(path@)
                    &&& final(self).selected_spec() == n
                    &&& final(self).focus_spec() == FocusPane::Playlist
                    &&& final(self).playing_spec() == old(self).playing_spec()
                    &&& old(self).same_browser_and_input(*final(self))
                },
                _ => play is None && old(self).same_session(*final(self)),
            },
    {
        if self.focus == FocusPane::Playlist {
            if self.tracks.len() > 0 {
                return Some(self.selected);
            }
            return None;
        }
        match entry {
            Some(OpenedEntry::Directory(dir, listing)) => {
                self.enter_directory(dir, listing);
                None
            },
            Some(OpenedEntry::Playlist(Some(ts))) => {
                let n = ts.len();
                self.load_playlist(ts);
                if n > 0 {
                    Some(0)
                } else {
                    None
                }
            },
            Some(OpenedEntry::Media(path)) => {
                let ghost before = self.tracks@;
                let idx = self.add_and_select(Track::from_path(path));
                assert(self.tracks@.take(idx as int) =~= before);
                Some(idx)
            },
            _ => None,
        }
    }

    /// Whether `new` has the browser, input, filter pane, repeat and shuffle
    /// of `self`.
    pub open spec fn same_browser_and_input(&self, new: Session) -> bool {
        &&& new.browser_spec() == self.browser_spec()
        &&& new.browser_dir_spec() == self.browser_dir_spec()
        &&& new.browser_selected_spec() == self.browser_selected_spec()
        &&& new.input_mode_spec() == self.input_mode_spec()
        &&& new.filter_spec() == self.filter_spec()
        &&& new.buffer_spec() == self.buffer_spec()
        &&& new.filter_pane_spec() == self.filter_pane_spec()
        &&& new.repeat_spec() == self.repeat_spec()
        &&& new.shuffle_spec() == self.shuffle_spec()
    }

    /// What came of starting track `idx` (an index past the playlist is
    /// ignored): when it `started`, it is the playing track, the cursor moves
    /// to it, and its play is counted in `stats` (play count up by one, front
    /// of the recently-played list); when it failed, nothing plays.
    pub fn play_result(&mut self, idx: usize, started: bool, stats: &mut Stats)
        requires
            old(self).wf(),
            old(stats).wf(),
            started && idx < old(self).tracks_spec().len() ==> count_in(
                old(stats).counts_spec(),
                old(self).tracks_spec()[idx as int].source.locator_spec(),
            ) < u32::MAX,
        ensures
            final(self).wf(),
            final(stats).wf(),
            old(self).same_browser_and_input(*final(self)),
            final(self).tracks_spec() == old(self).tracks_spec(),
            final(self).focus_spec() == old(self).focus_spec(),
            idx >= old(self).tracks_spec().len() ==> {
                &&& old(self).same_session(*final(self))
                &&& *final(stats) == *old(stats)
            },
            idx < old(self).tracks_spec().len() && started ==> ({
                let key = old(self).tracks_spec()[idx as int].source.locator_spec();
                &&& final(self).playing_spec() == Some(idx)
                &&& final(self).selected_spec() == idx
                &&& final(stats).counts_spec() == old(stats).counts_spec().insert(
                    key,
                    (count_in(old(stats).counts_spec(), key) + 1) as u32,
                )
                &&& final(stats).recent_spec() == recent_after(old(stats).recent_spec(), key)
                &&& final(stats).favorites_spec() == old(stats).favorites_spec()
                &&& count_in(final(stats).counts_spec(), key) == count_in(old(stats).counts_spec(), key) + 1
                &&& final(stats).recent_spec()[0] == key
                &&& final(stats).recent_spec().len() <= RECENT_CAP
                &&& forall|i: int|
                    1 <= i < final(stats).recent_spec().len() ==> #[trigger] final(stats).recent_spec()[i]
                        != key
                &&& final(stats).recent_spec().skip(1) == without(old(stats).recent_spec(), key).take(
                    final(stats).recent_spec().len() - 1,
                )
            }),
            idx < old(self).tracks_spec().len() && !started ==> {
                &&& final(self).playing_spec() is None
                &&& final(self).selected_spec() == old(self).selected_spec()
                &&& *final(stats) == *old(stats)
            },
    {
        if idx >= self.tracks.len() {
            return;
        }
        if started {
            let key = self.tracks[idx].source.locator();
            let ghost old_recent = stats.recent_spec();
            stats.note_play(&key);
            proof {
                crate::stats::lemma_recent_after(old_recent, key@);
                let r = recent_after(old_recent, key@);
                assert(r.skip(1) =~= without(old_recent, key@).take(r.len() - 1));
            }
            self.started(idx);
        } else {
            self.stop();
        }
    }

    /// The rows of `pane` that pass its filter, as indices into its list.
    pub fn visible_indices(&self, pane: FocusPane) -> (r: Vec<usize>)
        ensures
            r@ == self.visible_spec(pane),
            forall|k: int| 0 <= k < r@.len() ==> #[trigger] r@[k] < self.names_spec(pane).len(),
    {
        let q: &str = if pane == self.filter_pane {
            self.input.filter_query.as_str()
        } else {
            ""
        };
        proof {
            reveal_strlit("");
            lemma_filtered_in_bounds(self.names_spec(pane), self.query_spec(pane));
        }
        match pane {
            FocusPane::Playlist => {
                let mut names: Vec<&str> = Vec::new();
                let mut i: usize = 0;
                while i < self.tracks.len()
                    invariant
                        i <= self.tracks@.len(),
                        names@.len() == i,
                        forall|k: int| 0 <= k < i ==> (#[trigger] names@[k])@ == self.tracks@[k].display@,
                    decreases self.tracks.len() - i,
                {
                    names.push(self.tracks[i].display.as_str());
                    i += 1;
                }
                assert(names@.map_values(|s: &str| s@) =~= track_names(self.tracks@));
                assert(q@ == self.query_spec(pane));
                let r = filtered_indices(names.as_slice(), q);
                assert(r@ == filtered_indices_spec(track_names(self.tracks@), q@));
                r
            },
            FocusPane::Browser => {
                let mut owned: Vec<String> = Vec::new();
                let mut i: usize = 0;
                while i < self.browser.len()
                    invariant
                        i <= self.browser@.len(),
                        owned@.len() == i,
                        forall|k: int|
                            0 <= k < i ==> (#[trigger] owned@[k])@ == display_name_of(self.browser@[k]@),
                    decreases self.browser.len() - i,
                {
                    owned.push(short_name(self.browser[i].as_str()));
                    i += 1;
                }
                let mut names: Vec<&str> = Vec::new();
                let mut j: usize = 0;
                while j < owned.len()
                    invariant
                        j <= owned@.len(),
                        names@.len() == j,
                        forall|k: int| 0 <= k < j ==> (#[trigger] names@[k])@ == owned@[k]@,
                    decreases owned.len() - j,
                {
                    names.push(owned[j].as_str());
                    j += 1;
                }
                assert(names@.map_values(|s: &str| s@) =~= entry_names(string_views(self.browser@)));
                assert(q@ == self.query_spec(pane));
                let r = filtered_indices(names.as_slice(), q);
                assert(r@ == filtered_indices_spec(entry_names(string_views(self.browser@)), q@));
                r
            },
        }
    }
}

} // verus!
