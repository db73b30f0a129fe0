//! The whole-library search overlay: its index of tracks, the typed query,
//! the scope and the cursor over the results.
use vstd::prelude::*;

use crate::app::SearchScope;
use crate::input::{drop_last_char, with_char};
use crate::library::Track;
use crate::player::{
    clamp_search_selection, clamp_search_spec, is_control, is_control_spec, search_move,
    search_move_spec,
};
use crate::stats::{search_spec, Stats};

verus! {

broadcast use vstd::string::group_string_axioms;

pub struct SearchPanel {
    /// The tracks searched (the library scan, once it is done).
    pub index: Vec<Track>,
    /// Whether the library scan has delivered the index.
    pub ready: bool,
    /// Whether the overlay is shown.
    pub visible: bool,
    pub query: String,
    /// The cursor, an index into the results.
    pub selected: usize,
    pub scope: SearchScope,
}

impl SearchPanel {
    /// The results for the panel's scope and query under `stats`.
    pub open spec fn results_spec(&self, stats: &Stats) -> Seq<usize> {
        search_spec(
            self.scope,
            stats.favorites_spec(),
            stats.recent_spec(),
            stats.counts_spec(),
            self.index@,
            self.query@,
        )
    }

    /// A hidden panel over an empty index, searching everything.
    pub fn new() -> (r: Self)
        ensures
            r.index@.len() == 0,
            !r.ready,
            !r.visible,
            r.query@.len() == 0,
            r.selected == 0,
            r.scope == SearchScope::All,
    {
        SearchPanel {
            index: Vec::new(),
            ready: false,
            visible: false,
            query: String::new(),
            selected: 0,
            scope: SearchScope::All,
        }
    }

    /// The result rows, as indices into the index.
    pub fn results(&self, stats: &Stats) -> (r: Vec<usize>)
        requires
            stats.wf(),
        ensures
            r@ == self.results_spec(stats),
    {
        stats.search_results(self.index.as_slice(), self.scope, self.query.as_str())
    }

    /// The library scan delivered its tracks: they become the index, and the
    /// cursor is pulled back onto the results.
    pub fn set_search_index(&mut self, tracks: Vec<Track>, stats: &Stats)
        requires
            stats.wf(),
        ensures
            final(self).index@ == tracks@,
            final(self).ready,
            final(self).visible == old(self).visible,
            final(self).query@ == old(self).query@,
            final(self).scope == old(self).scope,
            final(self).selected == clamp_search_spec(
                final(self).results_spec(stats).len() as usize,
                old(self).selected,
            ),
    {
        self.index = tracks;
        self.ready = true;
        let len = self.results(stats).len();
        self.selected = clamp_search_selection(len, self.selected);
    }

    /// `f`: shows the overlay with an empty query and the cursor on top.
    pub fn open_search(&mut self)
        ensures
            final(self).visible,
            final(self).query@.len() == 0,
            final(self).selected == 0,
            final(self).index@ == old(self).index@,
            final(self).ready == old(self).ready,
            final(self).scope == old(self).scope,
    {
        self.visible = true;
        self.query = String::new();
        self.selected = 0;
    }

    pub fn close_search(&mut self)
        ensures
            !final(self).visible,
            final(self).query@ == old(self).query@,
            final(self).selected == old(self).selected,
            final(self).index@ == old(self).index@,
            final(self).ready == old(self).ready,
            final(self).scope == old(self).scope,
    {
        self.visible = false;
    }

    /// A typed character extends the query and puts the cursor on top;
    /// control characters are ignored.
    pub fn search_input_push(&mut self, c: char)
        ensures
            is_control_spec(c) ==> final(self).query@ == old(self).query@ && final(self).selected
                == old(self).selected,
            !is_control_spec(c) ==> final(self).query@ == old(self).query@.push(c)
                && final(self).selected == 0,
            final(self).visible == old(self).visible,
            final(self).index@ == old(self).index@,
            final(self).ready == old(self).ready,
            final(self).scope == old(self).scope,
    {
        if is_control(c) {
            return;
        }
        self.query = with_char(&self.query, c);
        self.selected = 0;
    }

    /// Backspace shortens the query and puts the cursor on top.
    pub fn search_input_backspace(&mut self)
        ensures
            final(self).query@ == if old(self).query@.len() == 0 {
                old(self).query@
            } else {
                old(self).query@.drop_last()
            },
            final(self).selected == 0,
            final(self).visible == old(self).visible,
            final(self).index@ == old(self).index@,
            final(self).ready == old(self).ready,
            final(self).scope == old(self).scope,
    {
        self.query = drop_last_char(&self.query);
        self.selected = 0;
    }

    /// Tab: the next scope, cursor on top.
    pub fn search_cycle_scope(&mut self)
        ensures
            final(self).scope == old(self).scope.next_spec(),
            final(self).selected == 0,
            final(self).query@ == old(self).query@,
            final(self).visible == old(self).visible,
            final(self).index@ == old(self).index@,
            final(self).ready == old(self).ready,
    {
        self.scope = self.scope.cycle();
        self.selected = 0;
    }

    /// Up/Down: moves the cursor over the results, wrapping around.
    pub fn search_move(&mut self, delta: i32, stats: &Stats)
        requires
            stats.wf(),
        ensures
            final(self).selected == search_move_spec(
                old(self).results_spec(stats).len() as usize,
                old(self).selected,
                delta,
            ),
            final(self).query@ == old(self).query@,
            final(self).visible == old(self).visible,
            final(self).index@ == old(self).index@,
            final(self).ready == old(self).ready,
            final(self).scope == old(self).scope,
    {
        let len = self.results(stats).len();
        self.selected = search_move(len, self.selected, delta);
    }

    /// Enter: the index entry of the highlighted result, closing the
    /// overlay; nothing (and the overlay stays) when no result is
    /// highlighted.
    pub fn activate(&mut self, stats: &Stats) -> (r: Option<usize>)
        requires
            stats.wf(),
        ensures
            ({
                let res = old(self).results_spec(stats);
                if old(self).selected < res.len() {
                    &&& r == Some(res[old(self).selected as int])
                    &&& !final(self).visible
                } else {
                    &&& r is None
                    &&& final(self).visible == old(self).visible
                }
            }),
            final(self).query@ == old(self).query@,
            final(self).selected == old(self).selected,
            final(self).index@ == old(self).index@,
            final(self).ready == old(self).ready,
            final(self).scope == old(self).scope,
    {
        let res = self.results(stats);
        if self.selected < res.len() {
            let idx = res[self.selected];
            self.close_search();
            Some(idx)
        } else {
            None
        }
    }
}

} // verus!
