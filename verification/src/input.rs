//! Text entry: the list filter and the "save playlist as" prompt.
use vstd::prelude::*;

use crate::app::InputMode;
use crate::player::{is_control, is_control_spec};
use crate::text::{concat_chars, string_from_chars, sub_chars, to_chars, trim, trim_chars};

verus! {

broadcast use vstd::string::group_string_axioms;

/// The text being typed, and what it is for.
pub struct TextInput {
    pub mode: InputMode,
    /// The list filter (kept after Enter, cleared by Esc).
    pub filter_query: String,
    /// The playlist name being typed.
    pub buffer: String,
}

/// What Enter asks for.
#[derive(Debug, Clone, PartialEq, Eq)]
pub enum InputCommit {
    Nothing,
    /// Keep the filter applied and stop typing.
    KeepFilter,
    /// Save the playlist under this file name.
    SavePlaylist(String),
}

/// The file a playlist name is saved as: the trimmed name (or `playlist`
/// when blank) with `.m3u` added.
pub open spec fn export_file_spec(name: Seq<char>) -> Seq<char> {
    (if trim(name).len() == 0 {
        "playlist"@
    } else {
        trim(name)
    }) + ".m3u"@
}

pub fn export_file_name(name: &str) -> (r: String)
    ensures
        r@ == export_file_spec(name@),
{
    let t = trim_chars(to_chars(name).as_slice());
    let base = if t.len() == 0 {
        to_chars("playlist")
    } else {
        t
    };
    let v = concat_chars(base.as_slice(), to_chars(".m3u").as_slice());
    string_from_chars(v.as_slice())
}

pub(crate) fn drop_last_char(s: &String) -> (r: String)
    ensures
        r@ == if s@.len() == 0 { s@ } else { s@.drop_last() },
{
    let v = to_chars(s.as_str());
    if v.len() == 0 {
        return string_from_chars(v.as_slice());
    }
    let w = sub_chars(v.as_slice(), 0, v.len() - 1);
    assert(w@ =~= v@.drop_last());
    string_from_chars(w.as_slice())
}

pub(crate) fn with_char(s: &String, c: char) -> (r: String)
    ensures
        r@ == s@.push(c),
{
    let mut v = to_chars(s.as_str());
    v.push(c);
    string_from_chars(v.as_slice())
}

impl TextInput {
    pub fn new() -> (r: Self)
        ensures
            r.mode == InputMode::Normal,
            r.filter_query@ == Seq::<char>::empty(),
            r.buffer@ == Seq::<char>::empty(),
    {
        TextInput { mode: InputMode::Normal, filter_query: String::new(), buffer: String::new() }
    }

    /// `/`: start a fresh filter.
    pub fn start_filter(&mut self)
        ensures
            final(self).mode == InputMode::Filter,
            final(self).filter_query@ == Seq::<char>::empty(),
            final(self).buffer@ == old(self).buffer@,
    {
        self.filter_query = String::new();
        self.mode = InputMode::Filter;
    }

    /// `w`: start the save prompt with `playlist` typed; refused (`false`)
    /// when the playlist is empty.
    pub fn start_save_playlist(&mut self, tracks_len: usize) -> (started: bool)
        ensures
            started == (tracks_len > 0),
            started ==> final(self).mode == InputMode::SavePlaylist && final(self).buffer@ == "playlist"@
                && final(self).filter_query@ == old(self).filter_query@,
            !started ==> final(self).mode == old(self).mode && final(self).buffer@ == old(self).buffer@
                && final(self).filter_query@ == old(self).filter_query@,
    {
        if tracks_len == 0 {
            return false;
        }
        self.buffer = "playlist".to_owned();
        self.mode = InputMode::SavePlaylist;
        true
    }

    /// A typed character goes to the buffer being edited; control
    /// characters are ignored.
    pub fn push(&mut self, c: char)
        ensures
            final(self).mode == old(self).mode,
            final(self).filter_query@ == if old(self).mode == InputMode::Filter && !is_control_spec(c) {
                old(self).filter_query@.push(c)
            } else {
                old(self).filter_query@
            },
            final(self).buffer@ == if old(self).mode == InputMode::SavePlaylist && !is_control_spec(c) {
                old(self).buffer@.push(c)
            } else {
                old(self).buffer@
            },
    {
        if is_control(c) {
            return;
        }
        match self.mode {
            InputMode::Filter => {
                self.filter_query = with_char(&self.filter_query, c);
            },
            InputMode::SavePlaylist => {
                self.buffer = with_char(&self.buffer, c);
            },
            InputMode::Normal => {},
        }
    }

    /// Backspace removes the last character of the buffer being edited.
    pub fn backspace(&mut self)
        ensures
            final(self).mode == old(self).mode,
            final(self).filter_query@ == if old(self).mode == InputMode::Filter
                && old(self).filter_query@.len() > 0 {
                old(self).filter_query@.drop_last()
            } else {
                old(self).filter_query@
            },
            final(self).buffer@ == if old(self).mode == InputMode::SavePlaylist && old(self).buffer@.len()
                > 0 {
                old(self).buffer@.drop_last()
            } else {
                old(self).buffer@
            },
    {
        match self.mode {
            InputMode::Filter => {
                self.filter_query = drop_last_char(&self.filter_query);
            },
            InputMode::SavePlaylist => {
                self.buffer = drop_last_char(&self.buffer);
            },
            InputMode::Normal => {},
        }
    }

    /// Esc: stop typing; a filter is cleared.
    pub fn cancel(&mut self)
        ensures
            final(self).mode == InputMode::Normal,
            final(self).buffer@ == Seq::<char>::empty(),
            final(self).filter_query@ == if old(self).mode == InputMode::Filter {
                Seq::<char>::empty()
            } else {
                old(self).filter_query@
            },
    {
        if self.mode == InputMode::Filter {
            self.filter_query = String::new();
        }
        self.buffer = String::new();
        self.mode = InputMode::Normal;
    }

    /// Enter: a filter stays applied; a save prompt gives the file to write.
    pub fn confirm(&mut self) -> (r: InputCommit)
        ensures
            final(self).mode == InputMode::Normal,
            final(self).filter_query@ == old(self).filter_query@,
            match old(self).mode {
                InputMode::Filter => r == InputCommit::KeepFilter && final(self).buffer@ == old(
                    self,
                ).buffer@,
                InputMode::SavePlaylist => (r matches InputCommit::SavePlaylist(f) && f@
                    == export_file_spec(old(self).buffer@)) && final(self).buffer@ == Seq::<char>::empty(),
                InputMode::Normal => r == InputCommit::Nothing && final(self).buffer@ == old(self).buffer@,
            },
    {
        match self.mode {
            InputMode::Filter => {
                self.mode = InputMode::Normal;
                InputCommit::KeepFilter
            },
            InputMode::SavePlaylist => {
                let file = export_file_name(self.buffer.as_str());
                self.mode = InputMode::Normal;
                self.buffer = String::new();
                InputCommit::SavePlaylist(file)
            },
            InputMode::Normal => InputCommit::Nothing,
        }
    }
}

/// Typing a character and deleting it again leaves the filter as it was.
pub proof fn lemma_push_then_backspace(q: Seq<char>, c: char)
    ensures
        q.push(c).drop_last() == q,
{
    assert(q.push(c).drop_last() =~= q);
}

} // verus!
