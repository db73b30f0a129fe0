//! The decisions of the player state machine, as functions from plain state
//! to the next state: track advance, cursor movement over filtered lists,
//! playlist editing (remove, reorder, shuffle), recently-played bookkeeping,
//! subtitle/audio track stepping and display-mode cycling.
use vstd::prelude::*;

use crate::app::{FocusPane, FullscreenMode, RepeatMode};
use crate::library::{is_audio_file, is_media_path, is_playlist_file, is_playlist_path};
use crate::subtitles::SubtitleSet;
use crate::library::Track;

verus! {

broadcast use vstd::seq_lib::group_to_multiset_ensures;

// ---------------------------------------------------------------------------
// Track advance
// ---------------------------------------------------------------------------

/// The track `n` plays next: the following one, wrapping to the first under
/// repeat-all; the first when nothing is playing; none at the end.
pub open spec fn next_track_spec(len: nat, playing: Option<usize>, repeat: RepeatMode) -> Option<nat> {
    if len == 0 {
        None
    } else {
        match playing {
            Some(i) => if i + 1 < len {
                Some((i + 1) as nat)
            } else if repeat == RepeatMode::All {
                Some(0)
            } else {
                None
            },
            None => Some(0),
        }
    }
}

pub fn next_track_index(len: usize, playing: Option<usize>, repeat: RepeatMode) -> (r: Option<usize>)
    ensures
        match next_track_spec(len as nat, playing, repeat) {
            Some(i) => r == Some(i as usize),
            None => r is None,
        },
{
    if len == 0 {
        return None;
    }
    match playing {
        Some(i) => if i < len - 1 {
            Some(i + 1)
        } else if repeat == RepeatMode::All {
            Some(0)
        } else {
            None
        },
        None => Some(0),
    }
}

/// The track `p` plays: the one before, wrapping to the last under
/// repeat-all; the first when nothing is playing; none at the start.
pub open spec fn prev_track_spec(len: nat, playing: Option<usize>, repeat: RepeatMode) -> Option<nat> {
    if len == 0 {
        None
    } else {
        match playing {
            Some(i) => if i == 0 {
                if repeat == RepeatMode::All {
                    Some((len - 1) as nat)
                } else {
                    None
                }
            } else {
                Some((i - 1) as nat)
            },
            None => Some(0),
        }
    }
}

pub fn prev_track_index(len: usize, playing: Option<usize>, repeat: RepeatMode) -> (r: Option<usize>)
    ensures
        match prev_track_spec(len as nat, playing, repeat) {
            Some(i) => r == Some(i as usize),
            None => r is None,
        },
{
    if len == 0 {
        return None;
    }
    match playing {
        Some(i) => if i == 0 {
            if repeat == RepeatMode::All {
                Some(len - 1)
            } else {
                None
            }
        } else {
            Some(i - 1)
        },
        None => Some(0),
    }
}

/// `n` and `p` undo each other: from a playing track, the track `p` picks
/// after `n` is the one that was playing, and the other way round. Under
/// repeat-all both always pick a track and wrap around the ends; otherwise
/// `n` stops after the last track and `p` before the first.
pub proof fn lemma_next_prev_inverse(len: nat, i: usize, repeat: RepeatMode)
    requires
        i < len,
        len <= usize::MAX,
    ensures
        next_track_spec(len, Some(i), repeat) matches Some(j) ==> j < len && prev_track_spec(
            len,
            Some(j as usize),
            repeat,
        ) == Some(i as nat),
        prev_track_spec(len, Some(i), repeat) matches Some(j) ==> j < len && next_track_spec(
            len,
            Some(j as usize),
            repeat,
        ) == Some(i as nat),
        repeat == RepeatMode::All ==> next_track_spec(len, Some(i), repeat) == Some(((i + 1) % (
        len as int)) as nat) && prev_track_spec(len, Some(i), repeat) == Some(((i + len - 1) % (
        len as int)) as nat),
        repeat != RepeatMode::All ==> (next_track_spec(len, Some(i), repeat) is None <==> i + 1 == len)
            && (prev_track_spec(len, Some(i), repeat) is None <==> i == 0),
{
    if repeat == RepeatMode::All {
        if i + 1 == len {
            assert((i + 1) % (len as int) == 0) by (nonlinear_arith)
                requires
                    i + 1 == len,
                    len > 0,
            ;
        } else {
            assert((i + 1) % (len as int) == i + 1) by (nonlinear_arith)
                requires
                    i + 1 < len,
            ;
        }
        if i == 0 {
            assert((i + len - 1) % (len as int) == len - 1) by (nonlinear_arith)
                requires
                    i == 0,
                    len > 0,
            ;
        } else {
            assert((i + len - 1) % (len as int) == i - 1) by (nonlinear_arith)
                requires
                    0 < i < len,
            ;
        }
    }
}

/// What happens when the playing track has finished: repeat-one replays it,
/// anything else moves on as `n` would. Nothing happens while nothing plays
/// or the track is still going.
pub open spec fn advance_spec(
    len: nat,
    playing: Option<usize>,
    finished: bool,
    repeat: RepeatMode,
) -> Option<nat> {
    if playing is Some && finished {
        if repeat == RepeatMode::One {
            Some(playing->0 as nat)
        } else {
            next_track_spec(len, playing, repeat)
        }
    } else {
        None
    }
}

pub fn advance_index(len: usize, playing: Option<usize>, finished: bool, repeat: RepeatMode) -> (r:
    Option<usize>)
    ensures
        match advance_spec(len as nat, playing, finished, repeat) {
            Some(i) => r == Some(i as usize),
            None => r is None,
        },
{
    match playing {
        Some(i) if finished => if repeat == RepeatMode::One {
            Some(i)
        } else {
            next_track_index(len, playing, repeat)
        },
        _ => None,
    }
}

/// Under repeat-all, `n` from any track reaches every track: stepping `k`
/// times from track `i` plays track `(i + k) % len`.
pub open spec fn step_next(len: nat, i: nat, k: nat) -> nat
    decreases k,
{
    if k == 0 {
        i
    } else {
        match next_track_spec(len, Some(step_next(len, i, (k - 1) as nat) as usize), RepeatMode::All) {
            Some(j) => j,
            None => 0,
        }
    }
}

/// Repeat-all cycles through the whole playlist: `k` presses of `n` from
/// track `i` land on track `(i + k) mod len`.
pub proof fn lemma_repeat_all_cycles(len: nat, i: nat, k: nat)
    requires
        0 < len <= usize::MAX,
        i < len,
    ensures
        step_next(len, i, k) == (i + k) % len,
    decreases k,
{
    if k > 0 {
        lemma_repeat_all_cycles(len, i, (k - 1) as nat);
        let p = step_next(len, i, (k - 1) as nat);
        let x: int = i + k - 1;
        let q: int = x / (len as int);
        vstd::arithmetic::div_mod::lemma_fundamental_div_mod(x, len as int);
        assert(p == x % (len as int));
        assert(0 <= p < len);
        assert((p as usize) as nat == p);
        if p + 1 < len {
            assert(x + 1 == q * len + (p + 1)) by (nonlinear_arith)
                requires
                    x == len * q + p,
            ;
            vstd::arithmetic::div_mod::lemma_fundamental_div_mod_converse(x + 1, len as int, q, (p + 1) as int);
        } else {
            assert(x + 1 == (q + 1) * len + 0) by (nonlinear_arith)
                requires
                    x == len * q + p,
                    p + 1 == len,
            ;
            vstd::arithmetic::div_mod::lemma_fundamental_div_mod_converse(x + 1, len as int, q + 1, 0);
        }
    } else {
        vstd::arithmetic::div_mod::lemma_small_mod(i, len);
    }
}

// ---------------------------------------------------------------------------
// Cursor movement over a filtered list
// ---------------------------------------------------------------------------

/// Position of `cur` in `vis` (0 when it is not there).
pub open spec fn pos_in(vis: Seq<usize>, cur: usize) -> int {
    if exists|p: int| 0 <= p < vis.len() && vis[p] == cur {
        choose|p: int|
            0 <= p < vis.len() && vis[p] == cur && forall|q: int| 0 <= q < p ==> vis[q] != cur
    } else {
        0
    }
}

fn position_of(vis: &[usize], cur: usize) -> (r: usize)
    ensures
        r == pos_in(vis@, cur),
        vis@.len() > 0 ==> r < vis@.len(),
{
    let mut p: usize = 0;
    while p < vis.len()
        invariant
            p <= vis@.len(),
            forall|q: int| 0 <= q < p ==> vis@[q] != cur,
        decreases vis.len() - p,
    {
        if vis[p] == cur {
            proof {
                let c = choose|c: int|
                    0 <= c < vis@.len() && vis@[c] == cur && forall|q: int| 0 <= q < c ==> vis@[q] != cur;
                assert(0 <= c < vis@.len() && vis@[c] == cur && forall|q: int|
                    0 <= q < c ==> vis@[q] != cur);
                if c < p {
                } else if p < c {
                }
            }
            return p;
        }
        p += 1;
    }
    0
}

/// `(pos + delta)` wrapped into `0..len` (Euclidean remainder).
pub fn wrap_index(pos: usize, delta: i32, len: usize) -> (r: usize)
    requires
        pos < len,
    ensures
        r == (pos + delta) % (len as int),
        r < len,
{
    if delta >= 0 {
        let dd = delta as u64;
        let d = (dd % len as u64) as usize;
        let ghost q: int = dd as int / len as int;
        proof {
            vstd::arithmetic::div_mod::lemma_fundamental_div_mod(dd as int, len as int);
        }
        if pos < len - d {
            let r = pos + d;
            proof {
                assert(pos + delta == q * len + r) by (nonlinear_arith)
                    requires
                        dd == len * q + d,
                        delta == dd,
                        r == pos + d,
                ;
                vstd::arithmetic::div_mod::lemma_fundamental_div_mod_converse(
                    pos + delta,
                    len as int,
                    q,
                    r as int,
                );
            }
            r
        } else {
            let r = pos - (len - d);
            proof {
                assert(pos + delta == (q + 1) * len + r) by (nonlinear_arith)
                    requires
                        dd == len * q + d,
                        delta == dd,
                        r == pos - (len - d),
                ;
                vstd::arithmetic::div_mod::lemma_fundamental_div_mod_converse(
                    pos + delta,
                    len as int,
                    q + 1,
                    r as int,
                );
            }
            r
        }
    } else {
        let m = (0i64 - delta as i64) as u64;
        let d = (m % len as u64) as usize;
        let ghost q: int = m as int / len as int;
        proof {
            vstd::arithmetic::div_mod::lemma_fundamental_div_mod(m as int, len as int);
        }
        if pos >= d {
            let r = pos - d;
            proof {
                assert(pos + delta == (-q) * len + r) by (nonlinear_arith)
                    requires
                        m == len * q + d,
                        delta == -m,
                        r == pos - d,
                ;
                vstd::arithmetic::div_mod::lemma_fundamental_div_mod_converse(
                    pos + delta,
                    len as int,
                    -q,
                    r as int,
                );
            }
            r
        } else {
            let r = pos + (len - d);
            proof {
                assert(pos + delta == (-q - 1) * len + r) by (nonlinear_arith)
                    requires
                        m == len * q + d,
                        delta == -m,
                        r == pos + (len - d),
                ;
                vstd::arithmetic::div_mod::lemma_fundamental_div_mod_converse(
                    pos + delta,
                    len as int,
                    -q - 1,
                    r as int,
                );
            }
            r
        }
    }
}

/// The entry the cursor lands on when moved by `delta` over the visible
/// entries `vis`, wrapping around (from the top when the cursor is hidden).
pub open spec fn wrap_move_spec(vis: Seq<usize>, cur: usize, delta: i32) -> Option<usize> {
    if vis.len() == 0 {
        None
    } else {
        Some(vis[(pos_in(vis, cur) + delta) % (vis.len() as int)])
    }
}

pub fn wrap_move(vis: &[usize], cur: usize, delta: i32) -> (r: Option<usize>)
    ensures
        r == wrap_move_spec(vis@, cur, delta),
{
    if vis.len() == 0 {
        return None;
    }
    let pos = position_of(vis, cur);
    let np = wrap_index(pos, delta, vis.len());
    Some(vis[np])
}

/// The entry the cursor lands on when scrolled by `delta` visible rows,
/// stopping at the ends.
pub open spec fn clamp_move_spec(vis: Seq<usize>, cur: usize, delta: i32) -> Option<usize> {
    if vis.len() == 0 {
        None
    } else {
        let p = pos_in(vis, cur) + delta;
        let q = if p < 0 {
            0
        } else if p > vis.len() - 1 {
            vis.len() - 1
        } else {
            p
        };
        Some(vis[q])
    }
}

pub fn clamp_move(vis: &[usize], cur: usize, delta: i32) -> (r: Option<usize>)
    ensures
        r == clamp_move_spec(vis@, cur, delta),
{
    if vis.len() == 0 {
        return None;
    }
    let pos = position_of(vis, cur);
    let q: usize = if delta < 0 {
        let back = (0i64 - delta as i64) as u64;
        if back as u64 >= pos as u64 {
            0
        } else {
            pos - back as usize
        }
    } else {
        let fwd = delta as u64;
        if fwd >= (vis.len() - 1 - pos) as u64 {
            vis.len() - 1
        } else {
            pos + fwd as usize
        }
    };
    Some(vis[q])
}

/// The cursor kept on a visible row after the filter changes: unchanged if
/// visible (or nothing is visible), else the first visible row.
pub open spec fn snap_spec(vis: Seq<usize>, cur: usize) -> usize {
    if vis.len() == 0 || vis.contains(cur) {
        cur
    } else {
        vis[0]
    }
}

pub fn snap_selection(vis: &[usize], cur: usize) -> (r: usize)
    ensures
        r == snap_spec(vis@, cur),
{
    if vis.len() == 0 {
        return cur;
    }
    let mut i: usize = 0;
    while i < vis.len()
        invariant
            i <= vis@.len(),
            forall|k: int| 0 <= k < i ==> vis@[k] != cur,
        decreases vis.len() - i,
    {
        if vis[i] == cur {
            assert(vis@.contains(cur));
            return cur;
        }
        i += 1;
    }
    vis[0]
}

/// Moving the cursor keeps it on a visible row.
pub proof fn lemma_wrap_move_visible(vis: Seq<usize>, cur: usize, delta: i32)
    requires
        vis.len() > 0,
    ensures
        vis.contains(wrap_move_spec(vis, cur, delta)->0),
{
    let p = (pos_in(vis, cur) + delta) % (vis.len() as int);
    assert(0 <= p < vis.len());
    assert(vis[p] == wrap_move_spec(vis, cur, delta)->0);
}

// ---------------------------------------------------------------------------
// Playlist editing
// ---------------------------------------------------------------------------

/// Exchanges the items at `i` and `j`.
pub fn swap_items<T>(v: &mut Vec<T>, i: usize, j: usize)
    requires
        i < old(v)@.len(),
        j < old(v)@.len(),
    ensures
        final(v)@ == old(v)@.update(i as int, old(v)@[j as int]).update(j as int, old(v)@[i as int]),
{
    if i == j {
        assert(v@.update(i as int, v@[j as int]).update(j as int, v@[i as int]) =~= v@);
        return;
    }
    let (a, b) = if i < j {
        (i, j)
    } else {
        (j, i)
    };
    let ghost s = v@;
    let y = v.remove(b);
    let x = v.remove(a);
    v.insert(a, y);
    v.insert(b, x);
    assert(v@ =~= s.update(i as int, s[j as int]).update(j as int, s[i as int]));
}

/// The cursor and playing marker after the playlist shrank or changed.
pub open spec fn clamp_selected(selected: usize, len: nat) -> usize {
    if len == 0 {
        0
    } else if selected >= len {
        (len - 1) as usize
    } else {
        selected
    }
}

/// The outcome of removing the highlighted track.
pub struct RemoveOutcome {
    /// The new cursor.
    pub selected: usize,
    /// The new playing index.
    pub playing: Option<usize>,
    /// Whether the removed track was the one playing (playback must stop).
    pub stopped: bool,
}

/// Remove the highlighted track (the cursor, clamped into the list). The
/// playing marker follows its track; removing the playing track stops it.
pub fn remove_selected_track(tracks: &mut Vec<Track>, selected: usize, playing: Option<usize>) -> (r:
    RemoveOutcome)
    requires
        old(tracks)@.len() > 0,
    ensures
        ({
            let idx = if selected < old(tracks)@.len() {
                selected as int
            } else {
                old(tracks)@.len() - 1
            };
            &&& final(tracks)@ == old(tracks)@.remove(idx)
            &&& r.stopped == (playing == Some(idx as usize))
            &&& r.playing == (match playing {
                Some(p) => if p == idx {
                    None
                } else if p > idx {
                    Some((p - 1) as usize)
                } else {
                    Some(p)
                },
                None => None,
            })
            &&& r.selected == clamp_selected(selected, final(tracks)@.len())
        }),
{
    let idx = if selected < tracks.len() {
        selected
    } else {
        tracks.len() - 1
    };
    let (new_playing, stopped) = match playing {
        Some(p) => if p == idx {
            (None, true)
        } else if p > idx {
            (Some(p - 1), false)
        } else {
            (Some(p), false)
        },
        None => (None, false),
    };
    tracks.remove(idx);
    let len = tracks.len();
    let sel = if len == 0 {
        0
    } else if selected >= len {
        len - 1
    } else {
        selected
    };
    RemoveOutcome { selected: sel, playing: new_playing, stopped }
}

/// Removing a track keeps the playing marker on the track that was playing.
pub proof fn lemma_remove_keeps_playing(ts: Seq<Track>, idx: int, p: int)
    requires
        0 <= idx < ts.len(),
        0 <= p < ts.len(),
        p != idx,
    ensures
        ts.remove(idx)[if p > idx {
            p - 1
        } else {
            p
        }] == ts[p],
{
}

/// The outcome of moving the highlighted track.
pub struct MoveOutcome {
    pub selected: usize,
    pub playing: Option<usize>,
}

/// Move the highlighted track up (`delta < 0`) or down by `|delta|` rows,
/// keeping the cursor and the playing marker on it; `None` (no change) when
/// the list has fewer than two tracks or the target is off the list.
pub fn move_selected_track(tracks: &mut Vec<Track>, selected: usize, playing: Option<usize>, delta: i32) -> (r:
    Option<MoveOutcome>)
    ensures
        ({
            let n = old(tracks)@.len();
            let from: int = if selected < n {
                selected as int
            } else {
                n - 1
            };
            let to: int = from + delta;
            if n < 2 || to < 0 || to >= n {
                &&& r is None
                &&& final(tracks)@ == old(tracks)@
            } else {
                &&& r is Some
                &&& final(tracks)@ == old(tracks)@.update(from, old(tracks)@[to]).update(
                    to,
                    old(tracks)@[from],
                )
                &&& r->0.selected == to
                &&& r->0.playing == (match playing {
                    Some(p) => if p == from {
                        Some(to as usize)
                    } else if p == to {
                        Some(from as usize)
                    } else {
                        Some(p)
                    },
                    None => None,
                })
            }
        }),
{
    let n = tracks.len();
    if n < 2 {
        return None;
    }
    let from = if selected < n {
        selected
    } else {
        n - 1
    };
    let to: usize = if delta < 0 {
        let back: u64 = (0i64 - delta as i64) as u64;
        if back > from as u64 {
            return None;
        }
        from - back as usize
    } else {
        let fwd: u64 = delta as u64;
        if fwd >= (n - from) as u64 {
            return None;
        }
        from + fwd as usize
    };
    swap_items(tracks, from, to);
    let new_playing = match playing {
        Some(p) => if p == from {
            Some(to)
        } else if p == to {
            Some(from)
        } else {
            Some(p)
        },
        None => None,
    };
    Some(MoveOutcome { selected: to, playing: new_playing })
}

/// Moving a track keeps the playlist's contents (as a multiset) and leaves
/// the playing marker on the track that was playing.
pub proof fn lemma_move_keeps_tracks(ts: Seq<Track>, from: int, to: int, p: int)
    requires
        0 <= from < ts.len(),
        0 <= to < ts.len(),
        0 <= p < ts.len(),
    ensures
        ts.update(from, ts[to]).update(to, ts[from]).to_multiset() == ts.to_multiset(),
        ts.update(from, ts[to]).update(to, ts[from])[if p == from {
            to
        } else if p == to {
            from
        } else {
            p
        }] == ts[p],
{
    lemma_swap_multiset(ts, from, to);
}

proof fn lemma_swap_multiset<T>(ts: Seq<T>, a: int, b: int)
    requires
        0 <= a < ts.len(),
        0 <= b < ts.len(),
    ensures
        ts.update(a, ts[b]).update(b, ts[a]).to_multiset() == ts.to_multiset(),
{
    broadcast use vstd::seq_lib::to_multiset_update;
    broadcast use vstd::multiset::group_multiset_axioms;

    let t1 = ts.update(a, ts[b]);
    assert(t1.to_multiset() == ts.to_multiset().insert(ts[b]).remove(ts[a]));
    assert(t1[b] == if a == b {
        ts[b]
    } else {
        ts[b]
    });
    let t2 = t1.update(b, ts[a]);
    assert(t2.to_multiset() == t1.to_multiset().insert(ts[a]).remove(t1[b]));
    assert(t2.to_multiset() =~= ts.to_multiset());
}

/// One step of the shuffle's generator (a 64-bit LCG).
#[verifier::opaque]
pub open spec fn lcg_next(seed: u64) -> u64 {
    vstd::wrapping::u64_specs::wrapping_add(
        vstd::wrapping::u64_specs::wrapping_mul(seed, 6364136223846793005u64),
        1442695040888963407u64,
    )
}

/// The shuffle's seed from a clock reading in microseconds: mixed with a
/// fixed odd constant, and never zero.
pub open spec fn shuffle_seed_spec(clock_micros: u64) -> u64 {
    let s = clock_micros ^ 0x9E3779B97F4A7C15u64;
    if s == 0 {
        1
    } else {
        s
    }
}

pub fn shuffle_seed(clock_micros: u64) -> (r: u64)
    ensures
        r == shuffle_seed_spec(clock_micros),
        r != 0,
{
    let s = clock_micros ^ 0x9E3779B97F4A7C15u64;
    if s == 0 {
        1
    } else {
        s
    }
}

/// `s` with the items at `a` and `b` exchanged.
pub open spec fn swapped<T>(s: Seq<T>, a: int, b: int) -> Seq<T> {
    s.update(a, s[b]).update(b, s[a])
}

/// The Fisher-Yates pass over `s[start..]`, from offset `i` down to 1: at
/// each offset the generator steps and the item there is exchanged with the
/// one at offset `seed % (i + 1)`.
pub open spec fn fisher_yates<T>(s: Seq<T>, start: int, i: int, seed: u64) -> Seq<T>
    decreases i,
{
    if i < 1 {
        s
    } else {
        let next = lcg_next(seed);
        let j = (next as int) % (i + 1);
        fisher_yates(swapped(s, start + i, start + j), start, i - 1, next)
    }
}

/// The first index of the part that a shuffle reorders: the one after the
/// playing track, or the first when nothing plays.
pub open spec fn shuffle_start(playing: Option<usize>) -> int {
    match playing {
        Some(p) => p + 1,
        None => 0,
    }
}

/// What the shuffle does to `s`: reorder the tracks after the playing one.
pub open spec fn shuffled<T>(s: Seq<T>, playing: Option<usize>, seed: u64) -> Seq<T> {
    let start = shuffle_start(playing);
    if start >= s.len() {
        s
    } else {
        fisher_yates(s, start, s.len() - start - 1, seed)
    }
}

/// Shuffle the tracks after the playing one (all of them when nothing plays)
/// with a Fisher-Yates pass driven by `seed`.
pub fn shuffle_remaining<T>(tracks: &mut Vec<T>, playing: Option<usize>, seed: u64)
    ensures
        final(tracks)@ == shuffled(old(tracks)@, playing, seed),
{
    let n = tracks.len();
    let start: usize = match playing {
        Some(p) => if p == usize::MAX {
            assert(shuffle_start(playing) >= n);
            return ;
        } else {
            p + 1
        },
        None => 0,
    };
    if start >= tracks.len() {
        return ;
    }
    let ghost orig = tracks@;
    let len = tracks.len() - start;
    assert(fisher_yates(orig, start as int, len - 1, seed) == shuffled(orig, playing, seed));
    let mut i: usize = len - 1;
    let mut state = seed;
    while i >= 1
        invariant
            start + len == tracks@.len(),
            start + len <= usize::MAX,
            start as int == shuffle_start(playing),
            0 < len,
            i < len,
            fisher_yates(tracks@, start as int, i as int, state) == shuffled(orig, playing, seed),
        decreases i,
    {
        let ghost before = tracks@;
        let ghost prev = state;
        state = state.wrapping_mul(6364136223846793005u64).wrapping_add(1442695040888963407u64);
        assert(state == lcg_next(prev)) by {
            reveal(lcg_next);
        }
        let j = (state % (i as u64 + 1)) as usize;
        assert(j as int == (state as int) % (i + 1));
        swap_items(tracks, start + i, start + j);
        assert(tracks@ == swapped(before, start + i, start + j));
        i -= 1;
    }
}

proof fn lemma_fisher_yates_keeps<T>(s: Seq<T>, start: int, i: int, seed: u64)
    requires
        0 <= start,
        start + i < s.len(),
    ensures
        fisher_yates(s, start, i, seed).len() == s.len(),
        fisher_yates(s, start, i, seed).to_multiset() == s.to_multiset(),
        forall|k: int| 0 <= k < start ==> #[trigger] fisher_yates(s, start, i, seed)[k] == s[k],
    decreases i,
{
    if i >= 1 {
        let next = lcg_next(seed);
        let j = (next as int) % (i + 1);
        let t = swapped(s, start + i, start + j);
        lemma_swap_multiset(s, start + i, start + j);
        lemma_fisher_yates_keeps(t, start, i - 1, next);
    }
}

/// Shuffling only reorders: the playlist keeps its tracks (as a multiset),
/// and every track up to the playing one stays where it was.
pub proof fn lemma_shuffle_permutes<T>(s: Seq<T>, playing: Option<usize>, seed: u64)
    ensures
        shuffled(s, playing, seed).len() == s.len(),
        shuffled(s, playing, seed).to_multiset() == s.to_multiset(),
        forall|k: int|
            0 <= k < shuffle_start(playing) && k < s.len() ==> #[trigger] shuffled(s, playing, seed)[k]
                == s[k],
{
    let start = shuffle_start(playing);
    if start < s.len() {
        lemma_fisher_yates_keeps(s, start, s.len() - start - 1, seed);
    }
}

// ---------------------------------------------------------------------------
// Subtitle and audio track selection
// ---------------------------------------------------------------------------

/// `c` on subtitles: off, then each track in turn, then off again.
pub open spec fn cycle_subtitle_spec(active: Option<usize>, count: usize) -> Option<usize> {
    if count == 0 {
        None
    } else {
        match active {
            None => Some(0),
            Some(i) => if i + 1 < count {
                Some((i + 1) as usize)
            } else {
                None
            },
        }
    }
}

pub fn cycle_subtitle_track(active: Option<usize>, count: usize) -> (r: Option<usize>)
    ensures
        r == cycle_subtitle_spec(active, count),
{
    if count == 0 {
        return None;
    }
    match active {
        None => Some(0),
        Some(i) => if i < count - 1 {
            Some(i + 1)
        } else {
            None
        },
    }
}

/// Stepping the subtitle slot by `delta` over the `count + 1` slots (each
/// track, then "off"), wrapping around; `None` (no change) when there are no
/// subtitles. An absent track counts as the "off" slot.
pub open spec fn step_subtitle_spec(active: Option<usize>, count: usize, delta: i32) -> Option<
    Option<usize>,
> {
    if count == 0 {
        None
    } else {
        let current: int = match active {
            Some(i) => i as int,
            None => count as int,
        };
        let slot = (current + delta) % (count + 1);
        Some(
            if slot >= count {
                None
            } else {
                Some(slot as usize)
            },
        )
    }
}

pub fn step_subtitle_track(active: Option<usize>, count: usize, delta: i32) -> (r: Option<
    Option<usize>,
>)
    requires
        count < usize::MAX,
    ensures
        r == step_subtitle_spec(active, count, delta),
{
    if count == 0 {
        return None;
    }
    let total = count + 1;
    let current: usize = match active {
        Some(i) => i,
        None => count,
    };
    let pos = current % total;
    let slot = wrap_index(pos, delta, total);
    proof {
        vstd::arithmetic::div_mod::lemma_add_mod_noop(current as int, delta as int, total as int);
        vstd::arithmetic::div_mod::lemma_mod_twice(current as int, total as int);
        vstd::arithmetic::div_mod::lemma_add_mod_noop(pos as int, delta as int, total as int);
    }
    assert(slot == (current + delta) % (total as int));
    Some(
        if slot >= count {
            None
        } else {
            Some(slot)
        },
    )
}

/// Stepping the audio track by `delta`, wrapping around; `None` when there
/// is nothing to switch between (fewer than two tracks). An unknown current
/// track counts as the first.
pub open spec fn step_audio_spec(len: usize, active: Option<usize>, delta: i32) -> Option<usize> {
    if len < 2 {
        None
    } else {
        let current: int = match active {
            Some(i) => i as int,
            None => 0,
        };
        Some(((current + delta) % (len as int)) as usize)
    }
}

pub fn step_audio_track(len: usize, active: Option<usize>, delta: i32) -> (r: Option<usize>)
    ensures
        r == step_audio_spec(len, active, delta),
{
    if len < 2 {
        return None;
    }
    let current: usize = match active {
        Some(i) => i,
        None => 0,
    };
    let pos = current % len;
    let next = wrap_index(pos, delta, len);
    proof {
        vstd::arithmetic::div_mod::lemma_add_mod_noop(current as int, delta as int, len as int);
        vstd::arithmetic::div_mod::lemma_mod_twice(current as int, len as int);
        vstd::arithmetic::div_mod::lemma_add_mod_noop(pos as int, delta as int, len as int);
    }
    Some(next)
}

// ---------------------------------------------------------------------------
// Display modes
// ---------------------------------------------------------------------------

/// The escape menu's Fullscreen toggle: any fullscreen mode turns off,
/// otherwise the fullscreen visualizer turns on.
pub open spec fn toggle_fullscreen_spec(m: FullscreenMode) -> FullscreenMode {
    if m != FullscreenMode::Off {
        FullscreenMode::Off
    } else {
        FullscreenMode::Visualizer
    }
}

pub fn toggle_fullscreen(m: FullscreenMode) -> (r: FullscreenMode)
    ensures
        r == toggle_fullscreen_spec(m),
{
    if m.is_on() {
        FullscreenMode::Off
    } else {
        FullscreenMode::Visualizer
    }
}

/// What `f` does to the display.
#[derive(Debug, Clone, Copy, PartialEq, Eq, Structural)]
pub struct DisplayChange {
    /// The new in-app fullscreen mode.
    pub fullscreen: FullscreenMode,
    /// Open (`Some(true)`) or close (`Some(false)`) the dedicated video
    /// window; `None` leaves it.
    pub window: Option<bool>,
    /// The status line to show.
    pub status: DisplayStatus,
}

/// The status lines of the display cycle.
#[derive(Debug, Clone, Copy, PartialEq, Eq, Structural)]
pub enum DisplayStatus {
    Normal,
    Fullscreen,
    VideoWindow,
    FullscreenVisualizer,
    FullscreenAlbumArt,
    FullscreenAlbumArtVisualizer,
}

impl DisplayStatus {
    pub fn text(self) -> (r: &'static str)
        ensures
            r@ == match self {
                DisplayStatus::Normal => "Display: normal"@,
                DisplayStatus::Fullscreen => "Display: fullscreen"@,
                DisplayStatus::VideoWindow => "Display: video window"@,
                DisplayStatus::FullscreenVisualizer => "Display: fullscreen visualizer"@,
                DisplayStatus::FullscreenAlbumArt => "Display: fullscreen album art"@,
                DisplayStatus::FullscreenAlbumArtVisualizer => "Display: fullscreen album art + visualizer"@,
            },
    {
        match self {
            DisplayStatus::Normal => "Display: normal",
            DisplayStatus::Fullscreen => "Display: fullscreen",
            DisplayStatus::VideoWindow => "Display: video window",
            DisplayStatus::FullscreenVisualizer => "Display: fullscreen visualizer",
            DisplayStatus::FullscreenAlbumArt => "Display: fullscreen album art",
            DisplayStatus::FullscreenAlbumArtVisualizer => "Display: fullscreen album art + visualizer",
        }
    }
}

/// The display cycle of `f`. With a video: normal, in-app fullscreen, the
/// dedicated window (skipped where unsupported), normal. With music: normal,
/// fullscreen visualizer, fullscreen album art, album art + visualizer,
/// normal (the album-art steps skipped when there is no artwork).
pub open spec fn cycle_display_spec(
    video_loaded: bool,
    window_on: bool,
    window_supported: bool,
    fullscreen: FullscreenMode,
    has_art: bool,
) -> DisplayChange {
    if video_loaded {
        if window_on {
            DisplayChange {
                fullscreen: FullscreenMode::Off,
                window: Some(false),
                status: DisplayStatus::Normal,
            }
        } else if fullscreen != FullscreenMode::Off {
            if window_supported {
                DisplayChange {
                    fullscreen: FullscreenMode::Off,
                    window: Some(true),
                    status: DisplayStatus::VideoWindow,
                }
            } else {
                DisplayChange {
                    fullscreen: FullscreenMode::Off,
                    window: None,
                    status: DisplayStatus::Normal,
                }
            }
        } else {
            DisplayChange {
                fullscreen: FullscreenMode::Visualizer,
                window: None,
                status: DisplayStatus::Fullscreen,
            }
        }
    } else {
        let next = match fullscreen {
            FullscreenMode::Off => FullscreenMode::Visualizer,
            FullscreenMode::Visualizer => if has_art {
                FullscreenMode::AlbumArt
            } else {
                FullscreenMode::Off
            },
            FullscreenMode::AlbumArt => FullscreenMode::AlbumArtVis,
            FullscreenMode::AlbumArtVis => FullscreenMode::Off,
        };
        DisplayChange {
            fullscreen: next,
            window: None,
            status: match next {
                FullscreenMode::Off => DisplayStatus::Normal,
                FullscreenMode::Visualizer => DisplayStatus::FullscreenVisualizer,
                FullscreenMode::AlbumArt => DisplayStatus::FullscreenAlbumArt,
                FullscreenMode::AlbumArtVis => DisplayStatus::FullscreenAlbumArtVisualizer,
            },
        }
    }
}

pub fn cycle_display_mode(
    video_loaded: bool,
    window_on: bool,
    window_supported: bool,
    fullscreen: FullscreenMode,
    has_art: bool,
) -> (r: DisplayChange)
    ensures
        r == cycle_display_spec(video_loaded, window_on, window_supported, fullscreen, has_art),
{
    if video_loaded {
        if window_on {
            DisplayChange {
                fullscreen: FullscreenMode::Off,
                window: Some(false),
                status: DisplayStatus::Normal,
            }
        } else if fullscreen.is_on() {
            if window_supported {
                DisplayChange {
                    fullscreen: FullscreenMode::Off,
                    window: Some(true),
                    status: DisplayStatus::VideoWindow,
                }
            } else {
                DisplayChange {
                    fullscreen: FullscreenMode::Off,
                    window: None,
                    status: DisplayStatus::Normal,
                }
            }
        } else {
            DisplayChange {
                fullscreen: FullscreenMode::Visualizer,
                window: None,
                status: DisplayStatus::Fullscreen,
            }
        }
    } else {
        let next = match fullscreen {
            FullscreenMode::Off => FullscreenMode::Visualizer,
            FullscreenMode::Visualizer => if has_art {
                FullscreenMode::AlbumArt
            } else {
                FullscreenMode::Off
            },
            FullscreenMode::AlbumArt => FullscreenMode::AlbumArtVis,
            FullscreenMode::AlbumArtVis => FullscreenMode::Off,
        };
        let status = match next {
            FullscreenMode::Off => DisplayStatus::Normal,
            FullscreenMode::Visualizer => DisplayStatus::FullscreenVisualizer,
            FullscreenMode::AlbumArt => DisplayStatus::FullscreenAlbumArt,
            FullscreenMode::AlbumArtVis => DisplayStatus::FullscreenAlbumArtVisualizer,
        };
        DisplayChange { fullscreen: next, window: None, status }
    }
}

/// Pressing `f` with music returns to the normal view after at most four
/// presses (two when the track has no artwork).
pub proof fn lemma_music_display_cycle(m: FullscreenMode, has_art: bool)
    ensures
        ({
            let step = |x: FullscreenMode| cycle_display_spec(false, false, false, x, has_art).fullscreen;
            &&& step(step(step(step(FullscreenMode::Off)))) == FullscreenMode::Off || !has_art
            &&& has_art ==> step(step(step(step(m)))) == m
            &&& !has_art ==> step(step(FullscreenMode::Off)) == FullscreenMode::Off
        }),
{
}

/// The video window toggle of the escape menu: `None` where the back end has
/// no window; else the new window state.
pub open spec fn toggle_video_window_spec(supported: bool, on: bool) -> Option<bool> {
    if !supported {
        None
    } else {
        Some(!on)
    }
}

pub fn toggle_video_window(supported: bool, on: bool) -> (r: Option<bool>)
    ensures
        r == toggle_video_window_spec(supported, on),
{
    if !supported {
        None
    } else {
        Some(!on)
    }
}

/// The volume (in thousandths) after a step of `delta` hundredths, kept
/// within `0..=1500`.
pub open spec fn volume_after_spec(volume: u32, delta: i64) -> u32 {
    let v = volume + 10 * delta;
    if v < 0 {
        0
    } else if v > 1500 {
        1500
    } else {
        v as u32
    }
}

pub fn volume_after(volume: u32, delta: i64) -> (r: u32)
    ensures
        r == volume_after_spec(volume, delta),
        r <= 1500,
{
    let d: i128 = 10 * (delta as i128);
    let v: i128 = volume as i128 + d;
    if v < 0 {
        0
    } else if v > 1500 {
        1500
    } else {
        v as u32
    }
}

/// Volume steps: the result stays within `0..=1500` thousandths, a step
/// that stays in range moves by ten thousandths per hundredth and, from a
/// volume in range, is undone by the opposite step, and a larger step never
/// gives a lower volume.
pub proof fn lemma_volume_steps(volume: u32, delta: i64, more: i64)
    requires
        delta <= more,
    ensures
        volume_after_spec(volume, delta) <= 1500,
        0 <= volume + 10 * delta <= 1500 ==> volume_after_spec(volume, delta) == volume + 10 * delta,
        volume <= 1500 && 0 <= volume + 10 * delta <= 1500 && delta > i64::MIN ==> volume_after_spec(
            volume_after_spec(volume, delta),
            (-delta) as i64,
        ) == volume,
        volume_after_spec(volume, delta) <= volume_after_spec(volume, more),
{
    if 0 <= volume + 10 * delta <= 1500 && delta > i64::MIN {
        let v1 = volume_after_spec(volume, delta);
        assert(v1 == volume + 10 * delta);
        let nd = (-delta) as i64;
        assert(nd == -delta);
        assert(v1 + 10 * nd == volume);
    }
}

// ---------------------------------------------------------------------------
// Search cursor
// ---------------------------------------------------------------------------

/// The search cursor moved by `delta` over `len` results, wrapping around
/// (from the last row when it is past the end); 0 when there are none.
pub open spec fn search_move_spec(len: usize, selected: usize, delta: i32) -> usize {
    if len == 0 {
        0
    } else {
        let cur: int = if selected < len { selected as int } else { len - 1 };
        ((cur + delta) % (len as int)) as usize
    }
}

pub fn search_move(len: usize, selected: usize, delta: i32) -> (r: usize)
    ensures
        r == search_move_spec(len, selected, delta),
        len > 0 ==> r < len,
{
    if len == 0 {
        return 0;
    }
    let cur = if selected < len {
        selected
    } else {
        len - 1
    };
    wrap_index(cur, delta, len)
}

/// The search cursor kept on a result after the results changed.
pub open spec fn clamp_search_spec(len: usize, selected: usize) -> usize {
    if len == 0 {
        0
    } else if selected >= len {
        (len - 1) as usize
    } else {
        selected
    }
}

pub fn clamp_search_selection(len: usize, selected: usize) -> (r: usize)
    ensures
        r == clamp_search_spec(len, selected),
{
    if len == 0 {
        0
    } else if selected >= len {
        len - 1
    } else {
        selected
    }
}

/// Whether `c` is a control character (Unicode `Cc`), which the search box
/// does not take.
pub open spec fn is_control_spec(c: char) -> bool {
    (c as u32) <= 0x1f || (0x7f <= (c as u32) && (c as u32) <= 0x9f)
}

pub fn is_control(c: char) -> (r: bool)
    ensures
        r == is_control_spec(c),
{
    let n = c as u32;
    n <= 0x1f || (0x7f <= n && n <= 0x9f)
}

// ---------------------------------------------------------------------------
// Browser and playlist activation
// ---------------------------------------------------------------------------

/// What a browser entry is to the player.
#[derive(Debug, Clone, Copy, PartialEq, Eq, Structural)]
pub enum EntryKind {
    Directory,
    Playlist,
    Media,
    Other,
}

pub open spec fn entry_kind_spec(path: Seq<char>, is_dir: bool) -> EntryKind {
    if is_dir {
        EntryKind::Directory
    } else if is_playlist_path(path) {
        EntryKind::Playlist
    } else if is_media_path(path) {
        EntryKind::Media
    } else {
        EntryKind::Other
    }
}

pub fn entry_kind(path: &str, is_dir: bool) -> (r: EntryKind)
    ensures
        r == entry_kind_spec(path@, is_dir),
{
    if is_dir {
        EntryKind::Directory
    } else if is_playlist_file(path) {
        EntryKind::Playlist
    } else if is_audio_file(path) {
        EntryKind::Media
    } else {
        EntryKind::Other
    }
}

/// What Enter does.
#[derive(Debug, Clone, Copy, PartialEq, Eq, Structural)]
pub enum Activation {
    Nothing,
    /// Play this playlist track.
    Play(usize),
    /// Open the highlighted directory in the browser.
    EnterDirectory,
    /// Replace the playlist with the highlighted playlist file and play it.
    LoadPlaylist,
    /// Append the highlighted media file and play it.
    AppendAndPlay,
}

/// Enter on the playlist plays the highlighted track; on the browser it
/// opens a directory, loads a playlist file, or appends and plays a media
/// file (`entry` is the highlighted browser entry, if any).
pub open spec fn activation_spec(
    focus: FocusPane,
    tracks_len: usize,
    selected: usize,
    entry: Option<EntryKind>,
) -> Activation {
    match focus {
        FocusPane::Playlist => if tracks_len > 0 && selected < tracks_len {
            Activation::Play(selected)
        } else {
            Activation::Nothing
        },
        FocusPane::Browser => match entry {
            Some(EntryKind::Directory) => Activation::EnterDirectory,
            Some(EntryKind::Playlist) => Activation::LoadPlaylist,
            Some(EntryKind::Media) => Activation::AppendAndPlay,
            _ => Activation::Nothing,
        },
    }
}

pub fn activate_selection(focus: FocusPane, tracks_len: usize, selected: usize, entry: Option<EntryKind>) -> (r:
    Activation)
    ensures
        r == activation_spec(focus, tracks_len, selected, entry),
{
    match focus {
        FocusPane::Playlist => if tracks_len > 0 && selected < tracks_len {
            Activation::Play(selected)
        } else {
            Activation::Nothing
        },
        FocusPane::Browser => match entry {
            Some(EntryKind::Directory) => Activation::EnterDirectory,
            Some(EntryKind::Playlist) => Activation::LoadPlaylist,
            Some(EntryKind::Media) => Activation::AppendAndPlay,
            _ => Activation::Nothing,
        },
    }
}

/// What `a` does.
#[derive(Debug, Clone, Copy, PartialEq, Eq, Structural)]
pub enum QueuePlan {
    /// The `..` entry is never queued (it would scan the parent tree).
    RefuseParent,
    Nothing,
    /// Scan the directory and append what it holds.
    ScanDirectory,
    /// Append the tracks of the playlist file.
    AppendPlaylist,
    /// Append the media file.
    AppendTrack,
}

pub open spec fn queue_plan_spec(selected: usize, has_parent: bool, entry: Option<EntryKind>) -> QueuePlan {
    if selected == 0 && has_parent {
        QueuePlan::RefuseParent
    } else {
        match entry {
            Some(EntryKind::Directory) => QueuePlan::ScanDirectory,
            Some(EntryKind::Playlist) => QueuePlan::AppendPlaylist,
            Some(EntryKind::Media) => QueuePlan::AppendTrack,
            _ => QueuePlan::Nothing,
        }
    }
}

pub fn queue_selected_browser(selected: usize, has_parent: bool, entry: Option<EntryKind>) -> (r:
    QueuePlan)
    ensures
        r == queue_plan_spec(selected, has_parent, entry),
{
    if selected == 0 && has_parent {
        return QueuePlan::RefuseParent;
    }
    match entry {
        Some(EntryKind::Directory) => QueuePlan::ScanDirectory,
        Some(EntryKind::Playlist) => QueuePlan::AppendPlaylist,
        Some(EntryKind::Media) => QueuePlan::AppendTrack,
        _ => QueuePlan::Nothing,
    }
}

/// Whether to announce the subtitles: the first tracks just arrived.
pub open spec fn announce_spec(prev_count: usize, count: usize) -> bool {
    count > prev_count && prev_count == 0
}

pub fn announce_subtitles(prev_count: usize, count: usize) -> (r: bool)
    ensures
        r == announce_spec(prev_count, count),
{
    count > prev_count && prev_count == 0
}

/// The subtitle track the preferred language picks, once, when tracks are
/// there and it matches one.
pub fn preferred_subtitle(applied: bool, lang: Option<&str>, subs: &SubtitleSet) -> (r: Option<usize>)
    ensures
        (applied || lang is None || subs.tracks_spec().len() == 0) ==> r is None,
        (!applied && subs.tracks_spec().len() > 0) ==> match lang {
            Some(l) => match crate::subtitles::find_track_spec(subs.tracks_spec(), l@) {
                Some(i) => r == Some(i as usize),
                None => r is None,
            },
            None => r is None,
        },
{
    if applied || subs.track_count() == 0 {
        return None;
    }
    match lang {
        Some(l) => subs.find_track_by_language(l),
        None => None,
    }
}


/// What happens once the startup playlist is loaded.
#[derive(Debug, Copy, Clone, PartialEq, Eq, Structural)]
pub enum StartPlan {
    /// Leave the player idle.
    Idle,
    /// Play the first track.
    PlayFirst,
    /// Restart the track of the last session; when it starts, seek to
    /// `seek_ms` if that is set.
    Resume { index: usize, seek_ms: Option<u64> },
}

/// The startup plan: with autoplay and tracks, resume the last session's
/// track when resuming and its index is still in the playlist (seeking back
/// when it had played more than a second), else play the first track.
pub open spec fn start_plan_spec(
    autoplay: bool,
    resuming: bool,
    len: nat,
    saved: Option<usize>,
    position_ms: nat,
) -> StartPlan {
    if !autoplay || len == 0 {
        StartPlan::Idle
    } else {
        match saved {
            Some(i) if resuming && i < len => StartPlan::Resume {
                index: i,
                seek_ms: if position_ms > 1000 { Some(position_ms as u64) } else { None },
            },
            _ => StartPlan::PlayFirst,
        }
    }
}

pub fn start_plan(autoplay: bool, resuming: bool, len: usize, saved: Option<usize>, position_ms: u64) -> (r:
    StartPlan)
    ensures
        r == start_plan_spec(autoplay, resuming, len as nat, saved, position_ms as nat),
{
    if !autoplay || len == 0 {
        return StartPlan::Idle;
    }
    match saved {
        Some(i) if resuming && i < len => StartPlan::Resume {
            index: i,
            seek_ms: if position_ms > 1000 { Some(position_ms) } else { None },
        },
        _ => StartPlan::PlayFirst,
    }
}


/// The track the favorite key applies to: in the playlist, the selected
/// track (`playlist_pick`, its locator); in the browser, the selected entry
/// `browser_pick` when it is a regular file with an audio or video
/// extension; failing that, the playing track.
pub open spec fn favorite_target_spec(
    focus: FocusPane,
    playlist_pick: Option<Seq<char>>,
    browser_pick: Option<(Seq<char>, bool)>,
    playing: Option<Seq<char>>,
) -> Option<Seq<char>> {
    let focused = match focus {
        FocusPane::Playlist => playlist_pick,
        FocusPane::Browser => match browser_pick {
            Some((p, is_file)) => if is_file && crate::library::is_media_path(p) {
                Some(p)
            } else {
                None
            },
            None => None,
        },
    };
    match focused {
        Some(k) => Some(k),
        None => playing,
    }
}

pub open spec fn opt_view(o: Option<String>) -> Option<Seq<char>> {
    match o {
        Some(s) => Some(s@),
        None => None,
    }
}

pub fn favorite_target(
    focus: FocusPane,
    playlist_pick: Option<String>,
    browser_pick: Option<(String, bool)>,
    playing: Option<String>,
) -> (r: Option<String>)
    ensures
        opt_view(r) == favorite_target_spec(
            focus,
            opt_view(playlist_pick),
            match browser_pick {
                Some((p, f)) => Some((p@, f)),
                None => None,
            },
            opt_view(playing),
        ),
{
    let focused = match focus {
        FocusPane::Playlist => playlist_pick,
        FocusPane::Browser => match browser_pick {
            Some((p, is_file)) => {
                if is_file && crate::library::is_audio_file(p.as_str()) {
                    Some(p)
                } else {
                    None
                }
            },
            None => None,
        },
    };
    match focused {
        Some(k) => Some(k),
        None => playing,
    }
}


// ---------------------------------------------------------------------------
// Audio output
// ---------------------------------------------------------------------------

/// Where a relative seek lands, in milliseconds: the current position moved
/// by `delta_ms`, not before the start, and, when the length is known and
/// not zero, not later than 50 ms before the end.
pub open spec fn seek_target_spec(pos_ms: nat, delta_ms: int, total_ms: Option<u64>) -> nat {
    let t = if pos_ms + delta_ms < 0 { 0 } else { pos_ms + delta_ms };
    match total_ms {
        Some(m) => if m > 0 && t > m - 50 {
            if m >= 50 { (m - 50) as nat } else { 0 }
        } else {
            t as nat
        },
        None => t as nat,
    }
}

pub fn seek_target(pos_ms: u64, delta_ms: i64, total_ms: Option<u64>) -> (r: u64)
    requires
        pos_ms + delta_ms <= u64::MAX,
    ensures
        r == seek_target_spec(pos_ms as nat, delta_ms as int, total_ms),
{
    let t: u64 = if delta_ms < 0 {
        let back = (0i128 - delta_ms as i128) as u64;
        if back >= pos_ms { 0 } else { pos_ms - back }
    } else {
        pos_ms + delta_ms as u64
    };
    match total_ms {
        Some(m) => if m > 0 && (t as i128) > (m as i128) - 50 {
            if m >= 50 { m - 50 } else { 0 }
        } else {
            t
        },
        None => t,
    }
}

/// Whether the next track may be queued behind the playing one for a gapless
/// change: only behind a playing audio (not video) file, only one at a
/// time, and only an audio file.
pub open spec fn preload_allowed_spec(playing: Option<Seq<char>>, has_preload: bool, next: Seq<char>) -> bool {
    match playing {
        Some(p) => !crate::library::ext_matches(crate::library::extension_of_path(p), crate::library::video_exts()) && !has_preload && !crate::library::ext_matches(crate::library::extension_of_path(next), crate::library::video_exts()),
        None => false,
    }
}

pub fn preload_allowed(playing: Option<&str>, has_preload: bool, next: &str) -> (r: bool)
    ensures
        r == preload_allowed_spec(
            match playing {
                Some(p) => Some(p@),
                None => None,
            },
            has_preload,
            next@,
        ),
{
    match playing {
        Some(p) => !crate::library::is_video_file(p) && !has_preload && !crate::library::is_video_file(next),
        None => false,
    }
}


// ---------------------------------------------------------------------------
// A/V offset and search scrolling
// ---------------------------------------------------------------------------

/// The manual A/V offset after `steps` presses of `]` (negative for `[`):
/// 25 ms a press, held between -500 ms and +2000 ms.
pub open spec fn av_offset_spec(offset_ms: int, steps: int) -> int {
    let t = offset_ms + 25 * steps;
    if t < -500 {
        -500
    } else if t > 2000 {
        2000
    } else {
        t
    }
}

pub fn adjust_av_offset(offset_ms: i32, steps: i32) -> (r: i32)
    ensures
        r == av_offset_spec(offset_ms as int, steps as int),
        -500 <= r <= 2000,
{
    let t: i64 = offset_ms as i64 + 25 * (steps as i64);
    if t < -500 {
        -500
    } else if t > 2000 {
        2000
    } else {
        t as i32
    }
}

/// The A/V sync setting: the offset in milliseconds and whether it follows
/// the measured output latency.
#[derive(Debug, Clone, Copy, PartialEq, Eq)]
pub struct AvSync {
    pub offset_ms: i32,
    pub auto: bool,
}

impl AvSync {
    /// A manual nudge by `steps` presses of `]` (negative for `[`): the
    /// offset moves in 25 ms steps within -500..=2000 ms, and the offset no
    /// longer follows the measured latency.
    pub fn nudge(&mut self, steps: i32)
        ensures
            final(self).offset_ms == av_offset_spec(old(self).offset_ms as int, steps as int),
            !final(self).auto,
    {
        self.offset_ms = adjust_av_offset(self.offset_ms, steps);
        self.auto = false;
    }

    /// Back to the automatic offset, starting from the latency baseline.
    pub fn reset_auto(&mut self, baseline_ms: i32)
        ensures
            final(self).offset_ms == baseline_ms,
            final(self).auto,
    {
        self.offset_ms = baseline_ms;
        self.auto = true;
    }
}

/// The first search result drawn in a list of `height` rows, scrolled so
/// that the cursor (kept on the last result at most) stays in view.
pub open spec fn scroll_start_spec(len: nat, selected: nat, height: nat) -> nat {
    let sel = if len > 0 && selected >= len { (len - 1) as nat } else { selected };
    if height == 0 || sel < height {
        0
    } else {
        (sel - height + 1) as nat
    }
}

pub fn search_scroll_start(len: usize, selected: usize, height: usize) -> (r: usize)
    ensures
        r == scroll_start_spec(len as nat, selected as nat, height as nat),
        len > 0 && height > 0 ==> r <= (if selected >= len { len - 1 } else { selected as int }) < r
            + height,
{
    let sel = if len > 0 && selected >= len {
        len - 1
    } else {
        selected
    };
    if height == 0 || sel < height {
        0
    } else {
        sel - height + 1
    }
}

} // verus!
