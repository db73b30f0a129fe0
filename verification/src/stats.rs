//! Listening statistics: favorites, the recently-played list and per-track
//! play counts, keyed by a track's locator; and the global search over the
//! library index that browses them.
use vstd::prelude::*;

use crate::app::{all_ascii, fuzzy_match, fuzzy_match_spec, is_subsequence, SearchScope};
use crate::config::RECENT_CAP;
use crate::library::Track;
use crate::text::{lower, lower_chars, string_from_chars, to_chars, trim, trim_chars};

verus! {

broadcast use vstd::string::group_string_axioms;

/// Whether no entry occurs twice.
pub open spec fn no_dup(s: Seq<Seq<char>>) -> bool {
    forall|i: int, j: int| 0 <= i < j < s.len() ==> s[i] != s[j]
}

/// The entries of `s`, each kept at its first occurrence.
pub open spec fn dedup(s: Seq<Seq<char>>) -> Seq<Seq<char>>
    decreases s.len(),
{
    if s.len() == 0 {
        s
    } else {
        let p = dedup(s.drop_last());
        if p.contains(s.last()) {
            p
        } else {
            p.push(s.last())
        }
    }
}

/// The counts that `(path, count)` pairs give, a later pair for a path
/// replacing an earlier one.
pub open spec fn counts_of(pairs: Seq<(Seq<char>, u32)>) -> Map<Seq<char>, u32>
    decreases pairs.len(),
{
    if pairs.len() == 0 {
        Map::empty()
    } else {
        counts_of(pairs.drop_last()).insert(pairs.last().0, pairs.last().1)
    }
}

/// Whether no path occurs twice among the pairs.
pub open spec fn keys_unique(pairs: Seq<(Seq<char>, u32)>) -> bool {
    forall|i: int, j: int| 0 <= i < j < pairs.len() ==> pairs[i].0 != pairs[j].0
}

/// How often a track was played: its count, or 0.
pub open spec fn count_in(m: Map<Seq<char>, u32>, key: Seq<char>) -> u32 {
    if m.contains_key(key) {
        m[key]
    } else {
        0
    }
}

/// `s` without any `key`.
pub open spec fn without(s: Seq<Seq<char>>, key: Seq<char>) -> Seq<Seq<char>> {
    s.filter(|p: Seq<char>| p != key)
}

/// The recently-played list after `key` started: `key` first, then the
/// others in their order, at most [`RECENT_CAP`] entries.
pub open spec fn recent_after(recent: Seq<Seq<char>>, key: Seq<char>) -> Seq<Seq<char>> {
    let l = seq![key] + without(recent, key);
    if l.len() > RECENT_CAP {
        l.take(RECENT_CAP as int)
    } else {
        l
    }
}

pub open spec fn strs(v: Seq<String>) -> Seq<Seq<char>> {
    v.map_values(|s: String| s@)
}

pub open spec fn pair_strs(v: Seq<(String, u32)>) -> Seq<(Seq<char>, u32)> {
    v.map_values(|p: (String, u32)| (p.0@, p.1))
}

/// Favorites, recently played and play counts.
pub struct Stats {
    favorites: Vec<String>,
    recent: Vec<String>,
    play_counts: Vec<(String, u32)>,
}

impl Stats {
    /// The favorites, each once.
    pub closed spec fn favorites_spec(&self) -> Seq<Seq<char>> {
        strs(self.favorites@)
    }

    /// The recently-played list, most recent first.
    pub closed spec fn recent_spec(&self) -> Seq<Seq<char>> {
        strs(self.recent@)
    }

    /// The play counts.
    pub closed spec fn counts_spec(&self) -> Map<Seq<char>, u32> {
        counts_of(pair_strs(self.play_counts@))
    }

    /// The play counts as stored, each path once.
    pub closed spec fn count_pairs_spec(&self) -> Seq<(Seq<char>, u32)> {
        pair_strs(self.play_counts@)
    }

    pub closed spec fn wf(&self) -> bool {
        &&& no_dup(strs(self.favorites@))
        &&& keys_unique(pair_strs(self.play_counts@))
    }

    /// The statistics saved in the settings: favorites deduplicated, the
    /// recently-played list as saved, and the play counts with a later entry
    /// for a path replacing an earlier one.
    pub fn from_lists(favorites: &[String], recent: &[String], play_counts: &[(String, u32)]) -> (r:
        Stats)
        ensures
            r.wf(),
            r.favorites_spec() == dedup(strs(favorites@)),
            r.recent_spec() == strs(recent@),
            r.counts_spec() == counts_of(pair_strs(play_counts@)),
    {
        let mut favs: Vec<String> = Vec::new();
        let mut i: usize = 0;
        while i < favorites.len()
            invariant
                i <= favorites@.len(),
                strs(favs@) == dedup(strs(favorites@.take(i as int))),
                no_dup(strs(favs@)),
            decreases favorites.len() - i,
        {
            let ghost before = strs(favs@);
            assert(strs(favorites@.take(i + 1)).drop_last() =~= strs(favorites@.take(i as int)));
            assert(strs(favorites@.take(i + 1)).last() == favorites@[i as int]@);
            let found = index_of(favs.as_slice(), &favorites[i]);
            if found.is_none() {
                favs.push(favorites[i].clone());
                assert(strs(favs@) =~= before.push(favorites@[i as int]@));
            } else {
                let k = found.unwrap();
                assert(before[k as int] == favorites@[i as int]@);
            }
            i += 1;
        }
        assert(favorites@.take(favorites@.len() as int) == favorites@);
        let mut counts: Vec<(String, u32)> = Vec::new();
        let mut i: usize = 0;
        while i < play_counts.len()
            invariant
                i <= play_counts@.len(),
                counts_of(pair_strs(counts@)) == counts_of(pair_strs(play_counts@.take(i as int))),
                keys_unique(pair_strs(counts@)),
            decreases play_counts.len() - i,
        {
            let ghost before = pair_strs(counts@);
            let ghost e = (play_counts@[i as int].0@, play_counts@[i as int].1);
            assert(pair_strs(play_counts@.take(i + 1)).drop_last() =~= pair_strs(
                play_counts@.take(i as int),
            ));
            assert(pair_strs(play_counts@.take(i + 1)).last() == e);
            set_count(&mut counts, &play_counts[i].0, play_counts[i].1);
            i += 1;
        }
        assert(play_counts@.take(play_counts@.len() as int) == play_counts@);
        let mut rec: Vec<String> = Vec::new();
        let mut i: usize = 0;
        while i < recent.len()
            invariant
                i <= recent@.len(),
                rec@ == recent@.take(i as int),
            decreases recent.len() - i,
        {
            rec.push(recent[i].clone());
            assert(rec@ =~= recent@.take(i + 1));
            i += 1;
        }
        assert(recent@.take(recent@.len() as int) == recent@);
        Stats { favorites: favs, recent: rec, play_counts: counts }
    }

    /// Whether `key` is a favorite.
    pub fn is_favorite(&self, key: &String) -> (r: bool)
        ensures
            r == self.favorites_spec().contains(key@),
    {
        match index_of(self.favorites.as_slice(), key) {
            Some(k) => {
                assert(strs(self.favorites@)[k as int] == key@);
                true
            },
            None => false,
        }
    }

    /// Adds `key` to the favorites, or removes it when it is one; `true`
    /// when it was added.
    pub fn toggle_favorite(&mut self, key: &String) -> (added: bool)
        requires
            old(self).wf(),
        ensures
            final(self).wf(),
            added == !old(self).favorites_spec().contains(key@),
            added ==> final(self).favorites_spec() == old(self).favorites_spec().push(key@),
            !added ==> final(self).favorites_spec().to_set() == old(
                self,
            ).favorites_spec().to_set().remove(key@),
            final(self).recent_spec() == old(self).recent_spec(),
            final(self).counts_spec() == old(self).counts_spec(),
    {
        let ghost before = strs(self.favorites@);
        match index_of(self.favorites.as_slice(), key) {
            Some(k) => {
                self.favorites.remove(k);
                proof {
                    assert(before[k as int] == key@);
                    let after = strs(self.favorites@);
                    assert(after =~= before.remove(k as int));
                    assert(no_dup(after));
                    assert forall|x: Seq<char>| after.to_set().contains(x) <==> before.to_set().remove(
                        key@,
                    ).contains(x) by {
                        if after.to_set().contains(x) {
                            assert(after.contains(x));
                            let j = choose|j: int| 0 <= j < after.len() && after[j] == x;
                            if j < k {
                                assert(after[j] == before[j]);
                            } else {
                                assert(after[j] == before[j + 1]);
                            }
                            assert(before.contains(x));
                        }
                        if before.to_set().remove(key@).contains(x) {
                            assert(before.contains(x));
                            let j = choose|j: int| 0 <= j < before.len() && before[j] == x;
                            assert(j != k);
                            if j < k {
                                assert(after[j] == x);
                            } else {
                                assert(after[j - 1] == x);
                            }
                            assert(after.contains(x));
                        }
                    }
                    assert(after.to_set() =~= before.to_set().remove(key@));
                }
                false
            },
            None => {
                self.favorites.push(key.clone());
                assert(strs(self.favorites@) =~= before.push(key@));
                true
            },
        }
    }

    /// How often `key` was played.
    pub fn play_count(&self, key: &String) -> (r: u32)
        requires
            self.wf(),
        ensures
            r == count_in(self.counts_spec(), key@),
    {
        match count_index(self.play_counts.as_slice(), key) {
            Some(k) => {
                proof {
                    lemma_counts_at(pair_strs(self.play_counts@), k as int);
                }
                self.play_counts[k].1
            },
            None => {
                proof {
                    lemma_counts_absent(pair_strs(self.play_counts@), key@);
                }
                0
            },
        }
    }

    /// Records that `key` started playing: its play count goes up by one and
    /// it moves to the front of the recently-played list.
    pub fn note_play(&mut self, key: &String)
        requires
            old(self).wf(),
            count_in(old(self).counts_spec(), key@) < u32::MAX,
        ensures
            final(self).wf(),
            final(self).counts_spec() == old(self).counts_spec().insert(
                key@,
                (count_in(old(self).counts_spec(), key@) + 1) as u32,
            ),
            final(self).recent_spec() == recent_after(old(self).recent_spec(), key@),
            final(self).favorites_spec() == old(self).favorites_spec(),
    {
        let n = self.play_count(key);
        set_count(&mut self.play_counts, key, n + 1);
        let ghost old_recent = strs(self.recent@);
        let mut kept: Vec<String> = Vec::new();
        kept.push(key.clone());
        let mut i: usize = 0;
        while i < self.recent.len()
            invariant
                i <= self.recent@.len(),
                old_recent == strs(self.recent@),
                strs(kept@) == seq![key@] + without(strs(self.recent@).take(i as int), key@),
            decreases self.recent.len() - i,
        {
            let ghost pre = strs(self.recent@).take(i as int);
            assert(strs(self.recent@).take(i + 1) =~= pre.push(self.recent@[i as int]@));
            reveal(Seq::filter);
            assert(pre.push(self.recent@[i as int]@).drop_last() =~= pre);
            if self.recent[i] != *key {
                kept.push(self.recent[i].clone());
                assert(strs(kept@) =~= (seq![key@] + without(pre, key@)).push(
                    self.recent@[i as int]@,
                ));
            }
            i += 1;
        }
        assert(strs(self.recent@).take(self.recent@.len() as int) == old_recent);
        if kept.len() > RECENT_CAP {
            kept.truncate(RECENT_CAP);
            assert(strs(kept@) =~= recent_after(old_recent, key@));
        }
        self.recent = kept;
    }

    /// The favorites, for saving.
    pub fn favorites_list(&self) -> (r: Vec<String>)
        ensures
            strs(r@) == self.favorites_spec(),
    {
        self.favorites.clone()
    }

    /// The recently-played list, for saving.
    pub fn recent_list(&self) -> (r: Vec<String>)
        ensures
            strs(r@) == self.recent_spec(),
    {
        self.recent.clone()
    }

    /// The play counts as `(path, count)` pairs, each path once, for saving.
    pub fn count_list(&self) -> (r: Vec<(String, u32)>)
        requires
            self.wf(),
        ensures
            keys_unique(pair_strs(r@)),
            counts_of(pair_strs(r@)) == self.counts_spec(),
    {
        let mut out: Vec<(String, u32)> = Vec::new();
        let mut i: usize = 0;
        while i < self.play_counts.len()
            invariant
                i <= self.play_counts@.len(),
                pair_strs(out@) == pair_strs(self.play_counts@).take(i as int),
            decreases self.play_counts.len() - i,
        {
            let ghost before = out@;
            let k = self.play_counts[i].0.clone();
            let n = self.play_counts[i].1;
            assert(k@ == self.play_counts@[i as int].0@);
            out.push((k, n));
            assert(pair_strs(out@) =~= pair_strs(before).push((self.play_counts@[i as int].0@, n)));
            assert(pair_strs(self.play_counts@)[i as int] == (self.play_counts@[i as int].0@, n));
            assert(pair_strs(out@) =~= pair_strs(self.play_counts@).take(i + 1));
            i += 1;
        }
        assert(pair_strs(self.play_counts@).take(self.play_counts@.len() as int) == pair_strs(
            self.play_counts@,
        ));
        out
    }
}

/// Position of `key` in `v`, if it is there.
fn index_of(v: &[String], key: &String) -> (r: Option<usize>)
    ensures
        match r {
            Some(k) => k < v@.len() && strs(v@)[k as int] == key@,
            None => !strs(v@).contains(key@),
        },
{
    let mut i: usize = 0;
    while i < v.len()
        invariant
            i <= v@.len(),
            forall|k: int| 0 <= k < i ==> strs(v@)[k] != key@,
        decreases v.len() - i,
    {
        if v[i] == *key {
            return Some(i);
        }
        i += 1;
    }
    None
}

/// Position of the pair for `key`, if there is one.
fn count_index(v: &[(String, u32)], key: &String) -> (r: Option<usize>)
    ensures
        match r {
            Some(k) => k < v@.len() && pair_strs(v@)[k as int].0 == key@,
            None => forall|k: int| 0 <= k < v@.len() ==> pair_strs(v@)[k].0 != key@,
        },
{
    let mut i: usize = 0;
    while i < v.len()
        invariant
            i <= v@.len(),
            forall|k: int| 0 <= k < i ==> pair_strs(v@)[k].0 != key@,
        decreases v.len() - i,
    {
        if v[i].0 == *key {
            return Some(i);
        }
        i += 1;
    }
    None
}

proof fn lemma_counts_dom(pairs: Seq<(Seq<char>, u32)>, key: Seq<char>)
    ensures
        counts_of(pairs).contains_key(key) <==> exists|k: int| 0 <= k < pairs.len() && pairs[k].0 == key,
    decreases pairs.len(),
{
    if pairs.len() > 0 {
        lemma_counts_dom(pairs.drop_last(), key);
        if exists|k: int| 0 <= k < pairs.drop_last().len() && pairs.drop_last()[k].0 == key {
            let k = choose|k: int| 0 <= k < pairs.drop_last().len() && pairs.drop_last()[k].0 == key;
            assert(pairs[k].0 == key);
        }
        if exists|k: int| 0 <= k < pairs.len() && pairs[k].0 == key {
            let k = choose|k: int| 0 <= k < pairs.len() && pairs[k].0 == key;
            if k < pairs.len() - 1 {
                assert(pairs.drop_last()[k].0 == key);
            }
        }
    }
}

proof fn lemma_counts_absent(pairs: Seq<(Seq<char>, u32)>, key: Seq<char>)
    requires
        forall|k: int| 0 <= k < pairs.len() ==> pairs[k].0 != key,
    ensures
        !counts_of(pairs).contains_key(key),
{
    lemma_counts_dom(pairs, key);
}

proof fn lemma_counts_at(pairs: Seq<(Seq<char>, u32)>, k: int)
    requires
        keys_unique(pairs),
        0 <= k < pairs.len(),
    ensures
        counts_of(pairs).contains_key(pairs[k].0),
        counts_of(pairs)[pairs[k].0] == pairs[k].1,
    decreases pairs.len(),
{
    if k < pairs.len() - 1 {
        let p = pairs.drop_last();
        assert(p[k] == pairs[k]);
        assert(keys_unique(p));
        lemma_counts_at(p, k);
        assert(pairs.last().0 != pairs[k].0);
    }
}

proof fn lemma_counts_update(pairs: Seq<(Seq<char>, u32)>, k: int, n: u32)
    requires
        keys_unique(pairs),
        0 <= k < pairs.len(),
    ensures
        counts_of(pairs.update(k, (pairs[k].0, n))) == counts_of(pairs).insert(pairs[k].0, n),
    decreases pairs.len(),
{
    let q = pairs.update(k, (pairs[k].0, n));
    if k == pairs.len() - 1 {
        assert(q.drop_last() =~= pairs.drop_last());
        assert(counts_of(pairs).insert(pairs[k].0, n) =~= counts_of(pairs.drop_last()).insert(
            pairs[k].0,
            n,
        ));
    } else {
        let p = pairs.drop_last();
        assert(keys_unique(p));
        assert(p[k] == pairs[k]);
        lemma_counts_update(p, k, n);
        assert(q.drop_last() =~= p.update(k, (p[k].0, n)));
        assert(q.last() == pairs.last());
        assert(pairs.last().0 != pairs[k].0);
        assert(counts_of(q) =~= counts_of(pairs).insert(pairs[k].0, n));
    }
}

/// Sets the count of `key` to `n`, adding a pair when it has none.
fn set_count(v: &mut Vec<(String, u32)>, key: &String, n: u32)
    requires
        keys_unique(pair_strs(old(v)@)),
    ensures
        keys_unique(pair_strs(final(v)@)),
        counts_of(pair_strs(final(v)@)) == counts_of(pair_strs(old(v)@)).insert(key@, n),
{
    let ghost before = pair_strs(v@);
    match count_index(v.as_slice(), key) {
        Some(k) => {
            v.set(k, (key.clone(), n));
            proof {
                assert(pair_strs(v@) =~= before.update(k as int, (before[k as int].0, n)));
                lemma_counts_update(before, k as int, n);
            }
        },
        None => {
            v.push((key.clone(), n));
            assert(pair_strs(v@) =~= before.push((key@, n)));
            assert(pair_strs(v@).drop_last() == before);
        },
    }
}

proof fn lemma_without(s: Seq<Seq<char>>, key: Seq<char>)
    ensures
        without(s, key).len() <= s.len(),
        forall|i: int|
            0 <= i < without(s, key).len() ==> #[trigger] without(s, key)[i] != key && s.contains(
                without(s, key)[i],
            ),
    decreases s.len(),
{
    reveal(Seq::filter);
    if s.len() > 0 {
        lemma_without(s.drop_last(), key);
        let p = without(s.drop_last(), key);
        assert(without(s, key) == if s.last() != key {
            p.push(s.last())
        } else {
            p
        });
        assert forall|i: int| 0 <= i < without(s, key).len() implies #[trigger] without(s, key)[i]
            != key && s.contains(without(s, key)[i]) by {
            if i < p.len() {
                assert(without(s, key)[i] == p[i]);
                assert(s.drop_last().contains(p[i]));
                let k = choose|k: int| 0 <= k < s.drop_last().len() && s.drop_last()[k] == p[i];
                assert(s[k] == p[i]);
            } else {
                assert(s[s.len() - 1] == s.last());
            }
        }
    }
}

/// After a track starts it heads the recently-played list, occurs there
/// once, and the list keeps at most [`RECENT_CAP`] entries, all of them
/// tracks that were there before or the new one.
pub proof fn lemma_recent_after(recent: Seq<Seq<char>>, key: Seq<char>)
    ensures
        recent_after(recent, key).len() >= 1,
        recent_after(recent, key).len() <= RECENT_CAP,
        recent_after(recent, key)[0] == key,
        forall|i: int|
            1 <= i < recent_after(recent, key).len() ==> #[trigger] recent_after(recent, key)[i] != key
                && recent.contains(recent_after(recent, key)[i]),
{
    let f = without(recent, key);
    lemma_without(recent, key);
    let l = seq![key] + f;
    let r = recent_after(recent, key);
    assert(r == (if l.len() > RECENT_CAP {
        l.take(RECENT_CAP as int)
    } else {
        l
    }));
    assert(r.len() <= l.len());
    assert forall|i: int| 1 <= i < r.len() implies #[trigger] r[i] != key && recent.contains(r[i]) by {
        assert(r[i] == l[i]);
        assert(l[i] == f[i - 1]);
    }
}

/// The key that orders search results.
pub open spec fn first_pos(s: Seq<Seq<char>>, x: Seq<char>) -> int
    decreases s.len(),
{
    if s.len() == 0 {
        0
    } else if s[0] == x {
        0
    } else {
        1 + first_pos(s.drop_first(), x)
    }
}

/// Whether the search scope admits a track with this locator.
pub open spec fn in_scope(
    scope: SearchScope,
    favs: Seq<Seq<char>>,
    recent: Seq<Seq<char>>,
    counts: Map<Seq<char>, u32>,
    loc: Seq<char>,
) -> bool {
    match scope {
        SearchScope::All => true,
        SearchScope::Favorites => favs.contains(loc),
        SearchScope::Recent => recent.contains(loc),
        SearchScope::MostPlayed => count_in(counts, loc) > 0,
    }
}

/// The indices of the index entries that the scope admits and whose display
/// text fuzzy-matches the trimmed, lowercased query, in index order.
pub open spec fn search_hits(
    scope: SearchScope,
    favs: Seq<Seq<char>>,
    recent: Seq<Seq<char>>,
    counts: Map<Seq<char>, u32>,
    index: Seq<Track>,
    q: Seq<char>,
) -> Seq<usize>
    decreases index.len(),
{
    if index.len() == 0 {
        Seq::empty()
    } else {
        let prev = search_hits(scope, favs, recent, counts, index.drop_last(), q);
        let t = index.last();
        if in_scope(scope, favs, recent, counts, t.source.locator_spec()) && (q.len() == 0
            || fuzzy_match_spec(t.display@, q)) {
            prev.push((index.len() - 1) as usize)
        } else {
            prev
        }
    }
}

/// Inserts `x` after every entry whose key is not larger than its own.
pub open spec fn key_insert(s: Seq<(u64, usize)>, x: (u64, usize)) -> Seq<(u64, usize)>
    decreases s.len(),
{
    if s.len() == 0 || s.last().0 <= x.0 {
        s.push(x)
    } else {
        key_insert(s.drop_last(), x).push(s.last())
    }
}

/// Stable sort by key (equal keys keep their order).
pub open spec fn key_sort(s: Seq<(u64, usize)>) -> Seq<(u64, usize)>
    decreases s.len(),
{
    if s.len() == 0 {
        s
    } else {
        key_insert(key_sort(s.drop_last()), s.last())
    }
}

pub open spec fn key_ordered(s: Seq<(u64, usize)>) -> bool {
    forall|i: int, j: int| 0 <= i < j < s.len() ==> s[i].0 <= s[j].0
}

/// The sort key of a hit: its place in the recently-played list, or its
/// play count counted down from the top, so that ascending keys give the
/// most recent or most played first.
pub open spec fn hit_key(
    scope: SearchScope,
    recent: Seq<Seq<char>>,
    counts: Map<Seq<char>, u32>,
    t: Track,
) -> u64 {
    match scope {
        SearchScope::Recent => first_pos(recent, t.source.locator_spec()) as u64,
        SearchScope::MostPlayed => (u32::MAX - count_in(counts, t.source.locator_spec())) as u64,
        _ => 0,
    }
}

pub open spec fn keyed(
    scope: SearchScope,
    recent: Seq<Seq<char>>,
    counts: Map<Seq<char>, u32>,
    index: Seq<Track>,
    hits: Seq<usize>,
) -> Seq<(u64, usize)> {
    hits.map_values(|i: usize| (hit_key(scope, recent, counts, index[i as int]), i))
}

/// The search results for display: the hits, by recency for Recent, by
/// descending play count for Most Played, in index order otherwise (ties
/// keep index order).
pub open spec fn search_spec(
    scope: SearchScope,
    favs: Seq<Seq<char>>,
    recent: Seq<Seq<char>>,
    counts: Map<Seq<char>, u32>,
    index: Seq<Track>,
    query: Seq<char>,
) -> Seq<usize> {
    let hits = search_hits(scope, favs, recent, counts, index, lower(trim(query)));
    key_sort(keyed(scope, recent, counts, index, hits)).map_values(|e: (u64, usize)| e.1)
}

proof fn lemma_key_insert_at(s: Seq<(u64, usize)>, x: (u64, usize), j: int)
    requires
        0 <= j <= s.len(),
        forall|k: int| j <= k < s.len() ==> s[k].0 > x.0,
        j == 0 || s[j - 1].0 <= x.0,
    ensures
        key_insert(s, x) == s.insert(j, x),
    decreases s.len(),
{
    if s.len() == j {
        assert(s.insert(j, x) =~= s.push(x));
    } else {
        lemma_key_insert_at(s.drop_last(), x, j);
        assert(s.insert(j, x) =~= s.drop_last().insert(j, x).push(s.last()));
    }
}

proof fn lemma_key_insert_multiset(s: Seq<(u64, usize)>, x: (u64, usize))
    ensures
        key_insert(s, x).to_multiset() == s.to_multiset().insert(x),
        key_insert(s, x).len() == s.len() + 1,
    decreases s.len(),
{
    broadcast use vstd::seq_lib::group_to_multiset_ensures;

    if s.len() == 0 || s.last().0 <= x.0 {
    } else {
        lemma_key_insert_multiset(s.drop_last(), x);
        assert(s.drop_last().push(s.last()) == s);
        assert(key_insert(s, x).to_multiset() =~= s.to_multiset().insert(x));
    }
}

proof fn lemma_key_insert_ordered(s: Seq<(u64, usize)>, x: (u64, usize))
    requires
        key_ordered(s),
    ensures
        key_ordered(key_insert(s, x)),
    decreases s.len(),
{
    broadcast use vstd::seq_lib::group_to_multiset_ensures;

    if s.len() == 0 || s.last().0 <= x.0 {
    } else {
        lemma_key_insert_ordered(s.drop_last(), x);
        let t = key_insert(s.drop_last(), x);
        lemma_key_insert_multiset(s.drop_last(), x);
        let u = t.push(s.last());
        assert forall|i: int, j: int| 0 <= i < j < u.len() implies #[trigger] u[i].0 <= #[trigger] u[j].0 by {
            if j == t.len() && i < t.len() {
                let m = t[i];
                assert(t.to_multiset().count(m) > 0);
                if m != x {
                    assert(s.drop_last().to_multiset().count(m) > 0);
                    assert(s.drop_last().contains(m));
                    let k = choose|k: int| 0 <= k < s.drop_last().len() && s.drop_last()[k] == m;
                    assert(s[k] == m);
                }
            }
        }
    }
}

/// The stable sort orders by key and keeps the entries.
pub proof fn lemma_key_sort(s: Seq<(u64, usize)>)
    ensures
        key_ordered(key_sort(s)),
        key_sort(s).to_multiset() == s.to_multiset(),
        key_sort(s).len() == s.len(),
    decreases s.len(),
{
    broadcast use vstd::seq_lib::group_to_multiset_ensures;

    if s.len() > 0 {
        lemma_key_sort(s.drop_last());
        lemma_key_insert_ordered(key_sort(s.drop_last()), s.last());
        lemma_key_insert_multiset(key_sort(s.drop_last()), s.last());
        assert(s.drop_last().push(s.last()) == s);
    }
}

/// Position of the first `x` in `s` (see [`first_pos`]).
fn first_position(s: &[String], x: &String) -> (r: usize)
    ensures
        r == first_pos(strs(s@), x@),
        strs(s@).contains(x@) ==> r < s@.len(),
{
    let ghost v = strs(s@);
    let mut k: usize = 0;
    assert(v.skip(0) == v);
    while k < s.len()
        invariant
            k <= s@.len() == v.len(),
            v == strs(s@),
            first_pos(v, x@) == k + first_pos(v.skip(k as int), x@),
            forall|j: int| 0 <= j < k ==> v[j] != x@,
        decreases s.len() - k,
    {
        assert(v.skip(k as int)[0] == v[k as int]);
        if s[k] == *x {
            return k;
        }
        assert(v.skip(k as int).drop_first() =~= v.skip(k + 1));
        k += 1;
    }
    assert(v.skip(k as int) =~= Seq::<Seq<char>>::empty());
    k
}

impl Stats {
    fn admits(&self, scope: SearchScope, loc: &String) -> (r: bool)
        requires
            self.wf(),
        ensures
            r == in_scope(scope, self.favorites_spec(), self.recent_spec(), self.counts_spec(), loc@),
    {
        match scope {
            SearchScope::All => true,
            SearchScope::Favorites => self.is_favorite(loc),
            SearchScope::Recent => {
                let found = index_of(self.recent.as_slice(), loc);
                if let Some(k) = found {
                    assert(strs(self.recent@)[k as int] == loc@);
                }
                found.is_some()
            },
            SearchScope::MostPlayed => self.play_count(loc) > 0,
        }
    }

    fn key_of(&self, scope: SearchScope, t: &Track) -> (r: u64)
        requires
            self.wf(),
            scope == SearchScope::Recent ==> self.recent_spec().contains(t.source.locator_spec()),
        ensures
            r == hit_key(scope, self.recent_spec(), self.counts_spec(), *t),
    {
        match scope {
            SearchScope::Recent => {
                let loc = t.source.locator();
                let p = first_position(self.recent.as_slice(), &loc);
                p as u64
            },
            SearchScope::MostPlayed => {
                let loc = t.source.locator();
                (u32::MAX - self.play_count(&loc)) as u64
            },
            _ => 0,
        }
    }

    /// The global search: the library entries that the scope admits and
    /// whose display text fuzzy-matches the query (trimmed and lowercased;
    /// a blank query matches all), most recent first for Recent, most played
    /// first for Most Played, in index order otherwise.
    pub fn search_results(&self, index: &[Track], scope: SearchScope, query: &str) -> (r: Vec<usize>)
        requires
            self.wf(),
        ensures
            r@ == search_spec(
                scope,
                self.favorites_spec(),
                self.recent_spec(),
                self.counts_spec(),
                index@,
                query@,
            ),
            forall|k: int|
                0 <= k < index@.len() && all_ascii(#[trigger] index@[k].display@) ==> (
                fuzzy_match_spec(index@[k].display@, lower(trim(query@))) <==> is_subsequence(
                    lower(trim(query@)),
                    lower(index@[k].display@),
                )),
    {
        let qv = to_chars(query);
        let qt = trim_chars(qv.as_slice());
        let q = lower_chars(qt.as_slice());
        let qs = string_from_chars(q.as_slice());
        let ghost favs = self.favorites_spec();
        let ghost rec = self.recent_spec();
        let ghost counts = self.counts_spec();
        let mut hits: Vec<usize> = Vec::new();
        let mut i: usize = 0;
        while i < index.len()
            invariant
                i <= index@.len(),
                self.wf(),
                favs == self.favorites_spec(),
                rec == self.recent_spec(),
                counts == self.counts_spec(),
                qs@ == lower(trim(query@)),
                q@ == qs@,
                hits@ == search_hits(scope, favs, rec, counts, index@.take(i as int), qs@),
                forall|k: int| 0 <= k < hits@.len() ==> #[trigger] hits@[k] < i,
                forall|k: int|
                    0 <= k < i && all_ascii(#[trigger] index@[k].display@) ==> (fuzzy_match_spec(
                        index@[k].display@,
                        qs@,
                    ) <==> is_subsequence(qs@, lower(index@[k].display@))),
            decreases index.len() - i,
        {
            assert(index@.take(i + 1).drop_last() == index@.take(i as int));
            assert(index@.take(i + 1).last() == index@[i as int]);
            let loc = index[i].source.locator();
            let adm = self.admits(scope, &loc);
            let fm = fuzzy_match(index[i].display.as_str(), qs.as_str());
            assert(adm == in_scope(scope, favs, rec, counts, index@[i as int].source.locator_spec()));
            assert(fm == fuzzy_match_spec(index@[i as int].display@, qs@));
            let ok = adm && (q.len() == 0 || fm);
            let ghost t = index@.take(i + 1);
            assert(t.last() == index@[i as int]);
            assert(q@ == qs@);
            assert(ok == (in_scope(scope, favs, rec, counts, t.last().source.locator_spec()) && (qs@.len()
                == 0 || fuzzy_match_spec(t.last().display@, qs@))));
            assert((t.len() - 1) as usize == i);
            if ok {
                hits.push(i);
            }
            i += 1;
        }
        assert(index@.take(index@.len() as int) == index@);
        let ghost hv = hits@;
        let ghost ks = keyed(scope, rec, counts, index@, hv);
        proof {
            lemma_hits_admitted(scope, favs, rec, counts, index@, qs@);
        }
        let mut sorted: Vec<(u64, usize)> = Vec::new();
        let mut k: usize = 0;
        while k < hits.len()
            invariant
                k <= hits@.len(),
                hv == hits@,
                self.wf(),
                rec == self.recent_spec(),
                counts == self.counts_spec(),
                ks == keyed(scope, rec, counts, index@, hv),
                forall|m: int| 0 <= m < hv.len() ==> #[trigger] hv[m] < index@.len(),
                forall|m: int|
                    0 <= m < hv.len() ==> (scope == SearchScope::Recent ==> rec.contains(
                        #[trigger] index@[hv[m] as int].source.locator_spec(),
                    )),
                sorted@ == key_sort(ks.take(k as int)),
            decreases hits.len() - k,
        {
            let h = hits[k];
            assert(hv[k as int] == h);
            let key = self.key_of(scope, &index[h]);
            let x = (key, h);
            assert(ks[k as int] == x);
            assert(ks.take(k + 1).drop_last() == ks.take(k as int));
            assert(ks.take(k + 1).last() == x);
            let mut j = sorted.len();
            while j > 0 && sorted[j - 1].0 > key
                invariant
                    j <= sorted@.len(),
                    forall|m: int| j <= m < sorted@.len() ==> #[trigger] sorted@[m].0 > key,
                decreases j,
            {
                j -= 1;
            }
            proof {
                lemma_key_insert_at(sorted@, x, j as int);
            }
            sorted.insert(j, x);
            k += 1;
        }
        assert(ks.take(ks.len() as int) == ks);
        let mut out: Vec<usize> = Vec::new();
        let mut m: usize = 0;
        while m < sorted.len()
            invariant
                m <= sorted@.len(),
                out@ == sorted@.take(m as int).map_values(|e: (u64, usize)| e.1),
            decreases sorted.len() - m,
        {
            out.push(sorted[m].1);
            assert(sorted@.take(m + 1).map_values(|e: (u64, usize)| e.1) =~= sorted@.take(
                m as int,
            ).map_values(|e: (u64, usize)| e.1).push(sorted@[m as int].1));
            m += 1;
        }
        assert(sorted@.take(sorted@.len() as int) == sorted@);
        out
    }
}

proof fn lemma_hits_admitted(
    scope: SearchScope,
    favs: Seq<Seq<char>>,
    recent: Seq<Seq<char>>,
    counts: Map<Seq<char>, u32>,
    index: Seq<Track>,
    q: Seq<char>,
)
    requires
        index.len() <= usize::MAX,
    ensures
        forall|m: int|
            0 <= m < search_hits(scope, favs, recent, counts, index, q).len() ==> #[trigger] search_hits(
                scope,
                favs,
                recent,
                counts,
                index,
                q,
            )[m] < index.len() && in_scope(
                scope,
                favs,
                recent,
                counts,
                index[search_hits(scope, favs, recent, counts, index, q)[m] as int].source.locator_spec(),
            ),
    decreases index.len(),
{
    if index.len() > 0 {
        let p = index.drop_last();
        lemma_hits_admitted(scope, favs, recent, counts, p, q);
        let prev = search_hits(scope, favs, recent, counts, p, q);
        assert forall|m: int| 0 <= m < prev.len() implies index[prev[m] as int] == p[prev[m] as int] by {}
        assert(((index.len() - 1) as usize) as int == index.len() - 1);
        assert(index[index.len() - 1] == index.last());
    }
}

/// The search returns exactly the matching entries, each once per match,
/// ordered by recency (Recent) or by descending play count (Most Played).
pub proof fn lemma_search_ordered(
    scope: SearchScope,
    favs: Seq<Seq<char>>,
    recent: Seq<Seq<char>>,
    counts: Map<Seq<char>, u32>,
    index: Seq<Track>,
    query: Seq<char>,
)
    requires
        index.len() <= usize::MAX,
    ensures
        ({
            let hits = search_hits(scope, favs, recent, counts, index, lower(trim(query)));
            let r = search_spec(scope, favs, recent, counts, index, query);
            &&& r.len() == hits.len()
            &&& forall|x: usize| r.contains(x) <==> hits.contains(x)
            &&& forall|i: int, j: int|
                0 <= i < j < r.len() ==> hit_key(scope, recent, counts, index[r[i] as int]) <= hit_key(
                    scope,
                    recent,
                    counts,
                    index[r[j] as int],
                )
        }),
{
    broadcast use vstd::seq_lib::group_to_multiset_ensures;

    let q = lower(trim(query));
    let hits = search_hits(scope, favs, recent, counts, index, q);
    lemma_hits_admitted(scope, favs, recent, counts, index, q);
    let ks = keyed(scope, recent, counts, index, hits);
    let sorted = key_sort(ks);
    lemma_key_sort(ks);
    let r = search_spec(scope, favs, recent, counts, index, query);
    assert(r == sorted.map_values(|e: (u64, usize)| e.1));
    assert forall|i: int| 0 <= i < sorted.len() implies #[trigger] sorted[i].0 == hit_key(
        scope,
        recent,
        counts,
        index[sorted[i].1 as int],
    ) && hits.contains(sorted[i].1) by {
        assert(sorted.to_multiset().count(sorted[i]) > 0);
        assert(ks.contains(sorted[i]));
        let k = choose|k: int| 0 <= k < ks.len() && ks[k] == sorted[i];
        assert(ks[k] == (hit_key(scope, recent, counts, index[hits[k] as int]), hits[k]));
    }
    assert forall|i: int, j: int| 0 <= i < j < r.len() implies hit_key(
        scope,
        recent,
        counts,
        index[r[i] as int],
    ) <= hit_key(scope, recent, counts, index[r[j] as int]) by {
        assert(r[i] == sorted[i].1);
        assert(r[j] == sorted[j].1);
        assert(sorted[i].0 <= sorted[j].0);
    }
    assert forall|x: usize| r.contains(x) <==> hits.contains(x) by {
        if r.contains(x) {
            let i = choose|i: int| 0 <= i < r.len() && r[i] == x;
            assert(r[i] == sorted[i].1);
        }
        if hits.contains(x) {
            let k = choose|k: int| 0 <= k < hits.len() && hits[k] == x;
            let e = ks[k];
            assert(e.1 == x);
            assert(ks.to_multiset().count(e) > 0);
            assert(sorted.contains(e));
            let i = choose|i: int| 0 <= i < sorted.len() && sorted[i] == e;
            assert(r[i] == x);
        }
    }
}

/// `a` comes before `b` by key, and by index among equal keys.
pub open spec fn key_index_lt(a: (u64, usize), b: (u64, usize)) -> bool {
    a.0 < b.0 || (a.0 == b.0 && a.1 < b.1)
}

pub open spec fn key_index_strict(s: Seq<(u64, usize)>) -> bool {
    forall|i: int, j: int| 0 <= i < j < s.len() ==> key_index_lt(#[trigger] s[i], #[trigger] s[j])
}

/// Whether index entry `x` is a search hit: the scope admits it and its
/// display text matches the query (a blank query matches all).
pub open spec fn is_hit(
    scope: SearchScope,
    favs: Seq<Seq<char>>,
    recent: Seq<Seq<char>>,
    counts: Map<Seq<char>, u32>,
    t: Track,
    q: Seq<char>,
) -> bool {
    in_scope(scope, favs, recent, counts, t.source.locator_spec()) && (q.len() == 0
        || fuzzy_match_spec(t.display@, q))
}

proof fn lemma_hits_members(
    scope: SearchScope,
    favs: Seq<Seq<char>>,
    recent: Seq<Seq<char>>,
    counts: Map<Seq<char>, u32>,
    index: Seq<Track>,
    q: Seq<char>,
)
    requires
        index.len() <= usize::MAX,
    ensures
        ({
            let h = search_hits(scope, favs, recent, counts, index, q);
            &&& forall|i: int, j: int| 0 <= i < j < h.len() ==> #[trigger] h[i] < #[trigger] h[j]
            &&& forall|m: int| 0 <= m < h.len() ==> #[trigger] h[m] < index.len()
            &&& forall|x: usize| #[trigger] h.contains(x) <==> (x < index.len() && is_hit(
                scope,
                favs,
                recent,
                counts,
                index[x as int],
                q,
            ))
        }),
    decreases index.len(),
{
    let h = search_hits(scope, favs, recent, counts, index, q);
    if index.len() == 0 {
        assert forall|x: usize| #[trigger] h.contains(x) <==> (x < index.len() && is_hit(
            scope,
            favs,
            recent,
            counts,
            index[x as int],
            q,
        )) by {}
    } else {
        let p = index.drop_last();
        lemma_hits_members(scope, favs, recent, counts, p, q);
        let prev = search_hits(scope, favs, recent, counts, p, q);
        let last = (index.len() - 1) as usize;
        assert(last as int == index.len() - 1);
        assert(index[last as int] == index.last());
        assert forall|x: usize| #[trigger] h.contains(x) <==> (x < index.len() && is_hit(
            scope,
            favs,
            recent,
            counts,
            index[x as int],
            q,
        )) by {
            if x < last {
                assert(index[x as int] == p[x as int]);
            }
            if h.contains(x) {
                let m = choose|m: int| 0 <= m < h.len() && h[m] == x;
                if m < prev.len() {
                    assert(prev[m] == x);
                    assert(prev.contains(x));
                }
            }
            if x < index.len() && is_hit(scope, favs, recent, counts, index[x as int], q) {
                if x < last {
                    assert(prev.contains(x));
                    let m = choose|m: int| 0 <= m < prev.len() && prev[m] == x;
                    assert(h[m] == x);
                } else {
                    assert(h[h.len() - 1] == x);
                }
            }
        }
    }
}

proof fn lemma_key_insert_strict(s: Seq<(u64, usize)>, x: (u64, usize))
    requires
        key_index_strict(s),
        forall|k: int| 0 <= k < s.len() ==> (#[trigger] s[k]).1 < x.1,
    ensures
        key_index_strict(key_insert(s, x)),
    decreases s.len(),
{
    broadcast use vstd::seq_lib::group_to_multiset_ensures;

    if s.len() == 0 || s.last().0 <= x.0 {
        let u = s.push(x);
        assert forall|i: int, j: int| 0 <= i < j < u.len() implies key_index_lt(
            #[trigger] u[i],
            #[trigger] u[j],
        ) by {
            if j == s.len() {
                if i < s.len() - 1 {
                    assert(key_index_lt(s[i], s[s.len() - 1]));
                }
                assert(s[i].1 < x.1);
            }
        }
    } else {
        let d = s.drop_last();
        assert forall|i: int, j: int| 0 <= i < j < d.len() implies key_index_lt(
            #[trigger] d[i],
            #[trigger] d[j],
        ) by {
            assert(d[i] == s[i] && d[j] == s[j]);
        }
        assert forall|k: int| 0 <= k < d.len() implies (#[trigger] d[k]).1 < x.1 by {
            assert(d[k] == s[k]);
        }
        lemma_key_insert_strict(d, x);
        lemma_key_insert_multiset(d, x);
        let t = key_insert(d, x);
        let u = t.push(s.last());
        assert forall|i: int, j: int| 0 <= i < j < u.len() implies key_index_lt(
            #[trigger] u[i],
            #[trigger] u[j],
        ) by {
            if j == t.len() {
                let m = t[i];
                assert(t.to_multiset().count(m) > 0);
                if m != x {
                    assert(d.to_multiset().count(m) > 0);
                    assert(d.contains(m));
                    let k = choose|k: int| 0 <= k < d.len() && d[k] == m;
                    assert(s[k] == m);
                    assert(key_index_lt(s[k], s[s.len() - 1]));
                }
            }
        }
    }
}

proof fn lemma_key_sort_strict(s: Seq<(u64, usize)>)
    requires
        forall|i: int, j: int| 0 <= i < j < s.len() ==> (#[trigger] s[i]).1 < (#[trigger] s[j]).1,
    ensures
        key_index_strict(key_sort(s)),
    decreases s.len(),
{
    broadcast use vstd::seq_lib::group_to_multiset_ensures;

    if s.len() > 0 {
        let d = s.drop_last();
        assert forall|i: int, j: int| 0 <= i < j < d.len() implies (#[trigger] d[i]).1 < (
        #[trigger] d[j]).1 by {
            assert(d[i] == s[i] && d[j] == s[j]);
        }
        lemma_key_sort_strict(d);
        lemma_key_sort(d);
        let ks = key_sort(d);
        assert forall|k: int| 0 <= k < ks.len() implies (#[trigger] ks[k]).1 < s.last().1 by {
            assert(ks.to_multiset().count(ks[k]) > 0);
            assert(d.contains(ks[k]));
            let m = choose|m: int| 0 <= m < d.len() && d[m] == ks[k];
            assert(s[m] == d[m]);
        }
        lemma_key_insert_strict(ks, s.last());
    }
}

/// The search results as a whole: exactly the index entries that the scope
/// admits and whose display text matches the query, each once; ordered by
/// key (position in the recently-played list for Recent, play count from
/// the top for Most Played, none otherwise), and by index among equal keys.
pub proof fn lemma_search_results(
    scope: SearchScope,
    favs: Seq<Seq<char>>,
    recent: Seq<Seq<char>>,
    counts: Map<Seq<char>, u32>,
    index: Seq<Track>,
    query: Seq<char>,
)
    requires
        index.len() <= usize::MAX,
    ensures
        ({
            let r = search_spec(scope, favs, recent, counts, index, query);
            let q = lower(trim(query));
            &&& forall|x: usize| #[trigger] r.contains(x) <==> (x < index.len() && is_hit(
                scope,
                favs,
                recent,
                counts,
                index[x as int],
                q,
            ))
            &&& forall|i: int, j: int| 0 <= i < j < r.len() ==> #[trigger] r[i] != #[trigger] r[j]
            &&& forall|i: int, j: int|
                0 <= i < j < r.len() ==> key_index_lt(
                    (hit_key(scope, recent, counts, index[r[i] as int]), r[i]),
                    (hit_key(scope, recent, counts, index[r[j] as int]), r[j]),
                )
        }),
{
    broadcast use vstd::seq_lib::group_to_multiset_ensures;

    let q = lower(trim(query));
    let hits = search_hits(scope, favs, recent, counts, index, q);
    lemma_hits_members(scope, favs, recent, counts, index, q);
    lemma_search_ordered(scope, favs, recent, counts, index, query);
    let ks = keyed(scope, recent, counts, index, hits);
    assert forall|i: int, j: int| 0 <= i < j < ks.len() implies (#[trigger] ks[i]).1 < (
    #[trigger] ks[j]).1 by {
        assert(ks[i].1 == hits[i] && ks[j].1 == hits[j]);
    }
    lemma_key_sort_strict(ks);
    lemma_key_sort(ks);
    let sorted = key_sort(ks);
    let r = search_spec(scope, favs, recent, counts, index, query);
    assert(r == sorted.map_values(|e: (u64, usize)| e.1));
    assert forall|i: int| 0 <= i < sorted.len() implies #[trigger] sorted[i].0 == hit_key(
        scope,
        recent,
        counts,
        index[sorted[i].1 as int],
    ) by {
        assert(sorted.to_multiset().count(sorted[i]) > 0);
        assert(ks.contains(sorted[i]));
        let k = choose|k: int| 0 <= k < ks.len() && ks[k] == sorted[i];
        assert(ks[k] == (hit_key(scope, recent, counts, index[hits[k] as int]), hits[k]));
    }
    assert forall|i: int, j: int| 0 <= i < j < r.len() implies key_index_lt(
        (hit_key(scope, recent, counts, index[r[i] as int]), r[i]),
        (hit_key(scope, recent, counts, index[r[j] as int]), r[j]),
    ) by {
        assert(r[i] == sorted[i].1 && r[j] == sorted[j].1);
        assert(key_index_lt(sorted[i], sorted[j]));
    }
    assert forall|i: int, j: int| 0 <= i < j < r.len() implies #[trigger] r[i] != #[trigger] r[j] by {
        assert(r[i] == sorted[i].1 && r[j] == sorted[j].1);
        assert(key_index_lt(sorted[i], sorted[j]));
    }
}

} // verus!
