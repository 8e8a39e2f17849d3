//! The player's unordered stores: favourites and bookmark carriers, and the
//! play counter.
//!
//! Both stores hold at most one track record per path, the invariant the
//! player otherwise gets from hashing by path. Lookups and updates go by the
//! track's path alone.

use vstd::prelude::*;
use vstd::seq_lib::group_to_multiset_ensures;

use crate::sound::{same_track, MetaSound, TrackView};

verus! {

broadcast use group_to_multiset_ensures;

/// An unordered collection of track records, at most one per path: what the
/// player keeps favourites and bookmark carriers in.
pub struct SoundSet {
    items: Vec<MetaSound>,
}

/// The bookmarks of the entry with the given path, empty when no entry has
/// it.
pub open spec fn bookmarks_in(s: Seq<MetaSound>, path: Seq<char>) -> Seq<u64>
    decreases s.len(),
{
    if s.len() == 0 {
        Seq::empty()
    } else if s.last()@.path == path {
        s.last()@.bookmarks
    } else {
        bookmarks_in(s.drop_last(), path)
    }
}

/// Whether some entry of the sequence has the given path.
pub open spec fn path_in(s: Seq<MetaSound>, path: Seq<char>) -> bool {
    exists|i: int| 0 <= i < s.len() && s[i]@.path == path
}

/// In a sequence with at most one entry per path, the entry at `i` is the
/// one `bookmarks_in` reads.
proof fn lemma_bookmarks_in_at(s: Seq<MetaSound>, path: Seq<char>, i: int)
    requires
        forall|a: int, b: int| 0 <= a < b < s.len() ==> !same_track(s[a], s[b]),
        0 <= i < s.len(),
        s[i]@.path == path,
    ensures
        bookmarks_in(s, path) == s[i]@.bookmarks,
    decreases s.len(),
{
    if i == s.len() - 1 {
    } else {
        assert(!same_track(s[i], s[s.len() - 1]));
        lemma_bookmarks_in_at(s.drop_last(), path, i);
    }
}

/// A path no entry has reads as no bookmarks.
proof fn lemma_bookmarks_in_absent(s: Seq<MetaSound>, path: Seq<char>)
    requires
        !path_in(s, path),
    ensures
        bookmarks_in(s, path) == Seq::<u64>::empty(),
    decreases s.len(),
{
    if s.len() == 0 {
    } else {
        assert(s.last() == s[s.len() - 1]);
        assert(!path_in(s.drop_last(), path)) by {
            assert(forall|i: int|
                0 <= i < s.len() - 1 ==> s.drop_last()[i] == s[i]);
        }
        lemma_bookmarks_in_absent(s.drop_last(), path);
    }
}

/// Two sequences that agree on which entries hold a path, and on the
/// bookmarks of those that do, read the same for it.
proof fn lemma_bookmarks_in_agree(s1: Seq<MetaSound>, s2: Seq<MetaSound>, path: Seq<char>)
    requires
        s1.len() == s2.len(),
        forall|i: int| #![trigger s1[i], s2[i]]
            0 <= i < s1.len() ==> (s1[i]@.path == path <==> s2[i]@.path == path) && (s1[i]@.path
                == path ==> s1[i]@.bookmarks == s2[i]@.bookmarks),
    ensures
        bookmarks_in(s1, path) == bookmarks_in(s2, path),
    decreases s1.len(),
{
    if s1.len() == 0 {
    } else {
        assert(s1.last() == s1[s1.len() - 1] && s2.last() == s2[s2.len() - 1]);
        if s1.last()@.path == path {
        } else {
            assert(forall|i: int|
                0 <= i < s1.len() - 1 ==> s1.drop_last()[i] == s1[i] && s2.drop_last()[i]
                    == s2[i]);
            lemma_bookmarks_in_agree(s1.drop_last(), s2.drop_last(), path);
        }
    }
}

impl View for SoundSet {
    type V = Seq<MetaSound>;

    closed spec fn view(&self) -> Seq<MetaSound> {
        self.items@
    }
}

impl SoundSet {
    /// At most one entry per path.
    pub open spec fn wf(&self) -> bool {
        forall|i: int, j: int| 0 <= i < j < self@.len() ==> !same_track(self@[i], self@[j])
    }

    /// Whether some entry has the given path.
    pub open spec fn spec_contains(&self, path: Seq<char>) -> bool {
        path_in(self@, path)
    }

    /// The bookmarks of the entry with the given path, empty when there is
    /// no such entry.
    pub open spec fn spec_bookmarks(&self, path: Seq<char>) -> Seq<u64> {
        bookmarks_in(self@, path)
    }

    /// An empty store.
    pub fn new() -> (s: Self)
        ensures
            s@ == Seq::<MetaSound>::empty(),
            s.wf(),
    {
        SoundSet { items: Vec::new() }
    }

    /// The index of the entry with the given track's path.
    fn index_of(&self, sound: &MetaSound) -> (r: Option<usize>)
        ensures
            match r {
                Some(i) => i < self@.len() && self@[i as int]@.path == sound@.path,
                None => !self.spec_contains(sound@.path),
            },
    {
        let n = self.items.len();
        let mut i: usize = 0;
        while i < n
            invariant
                n == self@.len(),
                i <= n,
                forall|j: int| 0 <= j < i ==> self@[j]@.path != sound@.path,
            decreases n - i,
        {
            if self.items[i] == *sound {
                return Some(i);
            }
            i = i + 1;
        }
        None
    }

    /// Whether the store holds the given track.
    pub fn contains(&self, sound: &MetaSound) -> (r: bool)
        ensures
            r == self.spec_contains(sound@.path),
    {
        match self.index_of(sound) {
            Some(i) => {
                proof {
                    assert(0 <= i < self@.len() && self@[i as int]@.path == sound@.path);
                }
                true
            },
            None => false,
        }
    }

    /// The stored record with the given track's path, if any: its bookmarks
    /// are what the store reads for that path.
    pub fn get(&self, sound: &MetaSound) -> (r: Option<&MetaSound>)
        requires
            self.wf(),
        ensures
            match r {
                Some(x) => self.spec_contains(sound@.path) && x@.path == sound@.path
                    && x@.bookmarks == self.spec_bookmarks(sound@.path),
                None => !self.spec_contains(sound@.path) && self.spec_bookmarks(sound@.path)
                    == Seq::<u64>::empty(),
            },
    {
        match self.index_of(sound) {
            Some(i) => {
                proof {
                    assert(0 <= i < self@.len() && self@[i as int]@.path == sound@.path);
                    lemma_bookmarks_in_at(self@, sound@.path, i as int);
                }
                Some(&self.items[i])
            },
            None => {
                proof {
                    lemma_bookmarks_in_absent(self@, sound@.path);
                }
                None
            },
        }
    }

    /// Add a track the store does not hold yet; one it already holds (by
    /// path) leaves the store unchanged, the stored record kept.
    pub fn insert(&mut self, sound: MetaSound)
        requires
            old(self).wf(),
        ensures
            final(self).wf(),
            old(self).spec_contains(sound@.path) ==> final(self)@ == old(self)@,
            !old(self).spec_contains(sound@.path) ==> final(self)@ == old(self)@.push(sound),
    {
        if !self.contains(&sound) {
            let ghost before = self@;
            self.items.push(sound);
            proof {
                assert forall|i: int, j: int| 0 <= i < j < self@.len() implies !same_track(
                    self@[i],
                    self@[j],
                ) by {
                    if j < before.len() {
                    } else {
                        assert(self@[j] == sound);
                        assert(!path_in(before, sound@.path));
                    }
                }
            }
        }
    }

    /// Put a track in the store: the entry with its path, if one exists, is
    /// replaced by the given record; otherwise the record is appended.
    pub fn replace(&mut self, sound: MetaSound)
        requires
            old(self).wf(),
        ensures
            final(self).wf(),
            final(self).spec_contains(sound@.path),
            final(self).spec_bookmarks(sound@.path) == sound@.bookmarks,
            forall|p: Seq<char>|
                p != sound@.path ==> final(self).spec_contains(p) == old(self).spec_contains(p)
                    && final(self).spec_bookmarks(p) == old(self).spec_bookmarks(p),
            old(self).spec_contains(sound@.path) ==> final(self)@.len() == old(self)@.len(),
            !old(self).spec_contains(sound@.path) ==> final(self)@ == old(self)@.push(sound),
    {
        let ghost before = self@;
        let ghost snd = sound;
        match self.index_of(&sound) {
            Some(i) => {
                self.items.set(i, sound);
                proof {
                    assert(self@ == before.update(i as int, snd));
                    assert forall|a: int, b: int| 0 <= a < b < self@.len() implies !same_track(
                        self@[a],
                        self@[b],
                    ) by {
                        assert(!same_track(before[a], before[b]));
                        assert(before[i as int]@.path == snd@.path);
                    }
                    lemma_bookmarks_in_at(self@, snd@.path, i as int);
                    assert forall|p: Seq<char>| p != snd@.path implies final(self).spec_contains(p)
                        == old(self).spec_contains(p) && final(self).spec_bookmarks(p) == old(
                        self,
                    ).spec_bookmarks(p) by {
                        assert forall|k: int| #![trigger before[k], self@[k]]
                            0 <= k < before.len() implies (before[k]@.path == p <==> self@[k]@.path
                            == p) && (before[k]@.path == p ==> before[k]@.bookmarks
                            == self@[k]@.bookmarks) by {
                            if k == i {
                                assert(before[k]@.path == snd@.path);
                            }
                        }
                        lemma_bookmarks_in_agree(before, self@, p);
                        assert(path_in(before, p) == path_in(self@, p)) by {
                            if path_in(before, p) {
                                let w = choose|w: int|
                                    0 <= w < before.len() && before[w]@.path == p;
                                assert(self@[w]@.path == p);
                            }
                            if path_in(self@, p) {
                                let w = choose|w: int| 0 <= w < self@.len() && self@[w]@.path == p;
                                assert(before[w]@.path == p);
                            }
                        }
                    }
                }
            },
            None => {
                self.items.push(sound);
                proof {
                    assert(self@ == before.push(snd));
                    assert forall|a: int, b: int| 0 <= a < b < self@.len() implies !same_track(
                        self@[a],
                        self@[b],
                    ) by {
                        if b < before.len() {
                        } else {
                            assert(self@[b] == snd);
                            assert(!path_in(before, snd@.path));
                        }
                    }
                    assert(self@.last() == snd);
                    assert(self@[before.len() as int]@.path == snd@.path);
                    assert forall|p: Seq<char>| p != snd@.path implies final(self).spec_contains(p)
                        == old(self).spec_contains(p) && final(self).spec_bookmarks(p) == old(
                        self,
                    ).spec_bookmarks(p) by {
                        assert(self@.drop_last() =~= before);
                        assert(path_in(before, p) == path_in(self@, p)) by {
                            if path_in(before, p) {
                                let w = choose|w: int|
                                    0 <= w < before.len() && before[w]@.path == p;
                                assert(self@[w]@.path == p);
                            }
                            if path_in(self@, p) {
                                let w = choose|w: int| 0 <= w < self@.len() && self@[w]@.path == p;
                                assert(w < before.len());
                                assert(before[w]@.path == p);
                            }
                        }
                    }
                }
            },
        }
    }

    /// The stored records, in insertion order.
    pub fn as_vec(&self) -> (r: &Vec<MetaSound>)
        ensures
            r@ == self@,
    {
        &self.items
    }
}

/// How often the entry with the given path was played, 0 when no entry has
/// it.
pub open spec fn count_in(s: Seq<(MetaSound, u64)>, path: Seq<char>) -> u64
    decreases s.len(),
{
    if s.len() == 0 {
        0
    } else if s.last().0@.path == path {
        s.last().1
    } else {
        count_in(s.drop_last(), path)
    }
}

/// Whether some entry of the counter holds the given path.
pub open spec fn counted_in(s: Seq<(MetaSound, u64)>, path: Seq<char>) -> bool {
    exists|i: int| 0 <= i < s.len() && s[i].0@.path == path
}

/// In a counter with at most one entry per path, the entry at `i` is the
/// one `count_in` reads.
proof fn lemma_count_in_at(s: Seq<(MetaSound, u64)>, path: Seq<char>, i: int)
    requires
        forall|a: int, b: int| 0 <= a < b < s.len() ==> !same_track(s[a].0, s[b].0),
        0 <= i < s.len(),
        s[i].0@.path == path,
    ensures
        count_in(s, path) == s[i].1,
    decreases s.len(),
{
    if i == s.len() - 1 {
    } else {
        assert(!same_track(s[i].0, s[s.len() - 1].0));
        lemma_count_in_at(s.drop_last(), path, i);
    }
}

/// A path no entry holds counts 0.
proof fn lemma_count_in_absent(s: Seq<(MetaSound, u64)>, path: Seq<char>)
    requires
        !counted_in(s, path),
    ensures
        count_in(s, path) == 0,
    decreases s.len(),
{
    if s.len() == 0 {
    } else {
        assert(s.last() == s[s.len() - 1]);
        assert(!counted_in(s.drop_last(), path)) by {
            assert(forall|i: int| 0 <= i < s.len() - 1 ==> s.drop_last()[i] == s[i]);
        }
        lemma_count_in_absent(s.drop_last(), path);
    }
}

/// Two counters that agree on which entries hold a path, and on the counts
/// of those that do, count the same for it.
proof fn lemma_count_in_agree(s1: Seq<(MetaSound, u64)>, s2: Seq<(MetaSound, u64)>, path: Seq<char>)
    requires
        s1.len() == s2.len(),
        forall|i: int| #![trigger s1[i], s2[i]]
            0 <= i < s1.len() ==> (s1[i].0@.path == path <==> s2[i].0@.path == path) && (s1[i].0@.path
                == path ==> s1[i].1 == s2[i].1),
    ensures
        count_in(s1, path) == count_in(s2, path),
    decreases s1.len(),
{
    if s1.len() == 0 {
    } else {
        assert(s1.last() == s1[s1.len() - 1] && s2.last() == s2[s2.len() - 1]);
        if s1.last().0@.path == path {
        } else {
            assert(forall|i: int|
                0 <= i < s1.len() - 1 ==> s1.drop_last()[i] == s1[i] && s2.drop_last()[i]
                    == s2[i]);
            lemma_count_in_agree(s1.drop_last(), s2.drop_last(), path);
        }
    }
}

/// How often each track was played: at most one entry per path, each played
/// at least once.
pub struct PlayCounts {
    entries: Vec<(MetaSound, u64)>,
}

impl View for PlayCounts {
    type V = Seq<(MetaSound, u64)>;

    closed spec fn view(&self) -> Seq<(MetaSound, u64)> {
        self.entries@
    }
}

impl PlayCounts {
    /// At most one entry per path, and every entry was played.
    pub open spec fn wf(&self) -> bool {
        &&& forall|a: int, b: int| 0 <= a < b < self@.len() ==> !same_track(self@[a].0, self@[b].0)
        &&& forall|i: int| 0 <= i < self@.len() ==> self@[i].1 >= 1
    }

    /// How often the track with the given path was played.
    pub open spec fn spec_count(&self, path: Seq<char>) -> u64 {
        count_in(self@, path)
    }

    /// An empty counter.
    pub fn new() -> (c: Self)
        ensures
            c@ == Seq::<(MetaSound, u64)>::empty(),
            c.wf(),
    {
        PlayCounts { entries: Vec::new() }
    }

    /// The index of the entry with the given track's path.
    fn index_of(&self, sound: &MetaSound) -> (r: Option<usize>)
        ensures
            match r {
                Some(i) => i < self@.len() && self@[i as int].0@.path == sound@.path,
                None => !counted_in(self@, sound@.path),
            },
    {
        let n = self.entries.len();
        let mut i: usize = 0;
        while i < n
            invariant
                n == self@.len(),
                i <= n,
                forall|j: int| 0 <= j < i ==> self@[j].0@.path != sound@.path,
            decreases n - i,
        {
            if self.entries[i].0 == *sound {
                return Some(i);
            }
            i = i + 1;
        }
        None
    }

    /// How often the given track was played.
    pub fn count(&self, sound: &MetaSound) -> (c: u64)
        requires
            self.wf(),
        ensures
            c == self.spec_count(sound@.path),
    {
        match self.index_of(sound) {
            Some(i) => {
                proof {
                    lemma_count_in_at(self@, sound@.path, i as int);
                }
                self.entries[i].1
            },
            None => {
                proof {
                    lemma_count_in_absent(self@, sound@.path);
                }
                0
            },
        }
    }

    /// Count one more play of the given track: its count rises by one (a
    /// track never played before stands at one), every other count is kept.
    pub fn increment(&mut self, sound: &MetaSound)
        requires
            old(self).wf(),
            old(self).spec_count(sound@.path) < u64::MAX,
        ensures
            final(self).wf(),
            final(self).spec_count(sound@.path) == old(self).spec_count(sound@.path) + 1,
            forall|p: Seq<char>|
                p != sound@.path ==> final(self).spec_count(p) == old(self).spec_count(p),
    {
        let ghost before = self@;
        match self.index_of(sound) {
            Some(i) => {
                proof {
                    lemma_count_in_at(before, sound@.path, i as int);
                }
                let kept = self.entries[i].0.clone();
                let c = self.entries[i].1;
                self.entries.set(i, (kept, c + 1));
                proof {
                    assert(self@ == before.update(i as int, self@[i as int]));
                    assert(self@[i as int].0@.path == sound@.path);
                    assert forall|a: int, b: int| 0 <= a < b < self@.len() implies !same_track(
                        self@[a].0,
                        self@[b].0,
                    ) by {
                        assert(!same_track(before[a].0, before[b].0));
                        assert(before[i as int].0@.path == sound@.path);
                    }
                    lemma_count_in_at(self@, sound@.path, i as int);
                    assert forall|p: Seq<char>| p != sound@.path implies final(self).spec_count(p)
                        == old(self).spec_count(p) by {
                        assert forall|k: int| #![trigger before[k], self@[k]]
                            0 <= k < before.len() implies (before[k].0@.path == p
                            <==> self@[k].0@.path == p) && (before[k].0@.path == p ==> before[k].1
                            == self@[k].1) by {
                            if k == i {
                                assert(before[k].0@.path == sound@.path);
                            }
                        }
                        lemma_count_in_agree(before, self@, p);
                    }
                }
            },
            None => {
                proof {
                    lemma_count_in_absent(before, sound@.path);
                }
                self.entries.push((sound.clone(), 1));
                proof {
                    assert(self@.last().0@.path == sound@.path);
                    assert(self@.last().1 == 1);
                    assert(self@.drop_last() =~= before);
                    assert forall|a: int, b: int| 0 <= a < b < self@.len() implies !same_track(
                        self@[a].0,
                        self@[b].0,
                    ) by {
                        if b < before.len() {
                        } else {
                            assert(self@[b].0@.path == sound@.path);
                            assert(!counted_in(before, sound@.path));
                        }
                    }
                    assert forall|p: Seq<char>| p != sound@.path implies final(self).spec_count(p)
                        == old(self).spec_count(p) by {
                        assert(count_in(self@, p) == count_in(before, p));
                    }
                }
            },
        }
    }

    /// The counted tracks, in insertion order.
    pub fn as_vec(&self) -> (r: &Vec<(MetaSound, u64)>)
        ensures
            r@ == self@,
    {
        &self.entries
    }

    /// The counted tracks, most played first: the same entries (by their
    /// mathematical values), ordered by falling count.
    pub fn most_played(&self) -> (r: Vec<(MetaSound, u64)>)
        ensures
            forall|i: int, j: int| 0 <= i < j < r@.len() ==> r@[i].1 >= r@[j].1,
            pair_views(r@).to_multiset() == pair_views(self@).to_multiset(),
    {
        let n = self.entries.len();
        let mut r: Vec<(MetaSound, u64)> = Vec::new();
        let mut idx: usize = 0;
        proof {
            assert(pair_views(r@) =~= Seq::<(TrackView, u64)>::empty());
            assert(pair_views(self@.subrange(0, 0)) =~= Seq::<(TrackView, u64)>::empty());
        }
        while idx < n
            invariant
                n == self@.len(),
                idx <= n,
                forall|i: int, j: int| 0 <= i < j < r@.len() ==> r@[i].1 >= r@[j].1,
                pair_views(r@).to_multiset() == pair_views(self@.subrange(0, idx as int)).to_multiset(),
            decreases n - idx,
        {
            let c = self.entries[idx].1;
            let e = (self.entries[idx].0.clone(), c);
            let mut k: usize = 0;
            while k < r.len() && r[k].1 >= c
                invariant
                    k <= r@.len(),
                    forall|j: int| 0 <= j < k ==> r@[j].1 >= c,
                decreases r@.len() - k,
            {
                k = k + 1;
            }
            let ghost rold = r@;
            let ghost ev = (e.0@, e.1);
            r.insert(k, e);
            proof {
                assert forall|i: int, j: int| 0 <= i < j < r@.len() implies r@[i].1 >= r@[j].1 by {
                    assert(forall|m: int|
                        0 <= m < k ==> r@[m] == rold[m]);
                    assert(r@[k as int].1 == c);
                    assert(forall|m: int|
                        k < m < r@.len() ==> r@[m] == rold[m - 1]);
                    if k < rold.len() {
                        assert(rold[k as int].1 < c);
                    }
                }
                assert(pair_views(r@) =~= pair_views(rold).insert(k as int, ev));
                assert(pair_views(self@.subrange(0, idx + 1)) =~= pair_views(
                    self@.subrange(0, idx as int),
                ).push((self@[idx as int].0@, self@[idx as int].1)));
                assert(ev == (self@[idx as int].0@, self@[idx as int].1));
            }
            idx = idx + 1;
        }
        proof {
            assert(self@.subrange(0, n as int) =~= self@);
        }
        r
    }
}

/// The mathematical values of a counter's entries: each track's view with
/// its count.
pub open spec fn pair_views(s: Seq<(MetaSound, u64)>) -> Seq<(TrackView, u64)> {
    s.map_values(|e: (MetaSound, u64)| (e.0@, e.1))
}

/// The given positions in nondecreasing order: a reordering, nothing lost
/// and nothing invented.
pub fn sorted_positions(v: &Vec<u64>) -> (r: Vec<u64>)
    ensures
        forall|i: int, j: int| 0 <= i < j < r@.len() ==> r@[i] <= r@[j],
        r@.to_multiset() == v@.to_multiset(),
{
    let n = v.len();
    let mut r: Vec<u64> = Vec::new();
    let mut idx: usize = 0;
    proof {
        assert(r@.to_multiset() =~= v@.subrange(0, 0).to_multiset());
    }
    while idx < n
        invariant
            n == v@.len(),
            idx <= n,
            forall|i: int, j: int| 0 <= i < j < r@.len() ==> r@[i] <= r@[j],
            r@.to_multiset() == v@.subrange(0, idx as int).to_multiset(),
        decreases n - idx,
    {
        let x = v[idx];
        let mut k: usize = 0;
        while k < r.len() && r[k] <= x
            invariant
                k <= r@.len(),
                forall|j: int| 0 <= j < k ==> r@[j] <= x,
            decreases r@.len() - k,
        {
            k = k + 1;
        }
        let ghost rold = r@;
        r.insert(k, x);
        proof {
            assert forall|i: int, j: int| 0 <= i < j < r@.len() implies r@[i] <= r@[j] by {
                assert(forall|m: int| 0 <= m < k ==> r@[m] == rold[m]);
                assert(r@[k as int] == x);
                assert(forall|m: int| k < m < r@.len() ==> r@[m] == rold[m - 1]);
                if k < rold.len() {
                    assert(rold[k as int] > x);
                }
            }
            assert(v@.subrange(0, idx + 1) =~= v@.subrange(0, idx as int).push(v@[idx as int]));
        }
        idx = idx + 1;
    }
    proof {
        assert(v@.subrange(0, n as int) =~= v@);
    }
    r
}

/// Whether a value stands in the run of two lists.
pub(crate) proof fn lemma_contains_concat(s1: Seq<u64>, s2: Seq<u64>, a: u64)
    ensures
        (s1 + s2).contains(a) <==> (s1.contains(a) || s2.contains(a)),
{
    if (s1 + s2).contains(a) {
        let w = choose|w: int| 0 <= w < (s1 + s2).len() && (s1 + s2)[w] == a;
        if w < s1.len() {
            assert(s1[w] == a);
        } else {
            assert(s2[w - s1.len()] == a);
        }
    }
    if s1.contains(a) {
        let w = choose|w: int| 0 <= w < s1.len() && s1[w] == a;
        assert((s1 + s2)[w] == a);
    }
    if s2.contains(a) {
        let w = choose|w: int| 0 <= w < s2.len() && s2[w] == a;
        assert((s1 + s2)[s1.len() + w] == a);
    }
}

/// Whether a value stands in a list extended by one element.
pub(crate) proof fn lemma_contains_push(s: Seq<u64>, x: u64, a: u64)
    ensures
        s.push(x).contains(a) <==> (s.contains(a) || a == x),
{
    if s.push(x).contains(a) {
        let w = choose|w: int| 0 <= w < s.push(x).len() && s.push(x)[w] == a;
        if w < s.len() {
            assert(s[w] == a);
        }
    }
    if s.contains(a) {
        let w = choose|w: int| 0 <= w < s.len() && s[w] == a;
        assert(s.push(x)[w] == a);
    }
    assert(s.push(x)[s.len() as int] == x);
}

/// A nondecreasing list with its repetitions dropped: strictly increasing,
/// holding exactly the values of the given list.
pub fn dedup_sorted(v: &Vec<u64>) -> (r: Vec<u64>)
    requires
        forall|i: int, j: int| 0 <= i < j < v@.len() ==> v@[i] <= v@[j],
    ensures
        forall|i: int, j: int| 0 <= i < j < r@.len() ==> r@[i] < r@[j],
        forall|x: u64| r@.contains(x) <==> v@.contains(x),
{
    let n = v.len();
    let mut r: Vec<u64> = Vec::new();
    let mut idx: usize = 0;
    while idx < n
        invariant
            n == v@.len(),
            idx <= n,
            forall|i: int, j: int| 0 <= i < j < v@.len() ==> v@[i] <= v@[j],
            forall|i: int, j: int| 0 <= i < j < r@.len() ==> r@[i] < r@[j],
            forall|x: u64| r@.contains(x) <==> v@.subrange(0, idx as int).contains(x),
            idx > 0 ==> r@.len() > 0 && r@.last() == v@[idx - 1],
        decreases n - idx,
    {
        let x = v[idx];
        let ghost rold = r@;
        let ghost pre = v@.subrange(0, idx as int);
        proof {
            assert(v@.subrange(0, idx + 1) =~= pre.push(v@[idx as int]));
        }
        if r.len() == 0 || r[r.len() - 1] < x {
            r.push(x);
            proof {
                assert(r@ == rold.push(x));
                assert forall|i: int, j: int| 0 <= i < j < r@.len() implies r@[i] < r@[j] by {
                    if j < rold.len() {
                        assert(r@[i] == rold[i] && r@[j] == rold[j]);
                    } else {
                        assert(r@[j] == x);
                        assert(r@[i] == rold[i]);
                        if i < rold.len() - 1 {
                            assert(rold[i] < rold[rold.len() - 1]);
                        }
                        assert(rold[rold.len() - 1] < x);
                    }
                }
                assert forall|a: u64| r@.contains(a) <==> v@.subrange(0, idx + 1).contains(
                    a,
                ) by {
                    lemma_contains_push(rold, x, a);
                    lemma_contains_push(pre, v@[idx as int], a);
                }
            }
        } else {
            proof {
                if idx == 0 {
                    assert(0 <= 0 < r@.len() && r@[0] == r@[0]);
                    assert(r@.contains(r@[0]));
                    assert(pre.contains(r@[0]));
                    assert(false);
                }
                // The element repeats: the list is sorted, so the last kept
                // value is exactly this one.
                assert(r@.last() == v@[idx - 1]);
                assert(v@[idx - 1] <= v@[idx as int]);
                assert(r@.last() == x);
                assert(r@.contains(x)) by {
                    assert(r@[r@.len() - 1] == x);
                }
                assert forall|a: u64| r@.contains(a) <==> v@.subrange(0, idx + 1).contains(
                    a,
                ) by {
                    lemma_contains_push(pre, v@[idx as int], a);
                }
            }
        }
        idx = idx + 1;
    }
    proof {
        assert(v@.subrange(0, n as int) =~= v@);
    }
    r
}

} // verus!
