use crate::query::{constraints_view, filter, select, songs_view};
use crate::song::{Song, SongView};
use dashmap::DashMap;
use vstd::prelude::*;

verus! {

#[verifier::external_type_specification]
#[verifier::external_body]
#[verifier::reject_recursive_types(K)]
#[verifier::reject_recursive_types(V)]
#[verifier::reject_recursive_types(S)]
pub struct ExDashMap<K, V, S>(DashMap<K, V, S>);

/// The concurrent map that holds the records, keyed by id.
pub type SongMap = DashMap<usize, Song>;

/// What a map of songs holds: each key with the value of its record.
pub uninterp spec fn song_entries(m: SongMap) -> Map<usize, SongView>;

/// The catalog with no records.
pub open spec fn no_songs() -> Map<usize, SongView> {
    Map::empty()
}

/// Relies on DashMap::new: a new map holds no entries.
#[verifier::external_body]
fn songs_new() -> (r: SongMap)
    ensures
        song_entries(r) == no_songs(),
{
    DashMap::new()
}

/// Relies on DashMap::insert: the key is bound to the value, any earlier binding
/// of it replaced, other entries kept.
#[verifier::external_body]
fn songs_insert(m: &mut SongMap, k: usize, v: Song)
    ensures
        song_entries(*final(m)) == song_entries(*old(m)).insert(k, v@),
{
    m.insert(k, v);
}

/// Relies on DashMap::get: the entry of the key, if there is one, handed out as
/// a copy.
#[verifier::external_body]
fn songs_get(m: &SongMap, k: usize) -> (r: Option<Song>)
    ensures
        r is Some == song_entries(*m).contains_key(k),
        r is Some ==> r->0@ == song_entries(*m)[k],
{
    m.get(&k).map(|e| e.value().duplicate())
}

/// Relies on DashMap::iter: with no other access to the map, each entry is
/// visited once, in an order that depends on the map's hasher.
#[verifier::external_body]
fn songs_entries(m: &SongMap) -> (r: Vec<(usize, Song)>)
    ensures
        r@.len() == song_entries(*m).len(),
        forall|i: int|
            0 <= i < r@.len() ==> song_entries(*m).contains_key(#[trigger] r@[i].0)
                && song_entries(*m)[r@[i].0] == r@[i].1@,
        forall|i: int, j: int| 0 <= i < j < r@.len() ==> r@[i].0 != r@[j].0,
        forall|k: usize| song_entries(*m).contains_key(k) ==> exists|i: int| 0 <= i < r@.len() && #[trigger] r@[i].0 == k,
{
    m.iter().map(|e| (*e.key(), e.value().duplicate())).collect()
}

/// `n + 1`, held at the largest value once it is reached.
pub open spec fn saturating_inc(n: usize) -> usize {
    if n == usize::MAX {
        n
    } else {
        (n + 1) as usize
    }
}

/// The record that an insert creates.
pub open spec fn new_song(id: usize, title: Seq<char>, artist: Seq<char>, genre: Seq<char>) -> SongView {
    SongView { id, title, artist, genre, play_count: 0 }
}

/// The record after one more play.
pub open spec fn played(s: SongView) -> SongView {
    SongView { play_count: saturating_inc(s.play_count), ..s }
}

/// `snap` is a copy of every record of `songs`, each once, in some order.
pub open spec fn is_snapshot(snap: Seq<SongView>, songs: Map<usize, SongView>) -> bool {
    &&& snap.len() == songs.len()
    &&& forall|i: int|
        0 <= i < snap.len() ==> songs.contains_key(#[trigger] snap[i].id) && songs[snap[i].id]
            == snap[i]
    &&& forall|i: int, j: int| 0 <= i < j < snap.len() ==> snap[i].id != snap[j].id
    &&& forall|k: usize| songs.contains_key(k) ==> exists|i: int| 0 <= i < snap.len() && #[trigger] snap[i].id == k
}

/// The mathematical value of a record store.
pub struct StoreView {
    /// Each record under its id.
    pub songs: Map<usize, SongView>,
    /// The id that the next insert receives.
    pub next_id: usize,
    /// The number of visits counted so far.
    pub visits: usize,
}

impl StoreView {
    /// The store's invariant: finitely many records, each under its own id,
    /// and every id below the counter unless the counter is spent.
    pub open spec fn wf(self) -> bool {
        &&& self.songs.dom().finite()
        &&& self.next_id >= 1
        &&& forall|k: usize| #[trigger]
            self.songs.contains_key(k) ==> self.songs[k].id == k && (k < self.next_id
                || self.next_id == usize::MAX)
    }

    /// The store with no records, counting ids from 1.
    pub open spec fn empty() -> StoreView {
        StoreView { songs: no_songs(), next_id: 1, visits: 0 }
    }

    /// The store after inserting a record under the counter's id.
    pub open spec fn after_insert(self, title: Seq<char>, artist: Seq<char>, genre: Seq<char>) -> StoreView {
        StoreView {
            songs: self.songs.insert(self.next_id, new_song(self.next_id, title, artist, genre)),
            next_id: (self.next_id + 1) as usize,
            ..self
        }
    }

    /// The store after one play of `id`; unchanged where there is no such record.
    pub open spec fn after_play(self, id: usize) -> StoreView {
        if self.songs.contains_key(id) {
            StoreView { songs: self.songs.insert(id, played(self.songs[id])), ..self }
        } else {
            self
        }
    }

    /// The store after putting back a saved record: it replaces any record
    /// with its id, and the counter moves past that id.
    pub open spec fn after_restore(self, s: SongView) -> StoreView {
        StoreView {
            songs: self.songs.insert(s.id, s),
            next_id: if s.id < self.next_id {
                self.next_id
            } else {
                saturating_inc(s.id)
            },
            ..self
        }
    }
}

/// A catalog of song records with an id counter and a visit counter.
/// Callers that share one store between tasks hold it under a lock, which
/// orders the operations one after another.
pub struct RecordStore {
    // Private, and read or written only through the wrappers above, every
    // write behind `&mut self`: so no access runs beside an iteration.
    songs: SongMap,
    next_id: usize,
    visits: usize,
}

impl View for RecordStore {
    type V = StoreView;

    closed spec fn view(&self) -> StoreView {
        StoreView { songs: song_entries(self.songs), next_id: self.next_id, visits: self.visits }
    }
}

impl RecordStore {
    /// A store with no records; the first id it gives out is 1.
    pub fn new() -> (r: RecordStore)
        ensures
            r@ == StoreView::empty(),
            r@.wf(),
    {
        RecordStore { songs: songs_new(), next_id: 1, visits: 0 }
    }

    /// Whether ids are left for another insert.
    pub fn can_insert(&self) -> (r: bool)
        ensures
            r == (self@.next_id < usize::MAX),
    {
        self.next_id < usize::MAX
    }

    /// Adds a record under the next id, with no plays, and returns it.
    pub fn insert(&mut self, title: String, artist: String, genre: String) -> (r: Song)
        requires
            old(self)@.wf(),
            old(self)@.next_id < usize::MAX,
        ensures
            final(self)@.wf(),
            r@ == new_song(old(self)@.next_id, title@, artist@, genre@),
            final(self)@ == old(self)@.after_insert(title@, artist@, genre@),
    {
        let id = self.next_id;
        let song = Song::new(id, title, artist, genre);
        let copy = song.duplicate();
        songs_insert(&mut self.songs, id, song);
        self.next_id = id + 1;
        copy
    }

    /// Counts one play of the record `id` and returns the record as it now
    /// stands, or `None` where there is no such record, which leaves the store
    /// as it was.
    pub fn increment_play(&mut self, id: usize) -> (r: Option<Song>)
        requires
            old(self)@.wf(),
        ensures
            final(self)@.wf(),
            final(self)@ == old(self)@.after_play(id),
            r is Some == old(self)@.songs.contains_key(id),
            r is Some ==> r->0@ == played(old(self)@.songs[id]),
            !old(self)@.songs.contains_key(id) ==> r is None && final(self)@ == old(self)@,
    {
        match songs_get(&self.songs, id) {
            Some(mut song) => {
                song.play_count = if song.play_count < usize::MAX {
                    song.play_count + 1
                } else {
                    song.play_count
                };
                let copy = song.duplicate();
                songs_insert(&mut self.songs, id, song);
                Some(copy)
            },
            None => None,
        }
    }

    /// The record `id`, if there is one.
    pub fn get(&self, id: usize) -> (r: Option<Song>)
        ensures
            r is Some == self@.songs.contains_key(id),
            r is Some ==> r->0@ == self@.songs[id],
    {
        songs_get(&self.songs, id)
    }

    /// Counts one visit and returns the new count (held at the largest value
    /// once it is reached).
    pub fn increment_visits(&mut self) -> (r: usize)
        ensures
            final(self)@ == (StoreView { visits: saturating_inc(old(self)@.visits), ..old(self)@ }),
            r == final(self)@.visits,
    {
        if self.visits < usize::MAX {
            self.visits = self.visits + 1;
        }
        self.visits
    }

    /// The number of visits counted so far.
    pub fn visits(&self) -> (r: usize)
        ensures
            r == self@.visits,
    {
        self.visits
    }

    /// A copy of every record, each once.
    pub fn snapshot(&self) -> (r: Vec<Song>)
        requires
            self@.wf(),
        ensures
            is_snapshot(songs_view(r@), self@.songs),
    {
        let entries = songs_entries(&self.songs);
        let ghost m = self@.songs;
        let mut out: Vec<Song> = Vec::new();
        let mut i: usize = 0;
        while i < entries.len()
            invariant
                m == self@.songs,
                self@.wf(),
                i <= entries@.len(),
                entries@.len() == m.len(),
                forall|j: int|
                    0 <= j < entries@.len() ==> m.contains_key(#[trigger] entries@[j].0)
                        && m[entries@[j].0] == entries@[j].1@,
                forall|a: int, b: int| 0 <= a < b < entries@.len() ==> entries@[a].0 != entries@[b].0,
                forall|k: usize| m.contains_key(k) ==> exists|j: int| 0 <= j < entries@.len() && #[trigger] entries@[j].0 == k,
                out@.len() == i,
                forall|j: int| 0 <= j < i ==> #[trigger] out@[j]@ == entries@[j].1@,
            decreases entries@.len() - i,
        {
            out.push(entries[i].1.duplicate());
            i = i + 1;
        }
        let ghost sv = songs_view(out@);
        assert forall|j: int| 0 <= j < sv.len() implies #[trigger] sv[j].id == entries@[j].0 by {
            assert(m.contains_key(entries@[j].0));
        }
        assert forall|k: usize| m.contains_key(k) implies exists|j: int| 0 <= j < sv.len() && #[trigger] sv[j].id == k by {
            let j = choose|j: int| 0 <= j < entries@.len() && #[trigger] entries@[j].0 == k;
            assert(sv[j].id == k);
        }
        assert forall|a: int, b: int| 0 <= a < b < sv.len() implies sv[a].id != sv[b].id by {
            assert(sv[a].id == entries@[a].0);
            assert(sv[b].id == entries@[b].0);
        }
        out
    }

    /// The records that meet all constraints, listed in the order of a
    /// snapshot of the store.
    pub fn search(&self, constraints: &Vec<(String, String)>) -> (r: Vec<Song>)
        requires
            self@.wf(),
        ensures
            exists|snap: Seq<SongView>|
                is_snapshot(snap, self@.songs) && songs_view(r@) == select(
                    snap,
                    constraints_view(constraints@),
                ),
    {
        let all = self.snapshot();
        filter(&all, constraints)
    }

    /// Puts back a saved record: it replaces any record with the same id, and
    /// later inserts receive ids above it.
    pub fn restore(&mut self, song: Song)
        requires
            old(self)@.wf(),
        ensures
            final(self)@.wf(),
            final(self)@ == old(self)@.after_restore(song@),
    {
        let id = song.id;
        if id >= self.next_id {
            self.next_id = if id < usize::MAX {
                id + 1
            } else {
                id
            };
        }
        songs_insert(&mut self.songs, id, song);
    }
}

/// The store after a run of inserts, one after another; each request is a
/// title, an artist and a genre.
pub open spec fn run_inserts(st: StoreView, reqs: Seq<(Seq<char>, Seq<char>, Seq<char>)>) -> StoreView
    decreases reqs.len(),
{
    if reqs.len() == 0 {
        st
    } else {
        let r = reqs.last();
        run_inserts(st, reqs.drop_last()).after_insert(r.0, r.1, r.2)
    }
}

/// The ids that a run of inserts returns, in order.
pub open spec fn issued_ids(st: StoreView, reqs: Seq<(Seq<char>, Seq<char>, Seq<char>)>) -> Seq<usize>
    decreases reqs.len(),
{
    if reqs.len() == 0 {
        Seq::empty()
    } else {
        issued_ids(st, reqs.drop_last()).push(run_inserts(st, reqs.drop_last()).next_id)
    }
}

/// Inserting `n` records into a new store returns the ids 1 to `n`, the
/// `i`-th insert receiving `i`, so no id is repeated or skipped; afterwards
/// the store holds exactly those ids.
pub proof fn lemma_fresh_inserts(reqs: Seq<(Seq<char>, Seq<char>, Seq<char>)>)
    requires
        reqs.len() < usize::MAX,
    ensures
        issued_ids(StoreView::empty(), reqs).len() == reqs.len(),
        forall|i: int|
            0 <= i < reqs.len() ==> #[trigger] issued_ids(StoreView::empty(), reqs)[i] == i + 1,
        run_inserts(StoreView::empty(), reqs).next_id == reqs.len() + 1,
        run_inserts(StoreView::empty(), reqs).songs.dom() == Set::new(
            |k: usize| 1 <= k <= reqs.len(),
        ),
    decreases reqs.len(),
{
    let e = StoreView::empty();
    if reqs.len() > 0 {
        let t = reqs.drop_last();
        lemma_fresh_inserts(t);
        let ids = issued_ids(e, reqs);
        assert forall|i: int| 0 <= i < reqs.len() implies #[trigger] ids[i] == i + 1 by {
            if i < t.len() {
                assert(ids[i] == issued_ids(e, t)[i]);
            }
        }
        assert(run_inserts(e, reqs).songs.dom() =~= Set::new(|k: usize| 1 <= k <= reqs.len()));
    } else {
        assert(e.songs.dom() =~= Set::new(|k: usize| 1 <= k <= reqs.len()));
    }
}

/// The store after `k` plays of `id`, one after another.
pub open spec fn run_plays(st: StoreView, id: usize, k: nat) -> StoreView
    decreases k,
{
    if k == 0 {
        st
    } else {
        run_plays(st, id, (k - 1) as nat).after_play(id)
    }
}

/// `k` plays of an existing record raise its play count by exactly `k` (up to
/// the largest count) and change nothing else; no play is lost.
pub proof fn lemma_plays_counted(st: StoreView, id: usize, k: nat)
    requires
        st.songs.contains_key(id),
    ensures
        run_plays(st, id, k).songs.dom() == st.songs.dom(),
        run_plays(st, id, k).songs[id] == (SongView {
            play_count: if st.songs[id].play_count + k <= usize::MAX {
                (st.songs[id].play_count + k) as usize
            } else {
                usize::MAX
            },
            ..st.songs[id]
        }),
        forall|j: usize| j != id && #[trigger] st.songs.contains_key(j) ==> run_plays(st, id, k).songs[j] == st.songs[j],
        run_plays(st, id, k).next_id == st.next_id,
        run_plays(st, id, k).visits == st.visits,
    decreases k,
{
    if k > 0 {
        lemma_plays_counted(st, id, (k - 1) as nat);
        assert(run_plays(st, id, k).songs.dom() =~= st.songs.dom());
    }
}

} // verus!
