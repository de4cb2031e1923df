use crate::query::songs_view;
use crate::song::{Song, SongView};
use crate::store::{is_snapshot, RecordStore, StoreView};
use vstd::prelude::*;

verus! {

/// The mapping that a list of saved records describes: each id bound to the
/// last record in the list that carries it.
pub open spec fn map_of(s: Seq<SongView>) -> Map<usize, SongView>
    decreases s.len(),
{
    if s.len() == 0 {
        Map::empty()
    } else {
        map_of(s.drop_last()).insert(s.last().id, s.last())
    }
}

/// The store that loading the records `s`, in order, yields.
pub open spec fn loaded(s: Seq<SongView>) -> StoreView
    decreases s.len(),
{
    if s.len() == 0 {
        StoreView::empty()
    } else {
        loaded(s.drop_last()).after_restore(s.last())
    }
}

proof fn lemma_loaded_songs(s: Seq<SongView>)
    ensures
        loaded(s).songs == map_of(s),
        loaded(s).visits == 0,
    decreases s.len(),
{
    if s.len() > 0 {
        lemma_loaded_songs(s.drop_last());
    }
}

/// Builds a store from saved records, in file order. Where two records share
/// an id, the later one is kept. The id counter starts past every loaded id.
pub fn load_records(songs: Vec<Song>) -> (r: RecordStore)
    ensures
        r@.wf(),
        r@ == loaded(songs_view(songs@)),
        r@.songs == map_of(songs_view(songs@)),
        r@.visits == 0,
{
    let ghost sv = songs_view(songs@);
    let mut store = RecordStore::new();
    let mut i: usize = 0;
    assert(sv.subrange(0, 0) =~= Seq::<SongView>::empty());
    while i < songs.len()
        invariant
            sv == songs_view(songs@),
            i <= songs@.len(),
            store@.wf(),
            store@ == loaded(sv.subrange(0, i as int)),
        decreases songs@.len() - i,
    {
        assert(sv.subrange(0, i + 1).drop_last() =~= sv.subrange(0, i as int));
        store.restore(songs[i].duplicate());
        i = i + 1;
    }
    assert(sv.subrange(0, songs@.len() as int) =~= sv);
    proof {
        lemma_loaded_songs(sv);
    }
    store
}

/// Where the record at `i` is the last one that carries its id, loading keeps
/// exactly that record under the id.
pub proof fn lemma_last_record_wins(s: Seq<SongView>, i: int)
    requires
        0 <= i < s.len(),
        forall|j: int| i < j < s.len() ==> #[trigger] s[j].id != s[i].id,
    ensures
        map_of(s).contains_key(s[i].id),
        map_of(s)[s[i].id] == s[i],
    decreases s.len(),
{
    if i < s.len() - 1 {
        assert(s.last().id != s[i].id);
        let t = s.drop_last();
        assert forall|j: int| i < j < t.len() implies #[trigger] t[j].id != t[i].id by {
            assert(s[j].id != s[i].id);
        }
        lemma_last_record_wins(t, i);
    }
}

/// Loading yields a record under `k` exactly where some record carries `k`.
pub proof fn lemma_loaded_ids(s: Seq<SongView>)
    ensures
        forall|k: usize|
            map_of(s).contains_key(k) == exists|i: int| 0 <= i < s.len() && #[trigger] s[i].id == k,
    decreases s.len(),
{
    if s.len() > 0 {
        let t = s.drop_last();
        lemma_loaded_ids(t);
        assert forall|k: usize|
            map_of(s).contains_key(k) == exists|i: int| 0 <= i < s.len() && #[trigger] s[i].id == k by {
            if map_of(s).contains_key(k) {
                if k == s.last().id {
                    assert(s[s.len() - 1].id == k);
                } else {
                    assert(map_of(t).contains_key(k));
                    let i = choose|i: int| 0 <= i < t.len() && #[trigger] t[i].id == k;
                    assert(s[i].id == k);
                }
            }
            if exists|i: int| 0 <= i < s.len() && #[trigger] s[i].id == k {
                let i = choose|i: int| 0 <= i < s.len() && #[trigger] s[i].id == k;
                if i < t.len() {
                    assert(t[i].id == k);
                    assert(map_of(t).contains_key(k));
                }
            }
        }
    }
}

/// Loading a snapshot of a well-formed store gives back the same records under
/// the same ids, in whatever order the snapshot lists them.
pub proof fn lemma_round_trip(st: StoreView, snap: Seq<SongView>)
    requires
        st.wf(),
        is_snapshot(snap, st.songs),
    ensures
        loaded(snap).songs == st.songs,
{
    lemma_loaded_songs(snap);
    lemma_loaded_ids(snap);
    assert forall|k: usize| #[trigger] map_of(snap).contains_key(k) == st.songs.contains_key(k) by {
        if st.songs.contains_key(k) {
            let i = choose|i: int| 0 <= i < snap.len() && #[trigger] snap[i].id == k;
        }
    }
    assert forall|k: usize| #[trigger] map_of(snap).contains_key(k) implies map_of(snap)[k] == st.songs[k] by {
        let i = choose|i: int| 0 <= i < snap.len() && #[trigger] snap[i].id == k;
        assert forall|j: int| i < j < snap.len() implies #[trigger] snap[j].id != snap[i].id by {}
        lemma_last_record_wins(snap, i);
    }
    assert(map_of(snap) =~= st.songs);
}

} // verus!
