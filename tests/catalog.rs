use song_catalog::persist::load_records;
use song_catalog::query::{contains_text, field_match, filter, matches_all, text_eq};
use song_catalog::song::Song;
use song_catalog::store::RecordStore;

fn s(x: &str) -> String {
    x.to_string()
}

fn song(id: usize, title: &str, artist: &str, genre: &str, plays: usize) -> Song {
    Song { id, title: s(title), artist: s(artist), genre: s(genre), play_count: plays }
}

fn c(pairs: &[(&str, &str)]) -> Vec<(String, String)> {
    pairs.iter().map(|(k, v)| (s(k), s(v))).collect()
}

fn ids(v: &[Song]) -> Vec<usize> {
    v.iter().map(|x| x.id).collect()
}

fn sample() -> Vec<Song> {
    vec![
        song(1, "Paranoid", "Black Sabbath", "Heavy Rock", 0),
        song(2, "Rock Lobster", "The B-52's", "New Wave", 3),
        song(3, "So What", "Miles Davis", "Jazz", 1),
        song(4, "Rockit", "Herbie Hancock", "Electro", 0),
        song(5, "Roxanne", "The Police", "Rock", 7),
    ]
}

#[test]
fn inserts_receive_consecutive_ids() {
    let mut st = RecordStore::new();
    let mut got = Vec::new();
    for i in 0..10 {
        let r = st.insert(format!("t{}", i), s("a"), s("g"));
        assert_eq!(r.play_count, 0);
        assert_eq!(r.title, format!("t{}", i));
        got.push(r.id);
    }
    assert_eq!(got, (1..=10).collect::<Vec<usize>>());
    let mut snap = ids(&st.snapshot());
    snap.sort();
    assert_eq!(snap, (1..=10).collect::<Vec<usize>>());
}

#[test]
fn inserted_record_is_stored() {
    let mut st = RecordStore::new();
    let r = st.insert(s("Song"), s("Artist"), s("Pop"));
    let g = st.get(r.id).unwrap();
    assert_eq!(g.id, 1);
    assert_eq!(g.title, "Song");
    assert_eq!(g.artist, "Artist");
    assert_eq!(g.genre, "Pop");
    assert_eq!(g.play_count, 0);
    assert!(st.get(2).is_none());
}

#[test]
fn plays_are_all_counted() {
    let mut st = RecordStore::new();
    let id = st.insert(s("x"), s("y"), s("z")).id;
    for k in 1..=25 {
        let r = st.increment_play(id).unwrap();
        assert_eq!(r.play_count, k);
    }
    assert_eq!(st.get(id).unwrap().play_count, 25);
    assert_eq!(st.get(id).unwrap().title, "x");
}

#[test]
fn play_of_missing_id_is_not_found() {
    let mut st = RecordStore::new();
    st.insert(s("x"), s("y"), s("z"));
    assert!(st.increment_play(42).is_none());
    assert_eq!(st.snapshot().len(), 1);
    assert_eq!(st.get(1).unwrap().play_count, 0);
    assert!(st.get(42).is_none());
    assert_eq!(st.insert(s("n"), s("n"), s("n")).id, 2);
}

#[test]
fn play_count_saturates() {
    let mut st = load_records(vec![song(1, "a", "b", "c", usize::MAX)]);
    assert_eq!(st.increment_play(1).unwrap().play_count, usize::MAX);
}

#[test]
fn visits_count_up() {
    let mut st = RecordStore::new();
    assert_eq!(st.visits(), 0);
    assert_eq!(st.increment_visits(), 1);
    assert_eq!(st.increment_visits(), 2);
    assert_eq!(st.increment_visits(), 3);
    assert_eq!(st.visits(), 3);
    assert!(st.snapshot().is_empty());
}

#[test]
fn empty_constraints_keep_all_in_order() {
    let recs = sample();
    let out = filter(&recs, &Vec::new());
    assert_eq!(ids(&out), vec![1, 2, 3, 4, 5]);
}

#[test]
fn genre_constraint_uses_genre_only() {
    let recs = sample();
    let out = filter(&recs, &c(&[("genre", "Rock")]));
    assert_eq!(ids(&out), vec![1, 5]);
    assert_eq!(out[0].title, "Paranoid");
    assert_eq!(out[1].play_count, 7);
}

#[test]
fn constraints_are_conjoined() {
    let recs = sample();
    assert_eq!(ids(&filter(&recs, &c(&[("title", "Ro"), ("artist", "The")]))), vec![2, 5]);
    assert_eq!(ids(&filter(&recs, &c(&[("title", "Ro"), ("genre", "Electro")]))), vec![4]);
    assert!(filter(&recs, &c(&[("title", "Ro"), ("genre", "Jazz")])).is_empty());
}

#[test]
fn unknown_field_never_matches() {
    let recs = sample();
    assert!(filter(&recs, &c(&[("year", "")])).is_empty());
    assert!(filter(&recs, &c(&[("genre", "Rock"), ("album", "x")])).is_empty());
    assert!(!field_match(&recs[0], "Title", "Paranoid"));
}

#[test]
fn matching_is_case_sensitive() {
    let recs = sample();
    assert!(filter(&recs, &c(&[("genre", "rock")])).is_empty());
    assert!(field_match(&recs[2], "artist", "Miles"));
    assert!(!field_match(&recs[2], "artist", "miles"));
}

#[test]
fn empty_text_matches_every_record() {
    let recs = sample();
    assert_eq!(filter(&recs, &c(&[("title", "")])).len(), 5);
    assert!(matches_all(&recs[3], &c(&[("artist", "")])));
}

#[test]
fn substring_search() {
    assert!(contains_text("Heavy Rock", "Rock"));
    assert!(contains_text("Heavy Rock", "y R"));
    assert!(contains_text("Heavy Rock", ""));
    assert!(contains_text("", ""));
    assert!(!contains_text("", "a"));
    assert!(!contains_text("Rock", "Rocks"));
    assert!(!contains_text("Heavy Rock", "Rocky"));
    assert!(contains_text("ééa", "éa"));
}

#[test]
fn text_equality() {
    assert!(text_eq("genre", "genre"));
    assert!(!text_eq("genre", "genres"));
    assert!(!text_eq("genre", "Genre"));
    assert!(text_eq("", ""));
}

#[test]
fn search_filters_the_store() {
    let mut st = RecordStore::new();
    st.insert(s("Back in Black"), s("AC/DC"), s("Hard Rock"));
    st.insert(s("Blue in Green"), s("Miles Davis"), s("Jazz"));
    st.insert(s("Rock and Roll"), s("Led Zeppelin"), s("Blues"));
    let mut got = ids(&st.search(&c(&[("genre", "Rock")])));
    got.sort();
    assert_eq!(got, vec![1]);
    let mut all = ids(&st.search(&Vec::new()));
    all.sort();
    assert_eq!(all, vec![1, 2, 3]);
}

#[test]
fn snapshot_round_trip() {
    let mut st = RecordStore::new();
    st.insert(s("a"), s("b"), s("c"));
    st.insert(s("d"), s("e"), s("f"));
    st.insert(s("g"), s("h"), s("i"));
    st.increment_play(2);
    st.increment_play(2);
    let back = load_records(st.snapshot());
    let mut got: Vec<(usize, String, String, String, usize)> = back
        .snapshot()
        .into_iter()
        .map(|x| (x.id, x.title, x.artist, x.genre, x.play_count))
        .collect();
    got.sort();
    assert_eq!(
        got,
        vec![
            (1, s("a"), s("b"), s("c"), 0),
            (2, s("d"), s("e"), s("f"), 2),
            (3, s("g"), s("h"), s("i"), 0)
        ]
    );
}

#[test]
fn later_duplicate_id_wins() {
    let st = load_records(vec![
        song(3, "First", "A", "Rock", 1),
        song(1, "Other", "B", "Pop", 0),
        song(3, "Second", "C", "Jazz", 9),
    ]);
    let snap = st.snapshot();
    assert_eq!(snap.len(), 2);
    assert_eq!(snap.iter().filter(|x| x.id == 3).count(), 1);
    let r = st.get(3).unwrap();
    assert_eq!(r.title, "Second");
    assert_eq!(r.artist, "C");
    assert_eq!(r.genre, "Jazz");
    assert_eq!(r.play_count, 9);
}

#[test]
fn loading_nothing_gives_empty_store() {
    let mut st = load_records(Vec::new());
    assert!(st.snapshot().is_empty());
    assert_eq!(st.visits(), 0);
    assert_eq!(st.insert(s("a"), s("b"), s("c")).id, 1);
}

#[test]
fn ids_continue_after_loaded_records() {
    let mut st = load_records(vec![song(7, "a", "b", "c", 0), song(2, "d", "e", "f", 0)]);
    assert_eq!(st.insert(s("n"), s("n"), s("n")).id, 8);
    let mut r = RecordStore::new();
    r.restore(song(4, "x", "y", "z", 2));
    assert_eq!(r.insert(s("n"), s("n"), s("n")).id, 5);
    assert_eq!(r.get(4).unwrap().play_count, 2);
}

#[test]
fn spent_counter_refuses_inserts() {
    let st = load_records(vec![song(usize::MAX, "a", "b", "c", 0)]);
    assert!(!st.can_insert());
    assert!(RecordStore::new().can_insert());
}

#[test]
fn duplicate_keeps_fields() {
    let a = song(9, "t", "a", "g", 4);
    let b = a.duplicate();
    assert_eq!((b.id, b.title, b.artist, b.genre, b.play_count), (9, s("t"), s("a"), s("g"), 4));
    let n = Song::new(5, s("x"), s("y"), s("z"));
    assert_eq!(n.play_count, 0);
    assert_eq!(n.id, 5);
}
