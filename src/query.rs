use crate::song::{Song, SongView};
use vstd::prelude::*;

verus! {

/// `pat` occurs in `text` as a contiguous run of characters.
pub open spec fn is_substring(pat: Seq<char>, text: Seq<char>) -> bool {
    exists|i: int| 0 <= i <= text.len() - pat.len() && #[trigger] text.subrange(i, i + pat.len()) == pat
}

/// A single constraint `key = val` holds of a record. Only `title`, `artist`
/// and `genre` are recognized; any other key never matches.
pub open spec fn field_matches(s: SongView, key: Seq<char>, val: Seq<char>) -> bool {
    if key == "title"@ {
        is_substring(val, s.title)
    } else if key == "artist"@ {
        is_substring(val, s.artist)
    } else if key == "genre"@ {
        is_substring(val, s.genre)
    } else {
        false
    }
}

/// Every constraint holds of the record.
pub open spec fn song_matches(s: SongView, c: Seq<(Seq<char>, Seq<char>)>) -> bool {
    forall|j: int| 0 <= j < c.len() ==> field_matches(s, #[trigger] c[j].0, c[j].1)
}

/// The records that meet all constraints, in their original order.
pub open spec fn select(records: Seq<SongView>, c: Seq<(Seq<char>, Seq<char>)>) -> Seq<SongView>
    decreases records.len(),
{
    if records.len() == 0 {
        Seq::empty()
    } else {
        let rest = select(records.drop_last(), c);
        if song_matches(records.last(), c) {
            rest.push(records.last())
        } else {
            rest
        }
    }
}

/// The mathematical value of a list of constraints.
pub open spec fn constraints_view(c: Seq<(String, String)>) -> Seq<(Seq<char>, Seq<char>)> {
    c.map_values(|p: (String, String)| (p.0@, p.1@))
}

/// The mathematical value of a list of records.
pub open spec fn songs_view(v: Seq<Song>) -> Seq<SongView> {
    v.map_values(|s: Song| s@)
}

/// Whether two strings hold the same characters.
pub fn text_eq(a: &str, b: &str) -> (r: bool)
    ensures
        r == (a@ == b@),
{
    let n = a.unicode_len();
    if n != b.unicode_len() {
        return false;
    }
    let mut i: usize = 0;
    while i < n
        invariant
            n == a@.len(),
            n == b@.len(),
            i <= n,
            a@.subrange(0, i as int) == b@.subrange(0, i as int),
        decreases n - i,
    {
        if a.get_char(i) != b.get_char(i) {
            assert(a@.subrange(0, n as int)[i as int] != b@.subrange(0, n as int)[i as int]);
            assert(a@.subrange(0, n as int) =~= a@);
            assert(b@.subrange(0, n as int) =~= b@);
            return false;
        }
        assert(a@.subrange(0, i + 1) =~= a@.subrange(0, i as int).push(a@[i as int]));
        assert(b@.subrange(0, i + 1) =~= b@.subrange(0, i as int).push(b@[i as int]));
        i = i + 1;
    }
    assert(a@.subrange(0, n as int) =~= a@);
    assert(b@.subrange(0, n as int) =~= b@);
    true
}

/// Whether `pat` occurs in `text` at position `at`.
fn occurs_at(pat: &str, text: &str, at: usize) -> (r: bool)
    requires
        at + pat@.len() <= text@.len(),
    ensures
        r == (text@.subrange(at as int, at + pat@.len()) == pat@),
{
    let m = pat.unicode_len();
    let n = text.unicode_len();
    let mut j: usize = 0;
    while j < m
        invariant
            m == pat@.len(),
            n == text@.len(),
            at + m <= n,
            j <= m,
            text@.subrange(at as int, at + j) == pat@.subrange(0, j as int),
        decreases m - j,
    {
        if text.get_char(at + j) != pat.get_char(j) {
            assert(text@.subrange(at as int, at + m)[j as int] != pat@[j as int]);
            return false;
        }
        assert(text@.subrange(at as int, at + j + 1) =~= text@.subrange(at as int, at + j).push(
            text@[at + j],
        ));
        assert(pat@.subrange(0, j + 1) =~= pat@.subrange(0, j as int).push(pat@[j as int]));
        j = j + 1;
    }
    assert(pat@.subrange(0, m as int) =~= pat@);
    true
}

/// Whether `pat` occurs in `text` (case-sensitive).
pub fn contains_text(text: &str, pat: &str) -> (r: bool)
    ensures
        r == is_substring(pat@, text@),
{
    let n = text.unicode_len();
    let m = pat.unicode_len();
    if m > n {
        return false;
    }
    let mut i: usize = 0;
    while i <= n - m
        invariant
            n == text@.len(),
            m == pat@.len(),
            m <= n,
            i <= n - m + 1,
            forall|k: int| 0 <= k < i ==> #[trigger] text@.subrange(k, k + m) != pat@,
        decreases n - m + 1 - i,
    {
        if occurs_at(pat, text, i) {
            return true;
        }
        if i == n - m {
            return false;
        }
        i = i + 1;
    }
    false
}

/// Whether one constraint holds of `s`.
pub fn field_match(s: &Song, key: &str, val: &str) -> (r: bool)
    ensures
        r == field_matches(s@, key@, val@),
{
    proof {
        reveal_strlit("title");
        reveal_strlit("artist");
        reveal_strlit("genre");
    }
    if text_eq(key, "title") {
        contains_text(s.title.as_str(), val)
    } else if text_eq(key, "artist") {
        contains_text(s.artist.as_str(), val)
    } else if text_eq(key, "genre") {
        contains_text(s.genre.as_str(), val)
    } else {
        false
    }
}

/// Whether every constraint holds of `s`.
pub fn matches_all(s: &Song, constraints: &Vec<(String, String)>) -> (r: bool)
    ensures
        r == song_matches(s@, constraints_view(constraints@)),
{
    let ghost cv = constraints_view(constraints@);
    let mut j: usize = 0;
    while j < constraints.len()
        invariant
            cv == constraints_view(constraints@),
            j <= constraints.len(),
            forall|k: int| 0 <= k < j ==> field_matches(s@, #[trigger] cv[k].0, cv[k].1),
        decreases constraints.len() - j,
    {
        let (key, val) = (&constraints[j].0, &constraints[j].1);
        if !field_match(s, key.as_str(), val.as_str()) {
            assert(!field_matches(s@, cv[j as int].0, cv[j as int].1));
            return false;
        }
        j = j + 1;
    }
    true
}

/// The records that meet all constraints, in the order given. An empty list
/// of constraints keeps every record.
pub fn filter(records: &Vec<Song>, constraints: &Vec<(String, String)>) -> (r: Vec<Song>)
    ensures
        songs_view(r@) == select(songs_view(records@), constraints_view(constraints@)),
{
    let ghost cv = constraints_view(constraints@);
    let ghost rv = songs_view(records@);
    let mut out: Vec<Song> = Vec::new();
    let mut i: usize = 0;
    while i < records.len()
        invariant
            cv == constraints_view(constraints@),
            rv == songs_view(records@),
            i <= records.len(),
            songs_view(out@) == select(rv.subrange(0, i as int), cv),
        decreases records.len() - i,
    {
        assert(rv.subrange(0, i + 1).drop_last() =~= rv.subrange(0, i as int));
        let s = &records[i];
        if matches_all(s, constraints) {
            out.push(s.duplicate());
            assert(songs_view(out@) =~= songs_view(out@.drop_last()).push(out@.last()@));
        }
        i = i + 1;
    }
    assert(rv.subrange(0, records.len() as int) =~= rv);
    out
}

/// With no constraints, every record is kept, in order.
pub proof fn lemma_no_constraints_keeps_all(records: Seq<SongView>)
    ensures
        select(records, Seq::empty()) == records,
    decreases records.len(),
{
    if records.len() > 0 {
        lemma_no_constraints_keeps_all(records.drop_last());
        assert(records.drop_last().push(records.last()) =~= records);
    }
}

/// A single `genre` constraint keeps exactly the records whose genre holds the
/// given text, whatever their title and artist hold.
pub proof fn lemma_genre_constraint(records: Seq<SongView>, val: Seq<char>)
    ensures
        select(records, seq![("genre"@, val)]) == records.filter(
            |s: SongView| is_substring(val, s.genre),
        ),
    decreases records.len(),
{
    reveal_strlit("title");
    reveal_strlit("artist");
    reveal_strlit("genre");
    let c = seq![("genre"@, val)];
    let f = |s: SongView| is_substring(val, s.genre);
    if records.len() > 0 {
        lemma_genre_constraint(records.drop_last(), val);
        assert("genre"@ != "title"@) by {
            assert("genre"@[0] != "title"@[0]);
        }
        assert("genre"@ != "artist"@) by {
            assert("genre"@[0] != "artist"@[0]);
        }
        assert(song_matches(records.last(), c) == f(records.last())) by {
            assert(c[0] == ("genre"@, val));
            assert(c.len() == 1);
            if song_matches(records.last(), c) {
                assert(field_matches(records.last(), c[0].0, c[0].1));
            }
            if f(records.last()) {
                assert forall|j: int| 0 <= j < c.len() implies field_matches(
                    records.last(),
                    #[trigger] c[j].0,
                    c[j].1,
                ) by {
                    assert(j == 0);
                }
            }
        }
        reveal(Seq::filter);
    } else {
        reveal(Seq::filter);
    }
}

} // verus!
