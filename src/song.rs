use vstd::prelude::*;

verus! {

/// A song record held by the catalog.
#[derive(Debug)]
pub struct Song {
    pub id: usize,
    pub title: String,
    pub artist: String,
    pub genre: String,
    pub play_count: usize,
}

/// The mathematical value of a song record.
pub struct SongView {
    pub id: usize,
    pub title: Seq<char>,
    pub artist: Seq<char>,
    pub genre: Seq<char>,
    pub play_count: usize,
}

impl View for Song {
    type V = SongView;

    open spec fn view(&self) -> SongView {
        SongView {
            id: self.id,
            title: self.title@,
            artist: self.artist@,
            genre: self.genre@,
            play_count: self.play_count,
        }
    }
}

impl Song {
    /// A fresh record with no plays yet.
    pub fn new(id: usize, title: String, artist: String, genre: String) -> (r: Song)
        ensures
            r.id == id,
            r.title@ == title@,
            r.artist@ == artist@,
            r.genre@ == genre@,
            r.play_count == 0,
    {
        Song { id, title, artist, genre, play_count: 0 }
    }

    /// A field-by-field copy of the record.
    pub fn duplicate(&self) -> (r: Song)
        ensures
            r@ == self@,
    {
        Song {
            id: self.id,
            title: self.title.clone(),
            artist: self.artist.clone(),
            genre: self.genre.clone(),
            play_count: self.play_count,
        }
    }
}

} // verus!
