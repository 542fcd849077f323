//! The key that a search is made for: an artist and a title.
use vstd::prelude::*;
use vstd::string::*;

verus! {

pub struct Track {
    pub artist: String,
    pub title: String,
}

impl View for Track {
    /// The artist, then the title.
    type V = (Seq<char>, Seq<char>);

    open spec fn view(&self) -> (Seq<char>, Seq<char>) {
        (self.artist@, self.title@)
    }
}

impl Clone for Track {
    fn clone(&self) -> (r: Self)
        ensures
            r@ == self@,
    {
        Track { artist: self.artist.clone(), title: self.title.clone() }
    }
}

impl Track {
    pub fn new(artist: String, title: String) -> (r: Track)
        ensures
            r@ == (artist@, title@),
    {
        Track { artist, title }
    }

    /// The query text of a field-qualified search: `track:<title> artist:<artist>`.
    pub fn as_spotify_query(&self) -> (r: String)
        ensures
            r@ == "track:"@ + self.title@ + " artist:"@ + self.artist@,
    {
        let mut q = String::from_str("track:");
        q.append(self.title.as_str());
        q.append(" artist:");
        q.append(self.artist.as_str());
        q
    }

    /// The query text of a free-text search: the artist, a space, the title.
    pub fn as_tidal_query(&self) -> (r: String)
        ensures
            r@ == self.artist@ + " "@ + self.title@,
    {
        let mut q = self.artist.clone();
        q.append(" ");
        q.append(self.title.as_str());
        q
    }

    /// The track as shown to people: `'<artist>' - '<title>'`.
    pub fn to_string(&self) -> (r: String)
        ensures
            r@ == "'"@ + self.artist@ + "' - '"@ + self.title@ + "'"@,
    {
        let mut s = String::from_str("'");
        s.append(self.artist.as_str());
        s.append("' - '");
        s.append(self.title.as_str());
        s.append("'");
        s
    }
}

} // verus!
