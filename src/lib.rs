//! Resolves artist/title pairs against a search service through a
//! persistent cache that rejects implausible search hits.
use vstd::prelude::*;

pub mod cache;
pub mod matching;
pub mod reddit;
pub mod resolve;
pub mod spotify;
pub mod tidal;
pub mod track;

verus! {

/// A value that should not be shown in logs or debug output.
pub struct Secret<T>(T);

impl<T> Secret<T> {
    /// The value held.
    pub closed spec fn value(&self) -> T {
        self.0
    }

    pub fn new(s: T) -> (r: Self)
        ensures
            r.value() == s,
    {
        Secret(s)
    }

    pub fn expose_secret(&self) -> (r: &T)
        ensures
            *r == self.value(),
    {
        &self.0
    }
}

/// What a record is: an identifier, a title and its artists in order.
pub struct RecordView {
    pub id: Seq<char>,
    pub title: Seq<char>,
    pub artists: Seq<Seq<char>>,
}

/// A record, as the result of a service-specific search.
pub struct Record {
    /// Whatever the given service uses as an id: a number for one service,
    /// a uri for another.
    pub id: String,
    pub title: String,
    pub artists: Vec<String>,
}

impl View for Record {
    type V = RecordView;

    open spec fn view(&self) -> RecordView {
        RecordView { id: self.id@, title: self.title@, artists: self.artists.deep_view() }
    }
}

impl Clone for Record {
    fn clone(&self) -> (r: Self)
        ensures
            r@ == self@,
    {
        let artists = self.artists.clone();
        proof {
            assert(artists.deep_view() =~= self.artists.deep_view());
        }
        Record { id: self.id.clone(), title: self.title.clone(), artists }
    }
}

impl Record {
    pub fn new(id: String, title: String, artists: Vec<String>) -> (r: Record)
        ensures
            r@ == (RecordView { id: id@, title: title@, artists: artists.deep_view() }),
    {
        Record { id, title, artists }
    }
}

/// The identifiers of `records`, in order.
pub fn record_ids(records: &Vec<Record>) -> (r: Vec<String>)
    ensures
        r@.len() == records@.len(),
        forall|i: int| 0 <= i < r@.len() ==> (#[trigger] r@[i])@ == records@[i]@.id,
{
    let mut ids: Vec<String> = Vec::new();
    let mut i: usize = 0;
    while i < records.len()
        invariant
            i <= records@.len(),
            ids@.len() == i,
            forall|j: int| 0 <= j < i ==> (#[trigger] ids@[j])@ == records@[j]@.id,
        decreases records@.len() - i,
    {
        ids.push(records[i].id.clone());
        i = i + 1;
    }
    ids
}

} // verus!
