//! The playlist service whose playlist is changed in bounded batches.
use vstd::prelude::*;
use itertools::Itertools;
use crate::Secret;

verus! {

/// Credentials and the playlist to update.
pub struct Settings {
    pub client_id: String,
    pub client_secret: Secret<String>,
    pub refresh_token: Secret<String>,
    pub playlist_id: String,
}

/// The most items that one request may add to or remove from a playlist.
pub const BATCH_SIZE: usize = 20;

/// Whether `chunks` cuts `items` into consecutive pieces of `size` items,
/// the last of which may be shorter.
pub open spec fn is_chunking<T>(chunks: Seq<Seq<T>>, items: Seq<T>, size: nat) -> bool {
    &&& chunks.flatten() == items
    &&& forall|i: int| 0 <= i < chunks.len() ==> 0 < (#[trigger] chunks[i]).len() <= size
    &&& forall|i: int| 0 <= i < chunks.len() - 1 ==> (#[trigger] chunks[i]).len() == size
}

pub open spec fn chunks_view<T>(chunks: Seq<Vec<T>>) -> Seq<Seq<T>> {
    chunks.map_values(|c: Vec<T>| c@)
}

/// Relies on `Itertools::chunks`: consecutive chunks of `size` items, the
/// last one shorter if the items run out.
#[verifier::external_body]
fn chunked<T>(items: Vec<T>, size: usize) -> (r: Vec<Vec<T>>)
    requires
        size > 0,
    ensures
        is_chunking(chunks_view(r@), items@, size as nat),
{
    items.into_iter().chunks(size).into_iter().map(|chunk| chunk.collect()).collect()
}

/// The requests that a list of playlist items is sent in: consecutive
/// batches of `BATCH_SIZE` items, the last one shorter if the items run out.
pub fn batches<T>(items: Vec<T>) -> (r: Vec<Vec<T>>)
    ensures
        is_chunking(chunks_view(r@), items@, BATCH_SIZE as nat),
{
    chunked(items, BATCH_SIZE)
}

} // verus!
