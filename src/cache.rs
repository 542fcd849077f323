//! The cache of search outcomes, keyed by track.
//!
//! A key that is absent was never searched for; a key that maps to `None`
//! was searched for and nothing was found; otherwise the entry holds the
//! record that was found and whether it was rejected as implausible.
use vstd::prelude::*;
use dashmap::DashMap;
use crate::matching::{accepts, score};
use crate::track::Track;
use crate::{Record, RecordView};

verus! {

#[verifier::external_type_specification]
#[verifier::external_body]
#[verifier::reject_recursive_types(K)]
#[verifier::reject_recursive_types(V)]
#[verifier::reject_recursive_types(S)]
pub struct ExDashMap<K, V, S>(DashMap<K, V, S>);

/// What a map of stored entries holds: (artist, title) to, if something was
/// found, (id, title, artists, rejected).
pub uninterp spec fn store_contents(
    m: DashMap<(String, String), Option<(String, String, Vec<String>, bool)>>,
) -> Map<(Seq<char>, Seq<char>), Option<(Seq<char>, Seq<char>, Seq<Seq<char>>, bool)>>;

pub open spec fn stored_key_view(k: (String, String)) -> (Seq<char>, Seq<char>) {
    (k.0@, k.1@)
}

pub open spec fn stored_entry_view(e: Option<(String, String, Vec<String>, bool)>) -> Option<
    (Seq<char>, Seq<char>, Seq<Seq<char>>, bool),
> {
    match e {
        None => None,
        Some(t) => Some((t.0@, t.1@, t.2.deep_view(), t.3)),
    }
}

/// Relies on `DashMap::new`: a map without entries.
#[verifier::external_body]
fn store_new() -> (r: DashMap<(String, String), Option<(String, String, Vec<String>, bool)>>)
    ensures
        store_contents(r).dom() == Set::<(Seq<char>, Seq<char>)>::empty(),
{
    DashMap::new()
}

/// Relies on `DashMap::get`: the value stored under an equal key, if any,
/// cloned out of the map.
#[verifier::external_body]
fn store_get(
    m: &DashMap<(String, String), Option<(String, String, Vec<String>, bool)>>,
    k: &(String, String),
) -> (r: Option<Option<(String, String, Vec<String>, bool)>>)
    ensures
        r.is_some() == store_contents(*m).contains_key(stored_key_view(*k)),
        r matches Some(v) ==> stored_entry_view(v) == store_contents(*m)[stored_key_view(*k)],
{
    m.get(k).map(|e| e.value().clone())
}

/// Relies on `DashMap::insert`: afterwards the key maps to the value and
/// every other key is as it was.
#[verifier::external_body]
fn store_insert(
    m: &mut DashMap<(String, String), Option<(String, String, Vec<String>, bool)>>,
    k: (String, String),
    v: Option<(String, String, Vec<String>, bool)>,
)
    ensures
        store_contents(*final(m)) == store_contents(*old(m)).insert(
            stored_key_view(k),
            stored_entry_view(v),
        ),
{
    m.insert(k, v);
}

/// Relies on `DashMap::retain`: keeps exactly the entries whose key the
/// predicate accepts, here the keys of `tracks`.
#[verifier::external_body]
fn store_retain(
    m: &mut DashMap<(String, String), Option<(String, String, Vec<String>, bool)>>,
    tracks: &Vec<Track>,
)
    ensures
        store_contents(*final(m)) == store_contents(*old(m)).restrict(track_keys(tracks@)),
{
    m.retain(|k, _v| is_retained(tracks, k));
}

/// Relies on `DashMap::iter`: every entry once, in an order that depends on
/// the hasher; keys and values are cloned out of the map.
#[verifier::external_body]
fn store_entries(m: &DashMap<(String, String), Option<(String, String, Vec<String>, bool)>>) -> (r:
    Vec<((String, String), Option<(String, String, Vec<String>, bool)>)>)
    ensures
        is_listing(
            r@.map_values(
                |p: ((String, String), Option<(String, String, Vec<String>, bool)>)|
                    (stored_key_view(p.0), stored_entry_view(p.1)),
            ),
            store_contents(*m),
        ),
{
    m.iter().map(|e| (e.key().clone(), e.value().clone())).collect()
}

/// Relies on `DashMap::len`: the number of entries.
#[verifier::external_body]
fn store_len(m: &DashMap<(String, String), Option<(String, String, Vec<String>, bool)>>) -> (r:
    usize)
    ensures
        r == store_contents(*m).len(),
{
    m.len()
}

/// The keys of `tracks`.
pub open spec fn track_keys(tracks: Seq<Track>) -> Set<(Seq<char>, Seq<char>)> {
    Set::new(|k: (Seq<char>, Seq<char>)| exists|i: int| 0 <= i < tracks.len() && #[trigger] tracks[i]@ == k)
}

/// Whether `pairs` lists the entries of `m`: each key once, each with its
/// value, and every key of `m`.
pub open spec fn is_listing<K, V>(pairs: Seq<(K, V)>, m: Map<K, V>) -> bool {
    &&& forall|i: int, j: int|
        0 <= i < j < pairs.len() ==> (#[trigger] pairs[i]).0 != (#[trigger] pairs[j]).0
    &&& forall|i: int|
        0 <= i < pairs.len() ==> m.contains_key((#[trigger] pairs[i]).0) && m[pairs[i].0]
            == pairs[i].1
    &&& forall|k: K|
        #[trigger] m.contains_key(k) ==> exists|i: int| 0 <= i < pairs.len() && pairs[i].0 == k
}

/// Whether `key` is the key of one of `tracks`.
pub fn is_retained(tracks: &Vec<Track>, key: &(String, String)) -> (r: bool)
    ensures
        r == track_keys(tracks@).contains(stored_key_view(*key)),
{
    let mut i: usize = 0;
    while i < tracks.len()
        invariant
            i <= tracks@.len(),
            forall|j: int| 0 <= j < i ==> (#[trigger] tracks@[j])@ != stored_key_view(*key),
        decreases tracks@.len() - i,
    {
        if tracks[i].artist == key.0 && tracks[i].title == key.1 {
            assert(tracks@[i as int]@ == stored_key_view(*key));
            return true;
        }
        i = i + 1;
    }
    false
}

/// What a cached record is: the record found and whether it was rejected.
pub struct CachedView {
    pub record: RecordView,
    pub rejected: bool,
}

/// A search hit together with the decision on whether it is a real match.
pub struct CachedRecord {
    pub record: Record,
    pub rejected: bool,
}

impl View for CachedRecord {
    type V = CachedView;

    open spec fn view(&self) -> CachedView {
        CachedView { record: self.record@, rejected: self.rejected }
    }
}

impl Clone for CachedRecord {
    fn clone(&self) -> (r: Self)
        ensures
            r@ == self@,
    {
        CachedRecord { record: self.record.clone(), rejected: self.rejected }
    }
}

/// What the cache holds for a key once a search for it found `found`.
pub open spec fn entry_for(key: (Seq<char>, Seq<char>), found: Option<RecordView>) -> Option<
    CachedView,
> {
    match found {
        None => None,
        Some(r) => Some(CachedView { record: r, rejected: !accepts(key, r) }),
    }
}

impl CachedRecord {
    /// Records a search hit for `track`, rejected unless it plausibly is
    /// the track searched for.
    pub fn new(record: Record, track: &Track) -> (r: Self)
        ensures
            r@ == (CachedView { record: record@, rejected: !accepts(track@, record@) }),
    {
        // It's possible we got a search hit, but it's not a real match, and
        // we should filter it out.
        let rejected = !score(track, &record);
        CachedRecord { record, rejected }
    }
}

pub open spec fn entry_view(e: Option<CachedRecord>) -> Option<CachedView> {
    match e {
        None => None,
        Some(c) => Some(c@),
    }
}

pub open spec fn found_view(found: Option<Record>) -> Option<RecordView> {
    match found {
        None => None,
        Some(r) => Some(r@),
    }
}

spec fn from_stored(e: Option<(Seq<char>, Seq<char>, Seq<Seq<char>>, bool)>) -> Option<
    CachedView,
> {
    match e {
        None => None,
        Some(t) => Some(
            CachedView { record: RecordView { id: t.0, title: t.1, artists: t.2 }, rejected: t.3 },
        ),
    }
}

fn to_stored(e: Option<CachedRecord>) -> (r: Option<(String, String, Vec<String>, bool)>)
    ensures
        from_stored(stored_entry_view(r)) == entry_view(e),
{
    match e {
        None => None,
        Some(c) => Some((c.record.id, c.record.title, c.record.artists, c.rejected)),
    }
}

fn of_stored(e: Option<(String, String, Vec<String>, bool)>) -> (r: Option<CachedRecord>)
    ensures
        entry_view(r) == from_stored(stored_entry_view(e)),
{
    match e {
        None => None,
        Some(t) => Some(
            CachedRecord { record: Record { id: t.0, title: t.1, artists: t.2 }, rejected: t.3 },
        ),
    }
}

fn key_of(track: &Track) -> (r: (String, String))
    ensures
        stored_key_view(r) == track@,
{
    (track.artist.clone(), track.title.clone())
}

/// A serialised entry: the track and what the cache held for it.
pub open spec fn pair_view(p: (Track, Option<CachedRecord>)) -> ((Seq<char>, Seq<char>), Option<
    CachedView,
>) {
    (p.0@, entry_view(p.1))
}

pub open spec fn pairs_view(pairs: Seq<(Track, Option<CachedRecord>)>) -> Seq<
    ((Seq<char>, Seq<char>), Option<CachedView>),
> {
    pairs.map_values(|p: (Track, Option<CachedRecord>)| pair_view(p))
}

/// The map that inserting `pairs` in order into an empty map gives: where a
/// key occurs twice, its last value.
pub open spec fn pairs_to_map<K, V>(pairs: Seq<(K, V)>) -> Map<K, V>
    decreases pairs.len(),
{
    if pairs.len() == 0 {
        Map::empty()
    } else {
        pairs_to_map(pairs.drop_last()).insert(pairs.last().0, pairs.last().1)
    }
}

/// Reading back a listing of a map gives that map: whatever order the
/// entries of a cache are serialised in, deserialising them restores the
/// cache.
pub proof fn law_listing_restores<K, V>(pairs: Seq<(K, V)>, m: Map<K, V>)
    requires
        is_listing(pairs, m),
    ensures
        pairs_to_map(pairs) == m,
    decreases pairs.len(),
{
    if pairs.len() == 0 {
        assert(m.dom() =~= Set::<K>::empty());
        assert(m =~= Map::<K, V>::empty());
    } else {
        let n = pairs.len() - 1;
        let k = pairs[n].0;
        let rest = pairs.drop_last();
        let m2 = m.remove(k);
        assert forall|i: int| 0 <= i < rest.len() implies m2.contains_key((#[trigger] rest[i]).0)
            && m2[rest[i].0] == rest[i].1 by {
            assert(pairs[i] == rest[i]);
            assert(pairs[i].0 != pairs[n].0);
        }
        assert forall|k2: K| #[trigger] m2.contains_key(k2) implies exists|i: int|
            0 <= i < rest.len() && rest[i].0 == k2 by {
            let i = choose|i: int| 0 <= i < pairs.len() && pairs[i].0 == k2;
            assert(i != n);
            assert(rest[i] == pairs[i]);
        }
        assert forall|i: int, j: int| 0 <= i < j < rest.len() implies (#[trigger] rest[i]).0
            != (#[trigger] rest[j]).0 by {
            assert(pairs[i] == rest[i] && pairs[j] == rest[j]);
        }
        law_listing_restores(rest, m2);
        assert(m2.insert(k, pairs[n].1) =~= m);
    }
}

fn pair_of_stored(p: &((String, String), Option<(String, String, Vec<String>, bool)>)) -> (r: (
    Track,
    Option<CachedRecord>,
))
    ensures
        pair_view(r) == (stored_key_view(p.0), from_stored(stored_entry_view(p.1))),
{
    let track = Track::new(p.0.0.clone(), p.0.1.clone());
    let entry = match &p.1 {
        None => None,
        Some(t) => {
            let artists = t.2.clone();
            assert(artists.deep_view() =~= t.2.deep_view());
            Some(
                CachedRecord {
                    record: Record { id: t.0.clone(), title: t.1.clone(), artists },
                    rejected: t.3,
                },
            )
        },
    };
    (track, entry)
}

fn clone_entry(e: &Option<CachedRecord>) -> (r: Option<CachedRecord>)
    ensures
        entry_view(r) == entry_view(*e),
{
    match e {
        None => None,
        Some(c) => Some(c.clone()),
    }
}

/// The cache: for each track searched for, what the search found.
pub struct Cache {
    map: DashMap<(String, String), Option<(String, String, Vec<String>, bool)>>,
}

impl View for Cache {
    type V = Map<(Seq<char>, Seq<char>), Option<CachedView>>;

    closed spec fn view(&self) -> Map<(Seq<char>, Seq<char>), Option<CachedView>> {
        store_contents(self.map).map_values(
            |e: Option<(Seq<char>, Seq<char>, Seq<Seq<char>>, bool)>| from_stored(e),
        )
    }
}

impl Default for Cache {
    fn default() -> (r: Self)
        ensures
            r@ == Map::<(Seq<char>, Seq<char>), Option<CachedView>>::empty(),
    {
        Cache::new()
    }
}

impl Cache {
    /// An empty cache.
    pub fn new() -> (r: Self)
        ensures
            r@ == Map::<(Seq<char>, Seq<char>), Option<CachedView>>::empty(),
    {
        let c = Cache { map: store_new() };
        assert(c@ =~= Map::<(Seq<char>, Seq<char>), Option<CachedView>>::empty());
        c
    }

    /// What the cache holds for `track`: `None` if it was never searched for.
    pub fn lookup(&self, track: &Track) -> (r: Option<Option<CachedRecord>>)
        ensures
            r.is_some() == self@.contains_key(track@),
            r matches Some(e) ==> entry_view(e) == self@[track@],
    {
        let key = key_of(track);
        match store_get(&self.map, &key) {
            None => None,
            Some(e) => Some(of_stored(e)),
        }
    }

    /// Stores `entry` for `track`, replacing what was there.
    pub fn insert(&mut self, track: &Track, entry: Option<CachedRecord>)
        ensures
            final(self)@ == old(self)@.insert(track@, entry_view(entry)),
    {
        let key = key_of(track);
        let ghost e = entry_view(entry);
        store_insert(&mut self.map, key, to_stored(entry));
        assert(self@ =~= old(self)@.insert(track@, e));
    }

    /// The number of tracks in the cache.
    pub fn len(&self) -> (r: usize)
        ensures
            r == self@.len(),
    {
        assert(self@.dom() =~= store_contents(self.map).dom());
        store_len(&self.map)
    }

    /// Drops every entry whose track is not one of `tracks`.
    pub fn trim(&mut self, tracks: &Vec<Track>)
        ensures
            final(self)@ == old(self)@.restrict(track_keys(tracks@)),
    {
        store_retain(&mut self.map, tracks);
        assert(self@ =~= old(self)@.restrict(track_keys(tracks@)));
    }

    /// The entries of the cache as a list of pairs, each track once, in no
    /// particular order.
    pub fn serialize(&self) -> (r: Vec<(Track, Option<CachedRecord>)>)
        ensures
            is_listing(pairs_view(r@), self@),
    {
        let entries = store_entries(&self.map);
        let ghost stored = entries@.map_values(
            |p: ((String, String), Option<(String, String, Vec<String>, bool)>)|
                (stored_key_view(p.0), stored_entry_view(p.1)),
        );
        let mut out: Vec<(Track, Option<CachedRecord>)> = Vec::new();
        let mut i: usize = 0;
        while i < entries.len()
            invariant
                i <= entries@.len(),
                out@.len() == i,
                stored == entries@.map_values(
                    |p: ((String, String), Option<(String, String, Vec<String>, bool)>)|
                        (stored_key_view(p.0), stored_entry_view(p.1)),
                ),
                forall|j: int|
                    0 <= j < i ==> pair_view(#[trigger] out@[j]) == (
                        stored[j].0,
                        from_stored(stored[j].1),
                    ),
            decreases entries@.len() - i,
        {
            out.push(pair_of_stored(&entries[i]));
            i = i + 1;
        }
        let ghost listed = pairs_view(out@);
        let ghost store = store_contents(self.map);
        assert(is_listing(stored, store));
        assert forall|j: int| 0 <= j < listed.len() implies self@.contains_key(
            (#[trigger] listed[j]).0,
        ) && self@[listed[j].0] == listed[j].1 by {
            assert(listed[j] == pair_view(out@[j]));
            assert(store.contains_key(stored[j].0) && store[stored[j].0] == stored[j].1);
        }
        assert forall|k: (Seq<char>, Seq<char>)| #[trigger] self@.contains_key(k) implies exists|
            j: int,
        | 0 <= j < listed.len() && listed[j].0 == k by {
            assert(store.contains_key(k));
            let j = choose|j: int| 0 <= j < stored.len() && stored[j].0 == k;
            assert(listed[j] == pair_view(out@[j]));
        }
        assert forall|a: int, b: int| 0 <= a < b < listed.len() implies (#[trigger] listed[a]).0
            != (#[trigger] listed[b]).0 by {
            assert(listed[a] == pair_view(out@[a]));
            assert(listed[b] == pair_view(out@[b]));
            assert(stored[a].0 != stored[b].0);
        }
        out
    }

    /// The cache that inserting `pairs` in order into an empty cache gives.
    pub fn deserialize(pairs: &Vec<(Track, Option<CachedRecord>)>) -> (r: Cache)
        ensures
            r@ == pairs_to_map(pairs_view(pairs@)),
    {
        let mut cache = Cache::new();
        let mut i: usize = 0;
        while i < pairs.len()
            invariant
                i <= pairs@.len(),
                cache@ == pairs_to_map(pairs_view(pairs@).take(i as int)),
            decreases pairs@.len() - i,
        {
            let ghost before = pairs_view(pairs@).take(i as int);
            cache.insert(&pairs[i].0, clone_entry(&pairs[i].1));
            assert(pairs_view(pairs@).take(i + 1).drop_last() =~= before);
            i = i + 1;
        }
        assert(pairs_view(pairs@).take(pairs@.len() as int) =~= pairs_view(pairs@));
        cache
    }
}

} // verus!
