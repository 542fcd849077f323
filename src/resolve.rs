//! Resolving tracks through the cache: a track already in the cache is a
//! hit and is not searched for again; otherwise the outcome of its search is
//! validated and stored, unless the search failed.
use vstd::prelude::*;
use crate::cache::{Cache, CachedRecord, CachedView, entry_for, entry_view, found_view, pairs_to_map};
use crate::track::Track;
use crate::{Record, RecordView};

verus! {

/// What resolving a track came to: the entry observed (or the search's
/// error) and whether it came from the cache.
pub struct Resolution<E> {
    pub entry: Result<Option<CachedView>, E>,
    pub cache_hit: bool,
}

/// The result of resolving one track.
pub struct CacheResult<E> {
    pub record: Result<Option<CachedRecord>, E>,
    pub cache_hit: bool,
}

impl<E> View for CacheResult<E> {
    type V = Resolution<E>;

    open spec fn view(&self) -> Resolution<E> {
        Resolution {
            entry: match self.record {
                Ok(e) => Ok(entry_view(e)),
                Err(x) => Err(x),
            },
            cache_hit: self.cache_hit,
        }
    }
}

pub open spec fn outcome_view<E>(o: Result<Option<Record>, E>) -> Result<Option<RecordView>, E> {
    match o {
        Ok(found) => Ok(found_view(found)),
        Err(x) => Err(x),
    }
}

/// Recording the outcome of a search for `key`: a failed search leaves the
/// store as it was; otherwise what was found, validated, is stored.
pub open spec fn settle_outcome<E>(
    store: Map<(Seq<char>, Seq<char>), Option<CachedView>>,
    key: (Seq<char>, Seq<char>),
    outcome: Result<Option<RecordView>, E>,
) -> (Map<(Seq<char>, Seq<char>), Option<CachedView>>, Resolution<E>) {
    match outcome {
        Err(e) => (store, Resolution { entry: Err(e), cache_hit: false }),
        Ok(found) => (
            store.insert(key, entry_for(key, found)),
            Resolution { entry: Ok(entry_for(key, found)), cache_hit: false },
        ),
    }
}

/// Resolving `key` against `store`, where `outcome` is what a search for it
/// would return: a key in the store is a hit and no search is made.
pub open spec fn resolve<E>(
    store: Map<(Seq<char>, Seq<char>), Option<CachedView>>,
    key: (Seq<char>, Seq<char>),
    outcome: Result<Option<RecordView>, E>,
) -> (Map<(Seq<char>, Seq<char>), Option<CachedView>>, Resolution<E>) {
    if store.contains_key(key) {
        (store, Resolution { entry: Ok(store[key]), cache_hit: true })
    } else {
        settle_outcome(store, key, outcome)
    }
}

impl Cache {
    /// The result of resolving `track` if the cache holds it.
    pub fn cached<E>(&self, track: &Track) -> (r: Option<CacheResult<E>>)
        ensures
            r.is_some() == self@.contains_key(track@),
            r matches Some(c) ==> c@ == (Resolution::<E> {
                entry: Ok(self@[track@]),
                cache_hit: true,
            }),
    {
        match self.lookup(track) {
            // Cache hit; we've searched for this track before, even if we
            // didn't find it.
            Some(entry) => Some(CacheResult { record: Ok(entry), cache_hit: true }),
            None => None,
        }
    }

    /// Records what a search for `track` returned.
    pub fn settle<E>(&mut self, track: &Track, outcome: Result<Option<Record>, E>) -> (r:
        CacheResult<E>)
        ensures
            (final(self)@, r@) == settle_outcome(old(self)@, track@, outcome_view(outcome)),
    {
        match outcome {
            Err(error) => CacheResult { record: Err(error), cache_hit: false },
            Ok(found) => {
                let entry = match found {
                    Some(record) => Some(CachedRecord::new(record, track)),
                    None => None,
                };
                let stored = match &entry {
                    Some(c) => Some(c.clone()),
                    None => None,
                };
                self.insert(track, stored);
                CacheResult { record: Ok(entry), cache_hit: false }
            },
        }
    }

    /// Resolves `track`: from the cache if it holds the track, else by
    /// calling `search` once and recording the outcome.
    pub fn with_cache<E, F: FnOnce(&Track) -> Result<Option<Record>, E>>(
        &mut self,
        track: &Track,
        search: F,
    ) -> (r: CacheResult<E>)
        requires
            search.requires((track,)),
        ensures
            old(self)@.contains_key(track@) ==> final(self)@ == old(self)@ && r@ == (Resolution::<
                E,
            > { entry: Ok(old(self)@[track@]), cache_hit: true }),
            !old(self)@.contains_key(track@) ==> exists|o: Result<Option<Record>, E>|
                search.ensures((track,), o) && (final(self)@, r@) == resolve::<E>(
                    old(self)@,
                    track@,
                    outcome_view(o),
                ),
    {
        match self.cached(track) {
            Some(hit) => hit,
            None => {
                let outcome = search(track);
                self.settle(track, outcome)
            },
        }
    }
}

/// The record that a resolution contributes to the output: the record of an
/// accepted hit, and nothing for a failed search, an empty search or a
/// rejected hit.
pub open spec fn accepted_of<E>(r: Resolution<E>) -> Option<RecordView> {
    match r.entry {
        Ok(Some(c)) => if c.rejected {
            None
        } else {
            Some(c.record)
        },
        _ => None,
    }
}

/// The accepted records of `rs`, in the order of `rs`.
pub open spec fn accepted_records<E>(rs: Seq<Resolution<E>>) -> Seq<RecordView>
    decreases rs.len(),
{
    if rs.len() == 0 {
        Seq::empty()
    } else {
        accepted_records(rs.drop_last()) + match accepted_of(rs.last()) {
            Some(v) => seq![v],
            None => Seq::empty(),
        }
    }
}

/// How many of `rs` satisfy `p`.
pub open spec fn count_of<E>(rs: Seq<Resolution<E>>, p: spec_fn(Resolution<E>) -> bool) -> nat
    decreases rs.len(),
{
    if rs.len() == 0 {
        0
    } else {
        count_of(rs.drop_last(), p) + if p(rs.last()) {
            1nat
        } else {
            0nat
        }
    }
}

pub open spec fn is_hit<E>(r: Resolution<E>) -> bool {
    r.cache_hit
}

pub open spec fn is_rejected<E>(r: Resolution<E>) -> bool {
    r.entry matches Ok(Some(c)) && c.rejected
}

pub open spec fn is_failed<E>(r: Resolution<E>) -> bool {
    r.entry is Err
}

pub open spec fn resolutions<E>(results: Seq<CacheResult<E>>) -> Seq<Resolution<E>> {
    results.map_values(|r: CacheResult<E>| r@)
}

/// What a batch of resolutions came to.
pub struct Summary {
    /// The accepted records, in the order of the tracks they were found for.
    pub records: Vec<Record>,
    /// How many tracks were answered from the cache.
    pub cache_hits: usize,
    /// How many hits were rejected as implausible.
    pub rejected: usize,
    /// How many searches failed.
    pub failed: usize,
}

proof fn lemma_count_bounded<E>(rs: Seq<Resolution<E>>, p: spec_fn(Resolution<E>) -> bool)
    ensures
        count_of(rs, p) <= rs.len(),
    decreases rs.len(),
{
    if rs.len() > 0 {
        lemma_count_bounded(rs.drop_last(), p);
    }
}

/// Sums up the results of resolving a batch of tracks, given in the order
/// of the tracks: the accepted records in that order, and the counts of
/// cache hits, rejected hits and failed searches.
pub fn summarize<E>(results: &Vec<CacheResult<E>>) -> (r: Summary)
    ensures
        r.records@.map_values(|x: Record| x@) == accepted_records(resolutions(results@)),
        r.cache_hits == count_of(resolutions(results@), |x: Resolution<E>| is_hit(x)),
        r.rejected == count_of(resolutions(results@), |x: Resolution<E>| is_rejected(x)),
        r.failed == count_of(resolutions(results@), |x: Resolution<E>| is_failed(x)),
{
    let ghost all = resolutions(results@);
    let ghost hit = |x: Resolution<E>| is_hit(x);
    let ghost rej = |x: Resolution<E>| is_rejected(x);
    let ghost fail = |x: Resolution<E>| is_failed(x);
    let mut records: Vec<Record> = Vec::new();
    let mut cache_hits: usize = 0;
    let mut rejected: usize = 0;
    let mut failed: usize = 0;
    let mut i: usize = 0;
    while i < results.len()
        invariant
            i <= results@.len(),
            all == resolutions(results@),
            hit == (|x: Resolution<E>| is_hit(x)),
            rej == (|x: Resolution<E>| is_rejected(x)),
            fail == (|x: Resolution<E>| is_failed(x)),
            records@.map_values(|x: Record| x@) == accepted_records(all.take(i as int)),
            cache_hits == count_of(all.take(i as int), hit),
            rejected == count_of(all.take(i as int), rej),
            failed == count_of(all.take(i as int), fail),
        decreases results@.len() - i,
    {
        let ghost prefix = all.take(i as int);
        let ghost next = all.take(i + 1);
        assert(next.drop_last() =~= prefix);
        assert(next.last() == results@[i as int]@);
        proof {
            lemma_count_bounded(prefix, hit);
            lemma_count_bounded(prefix, rej);
            lemma_count_bounded(prefix, fail);
        }
        let result = &results[i];
        if result.cache_hit {
            cache_hits = cache_hits + 1;
        }
        match &result.record {
            Err(_) => {
                failed = failed + 1;
            },
            Ok(None) => {},
            Ok(Some(c)) => {
                if c.rejected {
                    rejected = rejected + 1;
                } else {
                    let ghost before = records@.map_values(|x: Record| x@);
                    records.push(c.record.clone());
                    assert(records@.map_values(|x: Record| x@) =~= before + seq![c.record@]);
                }
            },
        }
        assert(records@.map_values(|x: Record| x@) =~= accepted_records(next));
        i = i + 1;
    }
    assert(all.take(results@.len() as int) =~= all);
    Summary { records, cache_hits, rejected, failed }
}

/// Resolving a key twice: once the first resolution has an entry, the second
/// is a cache hit, whatever a search would return, that observes the same
/// entry and leaves the store as it was.
pub proof fn law_resolve_twice<E>(
    store: Map<(Seq<char>, Seq<char>), Option<CachedView>>,
    key: (Seq<char>, Seq<char>),
    first: Result<Option<RecordView>, E>,
    second: Result<Option<RecordView>, E>,
)
    requires
        resolve(store, key, first).1.entry is Ok,
    ensures
        resolve(resolve(store, key, first).0, key, second) == (
            resolve(store, key, first).0,
            Resolution { entry: resolve(store, key, first).1.entry, cache_hit: true },
        ),
{
}

/// A record found for a later track never comes before one found for an
/// earlier track: with accepted hits for the first and third tracks and
/// nothing found for the second, the output is the first record, then the
/// third.
pub proof fn law_order_kept<E>(r1: Resolution<E>, r2: Resolution<E>, r3: Resolution<E>)
    requires
        accepted_of(r1) is Some,
        r2.entry == Ok::<Option<CachedView>, E>(None),
        accepted_of(r3) is Some,
    ensures
        accepted_records(seq![r1, r2, r3]) == seq![
            accepted_of(r1).unwrap(),
            accepted_of(r3).unwrap(),
        ],
{
    let s = seq![r1, r2, r3];
    assert(s.drop_last().drop_last().drop_last() =~= Seq::<Resolution<E>>::empty());
    assert(s.drop_last().drop_last() =~= seq![r1]);
    assert(s.drop_last() =~= seq![r1, r2]);
    reveal_with_fuel(accepted_records, 4);
    assert(accepted_records(s) =~= seq![accepted_of(r1).unwrap(), accepted_of(r3).unwrap()]);
}

/// A failed search stays out of both the store and the output: the key is
/// still absent afterwards, and the records of its neighbours are output as
/// if it had not been there.
pub proof fn law_failure_isolated<E>(
    store: Map<(Seq<char>, Seq<char>), Option<CachedView>>,
    key: (Seq<char>, Seq<char>),
    error: E,
    r1: Resolution<E>,
    r3: Resolution<E>,
)
    requires
        !store.contains_key(key),
    ensures
        resolve(store, key, Err::<Option<RecordView>, E>(error)).0 == store,
        !resolve(store, key, Err::<Option<RecordView>, E>(error)).0.contains_key(key),
        accepted_records(seq![r1, resolve(store, key, Err::<Option<RecordView>, E>(error)).1, r3])
            == accepted_records(seq![r1, r3]),
{
    let r2 = resolve(store, key, Err::<Option<RecordView>, E>(error)).1;
    let s = seq![r1, r2, r3];
    let t = seq![r1, r3];
    assert(s.drop_last().drop_last().drop_last() =~= Seq::<Resolution<E>>::empty());
    assert(s.drop_last().drop_last() =~= seq![r1]);
    assert(s.drop_last() =~= seq![r1, r2]);
    assert(t.drop_last().drop_last() =~= Seq::<Resolution<E>>::empty());
    assert(t.drop_last() =~= seq![r1]);
    reveal_with_fuel(accepted_records, 4);
    assert(accepted_records(s) =~= accepted_records(t));
}

/// Trimming to a set of keys: a key outside the set is gone afterwards, and
/// a key inside it is exactly as it was.
pub proof fn law_trim<V>(
    store: Map<(Seq<char>, Seq<char>), V>,
    keep: Set<(Seq<char>, Seq<char>)>,
    key: (Seq<char>, Seq<char>),
)
    ensures
        !keep.contains(key) ==> !store.restrict(keep).contains_key(key),
        keep.contains(key) ==> store.restrict(keep).contains_key(key) == store.contains_key(key),
        keep.contains(key) && store.contains_key(key) ==> store.restrict(keep)[key]
            == store[key],
{
}

/// Inserting entries for distinct keys, in any order, leaves exactly one
/// entry per key, each holding the value inserted for it.
pub proof fn law_distinct_inserts<K, V>(pairs: Seq<(K, V)>)
    requires
        forall|i: int, j: int|
            0 <= i < j < pairs.len() ==> (#[trigger] pairs[i]).0 != (#[trigger] pairs[j]).0,
    ensures
        pairs_to_map(pairs).dom().finite(),
        pairs_to_map(pairs).len() == pairs.len(),
        forall|i: int|
            0 <= i < pairs.len() ==> pairs_to_map(pairs).contains_key((#[trigger] pairs[i]).0)
                && pairs_to_map(pairs)[pairs[i].0] == pairs[i].1,
    decreases pairs.len(),
{
    if pairs.len() > 0 {
        let rest = pairs.drop_last();
        let n = pairs.len() - 1;
        assert forall|i: int, j: int| 0 <= i < j < rest.len() implies (#[trigger] rest[i]).0
            != (#[trigger] rest[j]).0 by {
            assert(rest[i] == pairs[i] && rest[j] == pairs[j]);
        }
        law_distinct_inserts(rest);
        let m = pairs_to_map(rest);
        if m.contains_key(pairs[n].0) {
            lemma_keys_of(rest, pairs[n].0);
            let i = choose|i: int| 0 <= i < rest.len() && rest[i].0 == pairs[n].0;
            assert(rest[i] == pairs[i]);
        }
        assert forall|i: int| 0 <= i < pairs.len() implies pairs_to_map(pairs).contains_key(
            (#[trigger] pairs[i]).0,
        ) && pairs_to_map(pairs)[pairs[i].0] == pairs[i].1 by {
            if i < n {
                assert(rest[i] == pairs[i]);
            }
        }
    }
}

proof fn lemma_keys_of<K, V>(pairs: Seq<(K, V)>, k: K)
    requires
        pairs_to_map(pairs).contains_key(k),
    ensures
        exists|i: int| 0 <= i < pairs.len() && pairs[i].0 == k,
    decreases pairs.len(),
{
    if pairs.len() > 0 {
        let n = pairs.len() - 1;
        if pairs[n].0 != k {
            lemma_keys_of(pairs.drop_last(), k);
            let i = choose|i: int| 0 <= i < pairs.drop_last().len() && pairs.drop_last()[i].0 == k;
            assert(pairs[i] == pairs.drop_last()[i]);
        }
    }
}

} // verus!
