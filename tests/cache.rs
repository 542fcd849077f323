use std::cell::Cell;

use playlister::cache::{Cache, CachedRecord};
use playlister::resolve::{summarize, CacheResult};
use playlister::track::Track;
use playlister::Record;

type Plain = ((String, String), Option<(String, String, Vec<String>, bool)>);

fn to_plain(pairs: Vec<(Track, Option<CachedRecord>)>) -> Vec<Plain> {
    pairs
        .into_iter()
        .map(|(t, e)| {
            let e = e.map(|c| (c.record.id, c.record.title, c.record.artists, c.rejected));
            ((t.artist, t.title), e)
        })
        .collect()
}

fn from_plain(pairs: Vec<Plain>) -> Vec<(Track, Option<CachedRecord>)> {
    pairs
        .into_iter()
        .map(|((artist, title), e)| {
            let e = e.map(|(id, title, artists, rejected)| CachedRecord {
                record: Record::new(id, title, artists),
                rejected,
            });
            (Track::new(artist, title), e)
        })
        .collect()
}

fn record(id: &str, title: &str, artists: &[&str]) -> Record {
    Record::new(id.into(), title.into(), artists.iter().map(|a| a.to_string()).collect())
}

#[test]
fn test_cache() {
    let found = Track::new("foo".into(), "fife".into());
    let not_found = Track::new("bar".into(), "bibe".into());
    let new_track = Track::new("car".into(), "cice".into());

    let searches = Cell::new(0u32);

    let search = |track: &Track| -> Result<Option<Record>, String> {
        searches.set(searches.get() + 1);
        if track.artist == "foo" {
            Ok(Some(Record::new("aaa".into(), "N/A".into(), Vec::new())))
        } else {
            Ok(None)
        }
    };

    let mut cache = Cache::default();
    cache.with_cache(&found, search).record.unwrap();
    cache.with_cache(&not_found, search).record.unwrap();
    assert_eq!(2, searches.get());

    let str = serde_json::to_string(&to_plain(cache.serialize())).unwrap();
    let plain: Vec<Plain> = serde_json::from_str(&str).unwrap();
    let mut cache = Cache::deserialize(&from_plain(plain));

    cache.with_cache(&found, search).record.unwrap();
    assert_eq!(2, searches.get());
    cache.with_cache(&not_found, search).record.unwrap();
    assert_eq!(2, searches.get());

    cache.with_cache(&new_track, search).record.unwrap();
    assert_eq!(3, searches.get());
}

#[test]
fn resolving_twice_searches_once_and_sees_the_same_entry() {
    let track = Track::new("Daft Punk".into(), "One More Time".into());
    let searches = Cell::new(0u32);
    let search = |_: &Track| -> Result<Option<Record>, String> {
        searches.set(searches.get() + 1);
        Ok(Some(record("id1", "One More Time", &["Daft Punk"])))
    };
    let mut cache = Cache::new();
    let first = cache.with_cache(&track, search);
    let second = cache.with_cache(&track, search);
    assert_eq!(searches.get(), 1);
    assert!(!first.cache_hit);
    assert!(second.cache_hit);
    let a = first.record.unwrap().unwrap();
    let b = second.record.unwrap().unwrap();
    assert_eq!(a.record.id, b.record.id);
    assert_eq!(a.rejected, b.rejected);
    assert!(!a.rejected);
}

#[test]
fn failed_search_is_not_cached() {
    let track = Track::new("a".into(), "b".into());
    let mut cache = Cache::new();
    let r = cache.with_cache(&track, |_: &Track| -> Result<Option<Record>, String> {
        Err("offline".into())
    });
    assert_eq!(r.record.err(), Some("offline".to_string()));
    assert!(!r.cache_hit);
    assert!(cache.lookup(&track).is_none());
    assert_eq!(cache.len(), 0);
}

#[test]
fn empty_search_is_cached_as_none() {
    let track = Track::new("a".into(), "b".into());
    let mut cache = Cache::new();
    let r = cache.settle::<String>(&track, Ok(None));
    assert!(matches!(r.record, Ok(None)));
    assert!(matches!(cache.lookup(&track), Some(None)));
    let hit = cache.cached::<String>(&track).unwrap();
    assert!(hit.cache_hit);
    assert!(matches!(hit.record, Ok(None)));
}

#[test]
fn rejected_hit_is_cached_but_not_output() {
    let track = Track::new("Adele".into(), "Hello".into());
    let mut cache = Cache::new();
    let r = cache.settle::<String>(&track, Ok(Some(record("x", "Goodbye", &["Someone Else"]))));
    let entry = r.record.as_ref().unwrap().as_ref().unwrap();
    assert!(entry.rejected);
    assert!(matches!(cache.lookup(&track), Some(Some(c)) if c.rejected));
    let summary = summarize(&vec![r]);
    assert!(summary.records.is_empty());
    assert_eq!(summary.rejected, 1);
}

#[test]
fn lookup_distinguishes_unseen_from_not_found() {
    let mut cache = Cache::new();
    let seen = Track::new("x".into(), "y".into());
    let unseen = Track::new("x".into(), "z".into());
    cache.insert(&seen, None);
    assert!(matches!(cache.lookup(&seen), Some(None)));
    assert!(cache.lookup(&unseen).is_none());
}

#[test]
fn keys_are_case_sensitive() {
    let mut cache = Cache::new();
    cache.insert(&Track::new("Abba".into(), "SOS".into()), None);
    assert!(cache.lookup(&Track::new("abba".into(), "SOS".into())).is_none());
    assert!(cache.lookup(&Track::new("Abba".into(), "SOS".into())).is_some());
}

#[test]
fn insert_overwrites() {
    let mut cache = Cache::new();
    let t = Track::new("x".into(), "y".into());
    cache.insert(&t, None);
    cache.insert(&t, Some(CachedRecord { record: record("1", "y", &["x"]), rejected: false }));
    assert_eq!(cache.len(), 1);
    assert_eq!(cache.lookup(&t).unwrap().unwrap().record.id, "1");
}

#[test]
fn trim_drops_tracks_not_retained() {
    let k1 = Track::new("a".into(), "1".into());
    let k2 = Track::new("b".into(), "2".into());
    let k3 = Track::new("c".into(), "3".into());
    let mut cache = Cache::new();
    cache.insert(&k1, Some(CachedRecord { record: record("r1", "1", &["a"]), rejected: false }));
    cache.insert(&k2, None);
    cache.insert(&k3, Some(CachedRecord { record: record("r3", "3", &["c"]), rejected: true }));
    cache.trim(&vec![k1.clone(), k3.clone()]);
    assert!(cache.lookup(&k2).is_none());
    let e1 = cache.lookup(&k1).unwrap().unwrap();
    assert_eq!(e1.record.id, "r1");
    assert!(!e1.rejected);
    let e3 = cache.lookup(&k3).unwrap().unwrap();
    assert_eq!(e3.record.id, "r3");
    assert!(e3.rejected);
    assert_eq!(cache.len(), 2);
}

#[test]
fn trim_to_nothing_empties() {
    let mut cache = Cache::new();
    cache.insert(&Track::new("a".into(), "b".into()), None);
    cache.trim(&Vec::new());
    assert_eq!(cache.len(), 0);
}

#[test]
fn round_trip_keeps_every_entry() {
    let mut cache = Cache::new();
    let mut tracks = Vec::new();
    for i in 0..50 {
        let t = Track::new(format!("artist {i}"), format!("title {i}"));
        let entry = if i % 3 == 0 {
            None
        } else {
            Some(CachedRecord { record: record(&format!("id{i}"), "t", &["a", "b"]), rejected: i % 2 == 0 })
        };
        cache.insert(&t, entry);
        tracks.push(t);
    }
    let pairs = cache.serialize();
    assert_eq!(pairs.len(), 50);
    let back = Cache::deserialize(&pairs);
    assert_eq!(back.len(), 50);
    for (i, t) in tracks.iter().enumerate() {
        let a = cache.lookup(t).unwrap();
        let b = back.lookup(t).unwrap();
        match (a, b) {
            (None, None) => assert_eq!(i % 3, 0),
            (Some(x), Some(y)) => {
                assert_eq!(x.record.id, y.record.id);
                assert_eq!(x.record.artists, y.record.artists);
                assert_eq!(x.rejected, y.rejected);
            }
            _ => panic!("entry changed"),
        }
    }
}

#[test]
fn deserialize_keeps_last_of_equal_keys() {
    let t = Track::new("a".into(), "b".into());
    let pairs = vec![
        (t.clone(), None),
        (t.clone(), Some(CachedRecord { record: record("2", "b", &["a"]), rejected: false })),
    ];
    let cache = Cache::deserialize(&pairs);
    assert_eq!(cache.len(), 1);
    assert_eq!(cache.lookup(&t).unwrap().unwrap().record.id, "2");
}

#[test]
fn thousand_distinct_inserts_give_thousand_entries() {
    let mut cache = Cache::new();
    for i in 0..1000 {
        let t = Track::new(format!("artist{i}"), format!("title{i}"));
        cache.insert(&t, Some(CachedRecord { record: record(&format!("{i}"), "x", &[]), rejected: false }));
    }
    assert_eq!(cache.len(), 1000);
    for i in 0..1000 {
        let t = Track::new(format!("artist{i}"), format!("title{i}"));
        assert_eq!(cache.lookup(&t).unwrap().unwrap().record.id, format!("{i}"));
    }
}

fn accepted(id: &str) -> CacheResult<String> {
    CacheResult {
        record: Ok(Some(CachedRecord { record: record(id, "t", &["a"]), rejected: false })),
        cache_hit: false,
    }
}

#[test]
fn output_keeps_the_order_of_the_tracks() {
    let results = vec![
        accepted("k1"),
        CacheResult { record: Ok(None), cache_hit: false },
        accepted("k3"),
    ];
    let summary = summarize(&results);
    let ids: Vec<&str> = summary.records.iter().map(|r| r.id.as_str()).collect();
    assert_eq!(ids, vec!["k1", "k3"]);
    assert_eq!(summary.cache_hits, 0);
    assert_eq!(summary.rejected, 0);
    assert_eq!(summary.failed, 0);
}

#[test]
fn failed_search_drops_out_of_the_batch_only() {
    let k1 = Track::new("Daft Punk".into(), "One More Time".into());
    let k2 = Track::new("Nobody".into(), "Nothing".into());
    let k3 = Track::new("Adele".into(), "Hello".into());
    let search = |t: &Track| -> Result<Option<Record>, String> {
        if t.artist == "Nobody" {
            Err("timeout".into())
        } else {
            Ok(Some(record(&t.artist, &t.title, &[t.artist.as_str()])))
        }
    };
    let mut cache = Cache::new();
    let results: Vec<CacheResult<String>> =
        [&k1, &k2, &k3].iter().map(|t| cache.with_cache(t, search)).collect();
    let summary = summarize(&results);
    let ids: Vec<&str> = summary.records.iter().map(|r| r.id.as_str()).collect();
    assert_eq!(ids, vec!["Daft Punk", "Adele"]);
    assert_eq!(summary.failed, 1);
    assert!(cache.lookup(&k2).is_none());
    assert!(cache.lookup(&k1).is_some());
    assert!(cache.lookup(&k3).is_some());
}

#[test]
fn summary_counts_hits() {
    let results = vec![
        CacheResult { record: Ok(None), cache_hit: true },
        CacheResult::<String> {
            record: Ok(Some(CachedRecord { record: record("r", "t", &["a"]), rejected: false })),
            cache_hit: true,
        },
        CacheResult { record: Err("e".to_string()), cache_hit: false },
    ];
    let summary = summarize(&results);
    assert_eq!(summary.cache_hits, 2);
    assert_eq!(summary.failed, 1);
    assert_eq!(summary.records.len(), 1);
}

#[test]
fn summary_of_nothing_is_empty() {
    let summary = summarize::<String>(&Vec::new());
    assert!(summary.records.is_empty());
    assert_eq!(summary.cache_hits + summary.rejected + summary.failed, 0);
}
