use playlister::track::Track;
use playlister::{record_ids, Record, Secret};

#[test]
fn spotify_query() {
    let t = Track::new("Daft Punk".into(), "One More Time".into());
    assert_eq!(t.as_spotify_query(), "track:One More Time artist:Daft Punk");
}

#[test]
fn tidal_query() {
    let t = Track::new("Daft Punk".into(), "One More Time".into());
    assert_eq!(t.as_tidal_query(), "Daft Punk One More Time");
}

#[test]
fn shown_form() {
    let t = Track::new("Daft Punk".into(), "One More Time".into());
    assert_eq!(t.to_string(), "'Daft Punk' - 'One More Time'");
}

#[test]
fn empty_track_queries() {
    let t = Track::new(String::new(), String::new());
    assert_eq!(t.as_spotify_query(), "track: artist:");
    assert_eq!(t.as_tidal_query(), " ");
}

#[test]
fn secret_gives_back_its_value() {
    let s = Secret::new("SECRET-REDACTED".to_string());
    assert_eq!(s.expose_secret(), "SECRET-REDACTED");
}

#[test]
fn ids_in_order() {
    let records = vec![
        Record::new("b".into(), "t".into(), vec![]),
        Record::new("a".into(), "t".into(), vec![]),
    ];
    assert_eq!(record_ids(&records), vec!["b".to_string(), "a".to_string()]);
}
