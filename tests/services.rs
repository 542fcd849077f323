use playlister::reddit::{posts_from_titles, shown_title, track_from_capture, tracks_from_posts, url, Post};
use playlister::tidal::{batches, BATCH_SIZE};

#[test]
fn listing_url() {
    assert_eq!(url("r/listentothis"), "https://oauth.reddit.com/r/listentothis?limit=100");
}

#[test]
fn titles_are_html_decoded() {
    let posts = posts_from_titles(vec!["Simon &amp; Garfunkel -- The Boxer [folk]".into()]);
    assert_eq!(posts[0].title, "Simon & Garfunkel -- The Boxer [folk]");
}

#[test]
fn malformed_entity_keeps_raw_title() {
    let posts = posts_from_titles(vec!["A &nosuchentity; B".into()]);
    assert_eq!(posts[0].title, "A &nosuchentity; B");
}

#[test]
fn shown_title_prefers_decoded() {
    assert_eq!(shown_title(Some("x".into()), "y".into()), "x");
    assert_eq!(shown_title(None, "y".into()), "y");
}

#[test]
fn titles_become_tracks() {
    let re = regex::Regex::new(r"(.*?)\s+[-–—\s]+\s+(.*?)\s*[\(\[]").unwrap();
    let posts = vec![
        Post::new("Khruangbin -- Maria También [psychedelic] (2018)".into()),
        Post::new("no separator here".into()),
        Post::new("Men I Trust - Show Me How [dream pop]".into()),
    ];
    let tracks = tracks_from_posts(&posts, &re);
    assert_eq!(tracks.len(), 2);
    assert_eq!(tracks[0].artist, "Khruangbin");
    assert_eq!(tracks[0].title, "Maria También");
    assert_eq!(tracks[1].artist, "Men I Trust");
    assert_eq!(tracks[1].title, "Show Me How");
}

#[test]
fn capture_names_artist_then_title() {
    let t = track_from_capture(Some(("a".into(), "b".into()))).unwrap();
    assert_eq!((t.artist.as_str(), t.title.as_str()), ("a", "b"));
    assert!(track_from_capture(None).is_none());
}

#[test]
fn batches_of_twenty() {
    let items: Vec<u32> = (0..45).collect();
    let b = batches(items);
    assert_eq!(BATCH_SIZE, 20);
    assert_eq!(b.iter().map(|c| c.len()).collect::<Vec<_>>(), vec![20, 20, 5]);
    assert_eq!(b.concat(), (0..45).collect::<Vec<u32>>());
}

#[test]
fn no_items_no_batches() {
    assert!(batches(Vec::<u32>::new()).is_empty());
    assert_eq!(batches((0..20).collect::<Vec<u32>>()).len(), 1);
}
