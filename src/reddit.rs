//! Turning the titles of subreddit posts into tracks.
use vstd::prelude::*;
use vstd::string::*;
use regex::Regex;
use crate::Secret;
use crate::track::Track;

verus! {

#[verifier::external_type_specification]
#[verifier::external_body]
pub struct ExRegex(Regex);

/// Credentials of the application at the forum's API.
pub struct Settings {
    pub client_id: String,
    pub client_secret: Secret<String>,
}

/// A post, by its title.
pub struct Post {
    pub title: String,
}

impl Post {
    pub fn new(title: String) -> (r: Post)
        ensures
            r.title@ == title@,
    {
        Post { title }
    }
}

/// The address of the listing of a subreddit's newest hundred posts.
pub fn url(subreddit: &str) -> (r: String)
    ensures
        r@ == "https://oauth.reddit.com/"@ + subreddit@ + "?limit=100"@,
{
    let mut u = String::from_str("https://oauth.reddit.com/");
    u.append(subreddit);
    u.append("?limit=100");
    u
}

/// What `htmlescape::decode_html` makes of a text: `None` where the text
/// holds a malformed entity.
pub uninterp spec fn html_decoded_of(s: Seq<char>) -> Option<Seq<char>>;

pub open spec fn opt_string_view(o: Option<String>) -> Option<Seq<char>> {
    match o {
        None => None,
        Some(s) => Some(s@),
    }
}

/// Relies on `htmlescape::decode_html`: entities replaced by the characters
/// they stand for, or an error on a malformed entity.
#[verifier::external_body]
fn decode_html(s: &str) -> (r: Option<String>)
    ensures
        opt_string_view(r) == html_decoded_of(s@),
{
    htmlescape::decode_html(s).ok()
}

/// The title that a post shows: the decoded text, or the raw text where it
/// could not be decoded.
pub fn shown_title(decoded: Option<String>, raw: String) -> (r: String)
    ensures
        r@ == match opt_string_view(decoded) {
            Some(d) => d,
            None => raw@,
        },
{
    match decoded {
        Some(d) => d,
        None => raw,
    }
}

/// The posts for the raw titles of a listing, in order, with their HTML
/// entities decoded.
pub fn posts_from_titles(titles: Vec<String>) -> (r: Vec<Post>)
    ensures
        r@.len() == titles@.len(),
        forall|i: int|
            0 <= i < r@.len() ==> (#[trigger] r@[i]).title@ == match html_decoded_of(
                titles@[i]@,
            ) {
                Some(d) => d,
                None => titles@[i]@,
            },
{
    let mut posts: Vec<Post> = Vec::new();
    let mut i: usize = 0;
    while i < titles.len()
        invariant
            i <= titles@.len(),
            posts@.len() == i,
            forall|j: int|
                0 <= j < i ==> (#[trigger] posts@[j]).title@ == match html_decoded_of(
                    titles@[j]@,
                ) {
                    Some(d) => d,
                    None => titles@[j]@,
                },
        decreases titles@.len() - i,
    {
        let raw = titles[i].clone();
        let decoded = decode_html(raw.as_str());
        posts.push(Post::new(shown_title(decoded, raw)));
        i = i + 1;
    }
    posts
}

/// Whether `part` occurs in `text` as a contiguous piece.
pub open spec fn is_infix_of(part: Seq<char>, text: Seq<char>) -> bool {
    exists|i: int| 0 <= i <= text.len() - part.len() && #[trigger] text.subrange(i, i + part.len()) == part
}

/// Relies on `regex::Regex::captures`: where the pattern matches, the text of
/// its first two groups, each a piece of the haystack.
#[verifier::external_body]
fn capture_pair(re: &Regex, text: &str) -> (r: Option<(String, String)>)
    ensures
        r matches Some(p) ==> is_infix_of(p.0@, text@) && is_infix_of(p.1@, text@),
{
    let caps = re.captures(text)?;
    Some((caps.get(1)?.as_str().to_string(), caps.get(2)?.as_str().to_string()))
}

/// The track that a pattern's two groups name: the first is the artist,
/// the second the title.
pub fn track_from_capture(capture: Option<(String, String)>) -> (r: Option<Track>)
    ensures
        r.is_some() == capture.is_some(),
        r matches Some(t) ==> t@ == (capture.unwrap().0@, capture.unwrap().1@),
{
    match capture {
        Some((artist, title)) => Some(Track::new(artist, title)),
        None => None,
    }
}

/// Whether the artist and the title of `track` are both pieces of the
/// title of one of `posts`.
pub open spec fn named_in(track: (Seq<char>, Seq<char>), posts: Seq<Post>) -> bool {
    exists|j: int|
        0 <= j < posts.len() && #[trigger] is_infix_of(track.0, posts[j].title@) && is_infix_of(
            track.1,
            posts[j].title@,
        )
}

/// The tracks named by the titles of `posts`, read through `regex`, in the
/// order of the posts; a title that the pattern does not match names none.
pub fn tracks_from_posts(posts: &Vec<Post>, regex: &Regex) -> (r: Vec<Track>)
    ensures
        r@.len() <= posts@.len(),
        forall|i: int| 0 <= i < r@.len() ==> named_in((#[trigger] r@[i])@, posts@),
{
    let mut tracks: Vec<Track> = Vec::new();
    let mut i: usize = 0;
    while i < posts.len()
        invariant
            i <= posts@.len(),
            tracks@.len() <= i,
            forall|k: int| 0 <= k < tracks@.len() ==> named_in((#[trigger] tracks@[k])@, posts@),
        decreases posts@.len() - i,
    {
        let capture = capture_pair(regex, posts[i].title.as_str());
        if let Some(track) = track_from_capture(capture) {
            assert(is_infix_of(track@.0, posts@[i as int].title@));
            assert(is_infix_of(track@.1, posts@[i as int].title@));
            tracks.push(track);
            assert(named_in(tracks@[tracks@.len() - 1]@, posts@));
        }
        i = i + 1;
    }
    tracks
}

} // verus!
