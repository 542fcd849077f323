//! Decides whether a search hit plausibly is the track that was searched for.
//!
//! Text is compared after canonicalisation (lower case; a title ends before
//! its first parenthesis), by the Damerau-Levenshtein similarity
//! `1 - distance / max(len_a, len_b)`, which is `1` for two empty strings.
//! A hit is accepted when its title and at least one of its artists reach a
//! similarity of seven tenths. The threshold is a heuristic.
use vstd::prelude::*;
use vstd::string::*;
use crate::track::Track;
use crate::{Record, RecordView};

verus! {

/// Numerator of the similarity a text must reach to count as the same.
pub const THRESHOLD_NUM: u64 = 7;

/// Denominator of the similarity a text must reach to count as the same.
pub const THRESHOLD_DEN: u64 = 10;

/// What `str::to_lowercase` makes of a text.
pub uninterp spec fn lower_of(s: Seq<char>) -> Seq<char>;

/// The Damerau-Levenshtein distance between two texts, counted in chars.
pub uninterp spec fn dl_distance_of(a: Seq<char>, b: Seq<char>) -> nat;

/// Relies on `str::to_lowercase`: the result depends on the text alone.
#[verifier::external_body]
fn lowercase(s: &str) -> (r: String)
    ensures
        r@ == lower_of(s@),
{
    s.to_lowercase()
}

/// Relies on `strsim::damerau_levenshtein`, the unrestricted
/// Damerau-Levenshtein distance over the chars of both texts.
#[verifier::external_body]
fn edit_distance(a: &str, b: &str) -> (r: usize)
    ensures
        r as nat == dl_distance_of(a@, b@),
{
    strsim::damerau_levenshtein(a, b)
}

/// The part of `s` before its first `(`; all of `s` when it has none.
pub open spec fn before_paren(s: Seq<char>) -> Seq<char>
    decreases s.len(),
{
    if s.len() == 0 || s[0] == '(' {
        Seq::empty()
    } else {
        seq![s[0]] + before_paren(s.drop_first())
    }
}

/// Whether a distance between texts of the given lengths is a similarity of
/// at least `THRESHOLD_NUM / THRESHOLD_DEN`.
pub open spec fn similar(distance: nat, a_len: nat, b_len: nat) -> bool {
    let m = if a_len >= b_len { a_len } else { b_len };
    m == 0 || (m - distance) * THRESHOLD_DEN >= THRESHOLD_NUM * m
}

/// Whether two canonical texts count as the same.
pub open spec fn similar_text(a: Seq<char>, b: Seq<char>) -> bool {
    similar(dl_distance_of(a, b), a.len(), b.len())
}

pub open spec fn canonical_artist(s: Seq<char>) -> Seq<char> {
    lower_of(s)
}

pub open spec fn canonical_title(s: Seq<char>) -> Seq<char> {
    before_paren(lower_of(s))
}

/// Whether one of `artists` counts as the same as the canonical `artist`.
pub open spec fn some_artist_similar(artist: Seq<char>, artists: Seq<Seq<char>>) -> bool {
    exists|i: int|
        0 <= i < artists.len() && #[trigger] similar_text(artist, canonical_artist(artists[i]))
}

/// Whether `candidate` is accepted as a hit for `query` (artist, title).
pub open spec fn accepts(query: (Seq<char>, Seq<char>), candidate: RecordView) -> bool {
    &&& similar_text(canonical_title(query.1), canonical_title(candidate.title))
    &&& some_artist_similar(canonical_artist(query.0), candidate.artists)
}

proof fn lemma_before_paren(s: Seq<char>, i: int)
    requires
        0 <= i <= s.len(),
        forall|j: int| 0 <= j < i ==> s[j] != '(',
        i == s.len() || s[i] == '(',
    ensures
        before_paren(s) == s.subrange(0, i),
    decreases s.len(),
{
    if s.len() == 0 || s[0] == '(' {
        assert(s.subrange(0, i) =~= Seq::<char>::empty());
    } else {
        let t = s.drop_first();
        assert forall|j: int| 0 <= j < i - 1 implies t[j] != '(' by {
            assert(s[j + 1] != '(');
        }
        lemma_before_paren(t, i - 1);
        assert(seq![s[0]] + t.subrange(0, i - 1) =~= s.subrange(0, i));
    }
}

/// Attempt to make a canonical representation of the artist.
fn artist_str(artist: &str) -> (r: String)
    ensures
        r@ == canonical_artist(artist@),
{
    lowercase(artist)
}

/// Attempt to make a canonical representation of the title.
fn title_str(title: &str) -> (r: String)
    ensures
        r@ == canonical_title(title@),
{
    let lower = lowercase(title);
    let s = lower.as_str();
    let n = s.unicode_len();
    let mut i: usize = 0;
    // A lot of tracks have parentheticals which don't match between the
    // query and the result.
    while i < n && s.get_char(i) != '('
        invariant
            n == s@.len(),
            i <= n,
            forall|j: int| 0 <= j < i ==> s@[j] != '(',
        decreases n - i,
    {
        i = i + 1;
    }
    proof {
        lemma_before_paren(s@, i as int);
    }
    s.substring_char(0, i).to_owned()
}

/// Whether a distance between texts of the given lengths (in chars) is a
/// similarity that reaches the threshold.
pub fn is_similar(distance: usize, a_len: usize, b_len: usize) -> (r: bool)
    ensures
        r == similar(distance as nat, a_len as nat, b_len as nat),
{
    let m: u128 = if a_len >= b_len { a_len as u128 } else { b_len as u128 };
    let d = distance as u128;
    if m == 0 {
        true
    } else if d > m {
        false
    } else {
        let den = THRESHOLD_DEN as u128;
        let num = THRESHOLD_NUM as u128;
        assert((m - d) * den <= 10 * 0xffff_ffff_ffff_ffffu128 && num * m <= 7
            * 0xffff_ffff_ffff_ffffu128) by (nonlinear_arith)
            requires
                m <= 0xffff_ffff_ffff_ffffu128,
                d <= m,
                den == 10,
                num == 7,
        ;
        (m - d) * den >= num * m
    }
}

/// Whether two canonical texts count as the same.
fn texts_similar(a: &str, b: &str) -> (r: bool)
    ensures
        r == similar_text(a@, b@),
{
    let d = edit_distance(a, b);
    is_similar(d, a.unicode_len(), b.unicode_len())
}

/// The acceptance rule on the separate comparisons: the title matches and
/// at least one artist does.
pub fn is_accepted(title_similar: bool, artists_similar: &Vec<bool>) -> (r: bool)
    ensures
        r == (title_similar && exists|i: int|
            0 <= i < artists_similar@.len() && #[trigger] artists_similar@[i]),
{
    if !title_similar {
        return false;
    }
    let mut i: usize = 0;
    while i < artists_similar.len()
        invariant
            title_similar,
            i <= artists_similar@.len(),
            forall|j: int| 0 <= j < i ==> !(#[trigger] artists_similar@[j]),
        decreases artists_similar@.len() - i,
    {
        if artists_similar[i] {
            assert(artists_similar@[i as int]);
            return true;
        }
        i = i + 1;
    }
    false
}

/// Scores a search hit against the track searched for: whether it is
/// accepted as a real match.
pub fn score(track: &Track, record: &Record) -> (r: bool)
    ensures
        r == accepts(track@, record@),
{
    let title_ok = texts_similar(
        title_str(track.title.as_str()).as_str(),
        title_str(record.title.as_str()).as_str(),
    );
    if !title_ok {
        return false;
    }
    let artist = artist_str(track.artist.as_str());
    let mut i: usize = 0;
    while i < record.artists.len()
        invariant
            similar_text(canonical_title(track.title@), canonical_title(record.title@)),
            i <= record.artists@.len(),
            artist@ == canonical_artist(track.artist@),
            forall|j: int|
                0 <= j < i ==> !#[trigger] similar_text(
                    artist@,
                    canonical_artist(record@.artists[j]),
                ),
        decreases record.artists@.len() - i,
    {
        let candidate = artist_str(record.artists[i].as_str());
        assert(record@.artists[i as int] == record.artists@[i as int]@);
        if texts_similar(artist.as_str(), candidate.as_str()) {
            assert(similar_text(artist@, canonical_artist(record@.artists[i as int])));
            return true;
        }
        i = i + 1;
    }
    false
}

} // verus!
