//! Catalog lookup logic: building search queries from track metadata,
//! interpreting a ranked result list into a success / ambiguous / failure
//! verdict, and the bounded retry protocol for rate-limited responses.

use vstd::prelude::*;

verus! {

use crate::records::CandidateSeed;
use crate::sorting::{RowOrd, sort_spec, sort_rows};
use crate::text::{
    contains_sub, escape_quotes, escape_quotes_spec, has_substring, lower_spec, push_char,
    to_ascii_lower, trim, trim_spec,
};

/// What one lookup resolved to.
pub enum LookupResult {
    Success { release: CandidateSeed, confidence: u32 },
    Ambiguous { candidates: Vec<CandidateSeed> },
}

/// Why one lookup failed: a descriptive condition, or a transport or
/// decoding error carried as text.
pub enum LookupFailure {
    Message(String),
    Error(String),
}

impl LookupFailure {
    /// The failure text, whichever kind it is.
    pub fn into_message(self) -> (r: String)
        ensures
            self matches LookupFailure::Message(m) ==> r == m,
            self matches LookupFailure::Error(m) ==> r == m,
    {
        match self {
            LookupFailure::Message(message) => message,
            LookupFailure::Error(error) => error,
        }
    }
}

/// One release of a search response, reduced to the plain values the
/// decision reads: the resolvable release id, the relevance score, and the
/// raw document carried through for candidate storage.
pub struct ScoredRelease {
    pub release_id: Option<String>,
    pub score: Option<u32>,
    pub raw_payload: String,
}

/// The score a release sorts and decides by: an absent score reads as zero.
pub open spec fn effective_score(score: Option<u32>) -> u32 {
    match score {
        Some(s) => s,
        None => 0,
    }
}

/// Releases order by score descending, scoreless ones last.
impl RowOrd for ScoredRelease {
    open spec fn leq(self, other: Self) -> bool {
        effective_score(self.score) >= effective_score(other.score)
    }

    proof fn leq_total(a: Self, b: Self) {
    }

    proof fn leq_trans(a: Self, b: Self, c: Self) {
    }

    fn le(&self, other: &Self) -> (r: bool) {
        let a: u32 = match self.score {
            Some(s) => s,
            None => 0,
        };
        let b: u32 = match other.score {
            Some(s) => s,
            None => 0,
        };
        a >= b
    }
}

/// The candidate document a release turns into.
pub open spec fn seed_of(r: ScoredRelease) -> CandidateSeed {
    CandidateSeed { release_id: r.release_id, score: r.score, raw_payload: r.raw_payload }
}

/// The confidence rule: a single result, an outright high score, or a high
/// score leading the runner-up by a clear margin is accepted; anything else
/// is surfaced for manual disambiguation.
pub open spec fn confident(n: nat, best: u32, second: u32) -> bool {
    n == 1 || best >= 95 || (best >= 85 && best >= second + 10)
}

/// The confidence reported for an accepted release: its score, or the
/// default ceiling when the catalog reported no usable score.
pub open spec fn reported_confidence(best: u32) -> u32 {
    if best == 0 {
        100
    } else {
        best
    }
}

/// How many candidates an ambiguous verdict returns.
pub open spec fn capped(n: int) -> int {
    if n < 5 {
        n
    } else {
        5
    }
}

/// Interpret a catalog search response, the MusicBrainz way. The empty list
/// fails with "no releases found"; the score-descending list is then held
/// to the confidence rule, with the top score lifted to the default ceiling
/// of 100 when the catalog reported none; anything unconvincing returns the
/// top five candidates.
pub fn interpret_lookup(releases: Vec<ScoredRelease>) -> (r: Result<LookupResult, LookupFailure>)
    ensures
        releases@.len() == 0 ==> (r matches Err(f) && f matches LookupFailure::Message(m) && m@
            == "no releases found"@),
        releases@.len() > 0 ==> ({
            let sorted = sort_spec(releases@);
            let conf = reported_confidence(effective_score(sorted[0].score));
            let second = if sorted.len() > 1 {
                effective_score(sorted[1].score)
            } else {
                0
            };
            &&& confident(releases@.len(), conf, second) ==> (r matches Ok(
                LookupResult::Success { release, confidence },
            ) && release == seed_of(sorted[0]) && confidence == conf)
            &&& !confident(releases@.len(), conf, second) ==> (r matches Ok(
                LookupResult::Ambiguous { candidates },
            ) && candidates@ == sorted.subrange(0, capped(sorted.len() as int)).map_values(
                |x: ScoredRelease| seed_of(x),
            ))
        }),
{
    if releases.len() == 0 {
        return Err(LookupFailure::Message("no releases found".to_owned()));
    }
    let mut sorted = sort_rows(releases);
    let ghost ordered = sorted@;
    proof {
        crate::sorting::lemma_sort_spec_len(releases@);
    }
    let top_raw: u32 = match sorted[0].score {
        Some(s) => s,
        None => 0,
    };
    let conf = if top_raw == 0 {
        100
    } else {
        top_raw
    };
    let second: u32 = if sorted.len() > 1 {
        match sorted[1].score {
            Some(s) => s,
            None => 0,
        }
    } else {
        0
    };
    let is_confident = sorted.len() == 1 || conf >= 95 || (conf >= 85 && second <= conf && conf
        - second >= 10);
    if is_confident {
        let top = sorted.remove(0);
        let release = CandidateSeed {
            release_id: top.release_id,
            score: top.score,
            raw_payload: top.raw_payload,
        };
        proof {
            assert(release == seed_of(ordered[0]));
        }
        Ok(LookupResult::Success { release, confidence: conf })
    } else {
        let mut candidates: Vec<CandidateSeed> = Vec::new();
        let ghost mut k: int = 0;
        proof {
            assert(sorted@ =~= ordered.subrange(0, ordered.len() as int));
            assert(candidates@ =~= ordered.subrange(0, 0).map_values(|x: ScoredRelease| seed_of(x)));
        }
        while sorted.len() > 0 && candidates.len() < 5
            invariant
                0 <= k <= ordered.len(),
                k <= 5,
                sorted@ == ordered.subrange(k, ordered.len() as int),
                candidates@ == ordered.subrange(0, k).map_values(|x: ScoredRelease| seed_of(x)),
                candidates@.len() == k,
            decreases sorted@.len(),
        {
            let c = sorted.remove(0);
            proof {
                assert(c == ordered[k]);
                assert(sorted@ =~= ordered.subrange(k + 1, ordered.len() as int));
            }
            candidates.push(
                CandidateSeed {
                    release_id: c.release_id,
                    score: c.score,
                    raw_payload: c.raw_payload,
                },
            );
            proof {
                assert(ordered.subrange(0, k + 1).map_values(|x: ScoredRelease| seed_of(x))
                    =~= ordered.subrange(0, k).map_values(|x: ScoredRelease| seed_of(x)).push(
                    seed_of(ordered[k]),
                ));
                k = k + 1;
            }
        }
        proof {
            assert(candidates@ == ordered.subrange(0, capped(ordered.len() as int)).map_values(
                |x: ScoredRelease| seed_of(x),
            ));
        }
        Ok(LookupResult::Ambiguous { candidates })
    }
}

/// One entry of the Discogs search response: the resolvable release id, the
/// structural fields the filter reads, the score, and the raw document.
pub struct DiscogsSearchResult {
    pub release_id: Option<String>,
    pub result_type: Option<String>,
    pub resource_url: Option<String>,
    pub score: Option<u32>,
    pub raw_payload: String,
}

/// Results order by score descending, scoreless ones last.
impl RowOrd for DiscogsSearchResult {
    open spec fn leq(self, other: Self) -> bool {
        effective_score(self.score) >= effective_score(other.score)
    }

    proof fn leq_total(a: Self, b: Self) {
    }

    proof fn leq_trans(a: Self, b: Self, c: Self) {
    }

    fn le(&self, other: &Self) -> (r: bool) {
        let a: u32 = match self.score {
            Some(s) => s,
            None => 0,
        };
        let b: u32 = match other.score {
            Some(s) => s,
            None => 0,
        };
        a >= b
    }
}

/// A structurally valid result: a release with a resolvable detail URL.
pub open spec fn discogs_valid(r: DiscogsSearchResult) -> bool {
    &&& r.result_type matches Some(t) && t@ == "release"@
    &&& r.resource_url is Some
}

/// The structurally valid results, in order.
pub open spec fn discogs_filtered(rs: Seq<DiscogsSearchResult>) -> Seq<DiscogsSearchResult>
    decreases rs.len(),
{
    if rs.len() == 0 {
        Seq::empty()
    } else {
        let rest = discogs_filtered(rs.drop_last());
        if discogs_valid(rs.last()) {
            rest.push(rs.last())
        } else {
            rest
        }
    }
}

proof fn lemma_discogs_filtered_valid(rs: Seq<DiscogsSearchResult>)
    ensures
        forall|k: int|
            0 <= k < discogs_filtered(rs).len() ==> discogs_valid(
                #[trigger] discogs_filtered(rs)[k],
            ),
    decreases rs.len(),
{
    if rs.len() > 0 {
        lemma_discogs_filtered_valid(rs.drop_last());
        let out = discogs_filtered(rs);
        let rest = discogs_filtered(rs.drop_last());
        assert forall|k: int| 0 <= k < out.len() implies discogs_valid(#[trigger] out[k]) by {
            if discogs_valid(rs.last()) && k == out.len() - 1 {
            } else {
                assert(out[k] == rest[k]);
            }
        }
    }
}

/// What the Discogs client should do next with a search response.
pub enum DiscogsDecision {
    /// No structurally valid result: record "no releases found".
    NoReleases,
    /// A convincing top result: fetch the full release document at this URL
    /// and record a success with this confidence.
    FetchRelease { url: String, confidence: u32 },
    /// Nothing convincing: record these candidates as ambiguous.
    Ambiguous { candidates: Vec<DiscogsSearchResult> },
}

/// Interpret a Discogs search response: keep the structurally valid
/// releases, order them by score, and accept the top one when it is alone
/// or leads by the margin rule; otherwise surface the top five. This
/// catalog's tuning of the confidence rule has no outright high-score
/// acceptance: only a lone result or a clear lead convinces it, so its
/// effective high-confidence threshold sits above every reported score.
pub fn interpret_discogs_search(results: Vec<DiscogsSearchResult>) -> (r: DiscogsDecision)
    ensures
        ({
            let sorted = sort_spec(discogs_filtered(results@));
            let top = effective_score(sorted[0].score);
            let second = if sorted.len() > 1 {
                effective_score(sorted[1].score)
            } else {
                0
            };
            &&& (sorted.len() == 0 ==> r matches DiscogsDecision::NoReleases)
            &&& (sorted.len() > 0 && (sorted.len() == 1 || (top >= 85 && top >= second + 10)) ==> (
            r matches DiscogsDecision::FetchRelease { url, confidence } && Some(url)
                == sorted[0].resource_url && confidence == top))
            &&& (sorted.len() > 1 && !(top >= 85 && top >= second + 10) ==> (r matches DiscogsDecision::Ambiguous {
                candidates,
            } && candidates@ == sorted.subrange(0, capped(sorted.len() as int))))
        }),
{
    let mut kept: Vec<DiscogsSearchResult> = Vec::new();
    let mut rs = results;
    let ghost orig = rs@;
    let ghost mut k: int = 0;
    proof {
        assert(rs@ =~= orig.subrange(0, orig.len() as int));
    }
    while rs.len() > 0
        invariant
            0 <= k <= orig.len(),
            rs@ == orig.subrange(k, orig.len() as int),
            kept@ == discogs_filtered(orig.subrange(0, k)),
        decreases rs@.len(),
    {
        let x = rs.remove(0);
        proof {
            assert(x == orig[k]);
            assert(rs@ =~= orig.subrange(k + 1, orig.len() as int));
            assert(orig.subrange(0, k + 1).drop_last() =~= orig.subrange(0, k));
            assert(orig.subrange(0, k + 1).last() == orig[k]);
        }
        let valid = match &x.result_type {
            Some(t) => crate::text::str_eq(t.as_str(), "release") && matches!(
                &x.resource_url,
                Some(_)
            ),
            None => false,
        };
        if valid {
            kept.push(x);
        }
        proof {
            k = k + 1;
        }
    }
    proof {
        assert(orig.subrange(0, orig.len() as int) =~= orig);
    }
    if kept.len() == 0 {
        return DiscogsDecision::NoReleases;
    }
    let mut sorted = sort_rows(kept);
    let ghost ordered = sorted@;
    proof {
        crate::sorting::lemma_sort_spec_len(discogs_filtered(orig));
    }
    let top: u32 = match sorted[0].score {
        Some(s) => s,
        None => 0,
    };
    let second: u32 = if sorted.len() > 1 {
        match sorted[1].score {
            Some(s) => s,
            None => 0,
        }
    } else {
        0
    };
    if sorted.len() == 1 || (top >= 85 && second <= top && top - second >= 10) {
        let first = sorted.remove(0);
        let url = match first.resource_url {
            Some(u) => u,
            None => {
                proof {
                    crate::sorting::lemma_sort_spec_multiset(discogs_filtered(orig));
                    broadcast use vstd::seq_lib::group_to_multiset_ensures;

                    assert(ordered.contains(ordered[0]));
                    assert(ordered.to_multiset().contains(ordered[0]));
                    assert(discogs_filtered(orig).to_multiset().contains(ordered[0]));
                    assert(discogs_filtered(orig).contains(ordered[0]));
                    let w = choose|w: int|
                        0 <= w < discogs_filtered(orig).len() && discogs_filtered(orig)[w]
                            == ordered[0];
                    lemma_discogs_filtered_valid(orig);
                    assert(false);
                }
                String::new()
            },
        };
        DiscogsDecision::FetchRelease { url, confidence: top }
    } else {
        let mut candidates: Vec<DiscogsSearchResult> = Vec::new();
        let ghost mut k2: int = 0;
        proof {
            assert(sorted@ =~= ordered.subrange(0, ordered.len() as int));
            assert(candidates@ =~= ordered.subrange(0, 0));
        }
        while sorted.len() > 0 && candidates.len() < 5
            invariant
                0 <= k2 <= ordered.len(),
                k2 <= 5,
                sorted@ == ordered.subrange(k2, ordered.len() as int),
                candidates@ == ordered.subrange(0, k2),
            decreases sorted@.len(),
        {
            let c = sorted.remove(0);
            proof {
                assert(c == ordered[k2]);
                assert(sorted@ =~= ordered.subrange(k2 + 1, ordered.len() as int));
            }
            candidates.push(c);
            proof {
                assert(ordered.subrange(0, k2 + 1) =~= ordered.subrange(0, k2).push(ordered[k2]));
                k2 = k2 + 1;
            }
        }
        proof {
            assert(candidates@ == ordered.subrange(0, capped(ordered.len() as int)));
        }
        DiscogsDecision::Ambiguous { candidates }
    }
}

/// A trimmed value, when anything remains of it.
pub open spec fn opt_term(o: Option<Seq<char>>) -> Option<Seq<char>> {
    match o {
        Some(s) => if trim_spec(s).len() > 0 {
            Some(trim_spec(s))
        } else {
            None
        },
        None => None,
    }
}

/// The free-text search term: trimmed artist and title joined by a space,
/// in that order, empty parts dropped.
pub open spec fn search_term_spec(artist: Option<Seq<char>>, title: Option<Seq<char>>) -> Seq<
    char,
> {
    match (opt_term(artist), opt_term(title)) {
        (Some(a), Some(t)) => a + seq![' '] + t,
        (Some(a), None) => a,
        (None, Some(t)) => t,
        (None, None) => Seq::empty(),
    }
}

/// Build the free-text search term from the track's metadata.
pub fn build_search_term(artist: Option<&String>, title: Option<&String>) -> (r: String)
    ensures
        r@ == search_term_spec(
            match artist {
                Some(a) => Some(a@),
                None => None,
            },
            match title {
                Some(t) => Some(t@),
                None => None,
            },
        ),
{
    let ta = match artist {
        Some(a) => {
            let v = trim(a.as_str());
            if v.as_str().unicode_len() == 0 {
                None
            } else {
                Some(v)
            }
        },
        None => None,
    };
    let tt = match title {
        Some(a) => {
            let v = trim(a.as_str());
            if v.as_str().unicode_len() == 0 {
                None
            } else {
                Some(v)
            }
        },
        None => None,
    };
    match (ta, tt) {
        (Some(a), Some(t)) => {
            let mut out = a;
            push_char(&mut out, ' ');
            out.append(t.as_str());
            proof {
                assert(out@ =~= trim_spec(artist->Some_0@) + seq![' '] + trim_spec(
                    title->Some_0@,
                ));
            }
            out
        },
        (Some(a), None) => a,
        (None, Some(t)) => t,
        (None, None) => String::new(),
    }
}

/// A trimmed, quote-escaped field term, when anything remains of it.
pub open spec fn normalize_spec(s: Seq<char>) -> Option<Seq<char>> {
    if trim_spec(s).len() == 0 {
        None
    } else {
        Some(escape_quotes_spec(trim_spec(s)))
    }
}

/// Trim a term and escape its quotes; an all-whitespace term is dropped.
pub fn normalize_term(value: &String) -> (r: Option<String>)
    ensures
        match r {
            Some(s) => normalize_spec(value@) == Some(s@),
            None => normalize_spec(value@) is None,
        },
{
    let trimmed = trim(value.as_str());
    if trimmed.as_str().unicode_len() == 0 {
        None
    } else {
        Some(escape_quotes(trimmed.as_str()))
    }
}

/// The first tag that names an album, scanning in order; the match is
/// ASCII-case-insensitive.
pub open spec fn first_album_tag(tags: Seq<String>) -> Option<String>
    decreases tags.len(),
{
    if tags.len() == 0 {
        None
    } else if has_substring(lower_spec(tags[0]@), "album:"@) {
        Some(tags[0])
    } else {
        first_album_tag(tags.drop_first())
    }
}

/// The artist-scoped component, when the artist term survives trimming.
pub open spec fn part_artist(artist: Option<Seq<char>>) -> Seq<Seq<char>> {
    match artist {
        Some(a) => match normalize_spec(a) {
            Some(v) => seq!["artist:\""@ + v + "\""@],
            None => Seq::empty(),
        },
        None => Seq::empty(),
    }
}

/// The recording-scoped component, when the title term survives trimming.
pub open spec fn part_title(title: Option<Seq<char>>) -> Seq<Seq<char>> {
    match title {
        Some(s) => match normalize_spec(s) {
            Some(v) => seq!["recording:\""@ + v + "\""@],
            None => Seq::empty(),
        },
        None => Seq::empty(),
    }
}

/// The release-scoped component, taken from the first album tag.
pub open spec fn part_album(tags: Seq<String>) -> Seq<Seq<char>> {
    match first_album_tag(tags) {
        Some(tag) => match normalize_spec(tag@) {
            Some(v) => seq!["release:\""@ + v + "\""@],
            None => Seq::empty(),
        },
        None => Seq::empty(),
    }
}

/// The field-scoped query components, in order: artist, recording, and the
/// album tag, each trimmed, escaped and non-empty.
pub open spec fn mb_query_parts(
    artist: Option<Seq<char>>,
    title: Option<Seq<char>>,
    tags: Seq<String>,
) -> Seq<Seq<char>> {
    part_artist(artist) + part_title(title) + part_album(tags)
}

/// Components joined by " AND ".
pub open spec fn join_and(parts: Seq<Seq<char>>) -> Seq<char>
    decreases parts.len(),
{
    if parts.len() == 0 {
        Seq::empty()
    } else if parts.len() == 1 {
        parts[0]
    } else {
        join_and(parts.drop_last()) + " AND "@ + parts.last()
    }
}

/// Build the field-scoped search query: artist-, recording- and
/// release-scoped terms joined by " AND ".
pub fn build_search_query(
    artist: Option<&String>,
    title: Option<&String>,
    tags: &Vec<String>,
) -> (r: String)
    ensures
        r@ == join_and(
            mb_query_parts(
                match artist {
                    Some(a) => Some(a@),
                    None => None,
                },
                match title {
                    Some(t) => Some(t@),
                    None => None,
                },
                tags@,
            ),
        ),
{
    let ghost sa = match artist {
        Some(a) => Some(a@),
        None => None,
    };
    let ghost st = match title {
        Some(t) => Some(t@),
        None => None,
    };
    let ghost parts = mb_query_parts(sa, st, tags@);
    let ghost vw = |c: String| c@;
    let mut components: Vec<String> = Vec::new();
    match artist {
        Some(a) => {
            match normalize_term(a) {
                Some(v) => {
                    let mut c = "artist:\"".to_owned();
                    c.append(v.as_str());
                    c.append("\"");
                    components.push(c);
                },
                None => {},
            }
        },
        None => {},
    }
    proof {
        assert(components@.map_values(vw) =~= part_artist(sa));
    }
    match title {
        Some(s) => {
            match normalize_term(s) {
                Some(v) => {
                    let mut c = "recording:\"".to_owned();
                    c.append(v.as_str());
                    c.append("\"");
                    components.push(c);
                },
                None => {},
            }
        },
        None => {},
    }
    proof {
        assert(components@.map_values(vw) =~= part_artist(sa) + part_title(st));
    }
    let album = find_album_tag(tags);
    match album {
        Some(tag) => {
            match normalize_term(&tag) {
                Some(v) => {
                    let mut c = "release:\"".to_owned();
                    c.append(v.as_str());
                    c.append("\"");
                    components.push(c);
                },
                None => {},
            }
        },
        None => {},
    }
    proof {
        assert(components@.map_values(vw) =~= parts);
        assert(components@.map_values(|c: String| c@) =~= parts);
    }
    join_components(components)
}

/// Find the first tag that names an album, ASCII-case-insensitively.
fn find_album_tag(tags: &Vec<String>) -> (r: Option<String>)
    ensures
        match r {
            Some(tag) => first_album_tag(tags@) matches Some(t) && t@ == tag@,
            None => first_album_tag(tags@) is None,
        },
{
    let mut i: usize = 0;
    proof {
        assert(tags@.subrange(0, tags@.len() as int) =~= tags@);
    }
    while i < tags.len()
        invariant
            0 <= i <= tags@.len(),
            first_album_tag(tags@) == first_album_tag(tags@.subrange(i as int, tags@.len() as int)),
        decreases tags@.len() - i,
    {
        let low = to_ascii_lower(tags[i].as_str());
        if contains_sub(low.as_str(), "album:") {
            proof {
                let t = tags@.subrange(i as int, tags@.len() as int);
                assert(t[0] == tags@[i as int]);
            }
            return Some(tags[i].clone());
        }
        proof {
            let t = tags@.subrange(i as int, tags@.len() as int);
            assert(t[0] == tags@[i as int]);
            assert(t.drop_first() =~= tags@.subrange(i + 1, tags@.len() as int));
        }
        i = i + 1;
    }
    proof {
        assert(tags@.subrange(i as int, tags@.len() as int).len() == 0);
    }
    None
}

/// Join components with " AND ".
fn join_components(components: Vec<String>) -> (r: String)
    ensures
        r@ == join_and(components@.map_values(|c: String| c@)),
{
    let ghost views = components@.map_values(|c: String| c@);
    let mut out = String::new();
    let mut i: usize = 0;
    while i < components.len()
        invariant
            0 <= i <= components@.len(),
            views == components@.map_values(|c: String| c@),
            out@ == join_and(views.subrange(0, i as int)),
        decreases components@.len() - i,
    {
        if i > 0 {
            out.append(" AND ");
        }
        out.append(components[i].as_str());
        proof {
            let p = views.subrange(0, i + 1);
            assert(p.drop_last() =~= views.subrange(0, i as int));
            assert(p.last() == views[i as int]);
            if i == 0 {
                assert(out@ =~= p[0]);
            }
        }
        i = i + 1;
    }
    proof {
        assert(views.subrange(0, views.len() as int) =~= views);
    }
    out
}

/// How many attempts a rate-limited lookup makes before giving up.
pub const MAX_LOOKUP_ATTEMPTS: u64 = 3;

/// What one attempt's response was, as far as the protocol cares.
pub enum CatalogResponse {
    Success,
    RateLimited { retry_after_secs: Option<u64> },
    Unauthorized,
    NotFound,
    Unexpected { status: u16 },
}

/// What to do after one attempt.
#[derive(PartialEq, Eq, Structural)]
pub enum LookupStep {
    /// Parse the body and interpret it.
    Parse,
    /// Sleep this long, then try again.
    Retry { delay_ms: u64 },
    /// Give up: the catalog kept rate-limiting us.
    FailRateLimited,
    /// Give up: the request was not authorized.
    FailUnauthorized,
    /// Give up: the catalog knows no such releases.
    FailNotFound,
    /// Give up: an unexpected status.
    FailUnexpected { status: u16 },
}

/// The provider-specified retry delay, in milliseconds; five seconds when
/// unspecified.
pub open spec fn retry_delay_ms(retry_after_secs: Option<u64>) -> u64 {
    let secs = match retry_after_secs {
        Some(s) => s,
        None => 5,
    };
    if secs <= u64::MAX / 1000 {
        (secs * 1000) as u64
    } else {
        u64::MAX
    }
}

/// The step taken after the given attempt count, for the given response.
/// Only a rate-limited response is retried, and only while the attempt cap
/// is not yet reached.
pub open spec fn lookup_step(attempts_made: u64, response: CatalogResponse) -> LookupStep {
    match response {
        CatalogResponse::Success => LookupStep::Parse,
        CatalogResponse::RateLimited { retry_after_secs } => if attempts_made
            >= MAX_LOOKUP_ATTEMPTS {
            LookupStep::FailRateLimited
        } else {
            LookupStep::Retry { delay_ms: retry_delay_ms(retry_after_secs) }
        },
        CatalogResponse::Unauthorized => LookupStep::FailUnauthorized,
        CatalogResponse::NotFound => LookupStep::FailNotFound,
        CatalogResponse::Unexpected { status } => LookupStep::FailUnexpected { status },
    }
}

/// The response class an HTTP status denotes: any 2xx parses; 429 and 503
/// are the rate-limited, retryable pair; 401 and 403 are authorization
/// failures; 404 means the catalog knows no such releases; anything else is
/// unexpected.
pub open spec fn response_class(status: u16, retry_after_secs: Option<u64>) -> CatalogResponse {
    if 200 <= status && status <= 299 {
        CatalogResponse::Success
    } else if status == 429 || status == 503 {
        CatalogResponse::RateLimited { retry_after_secs }
    } else if status == 401 || status == 403 {
        CatalogResponse::Unauthorized
    } else if status == 404 {
        CatalogResponse::NotFound
    } else {
        CatalogResponse::Unexpected { status }
    }
}

/// Classify one HTTP response for the retry protocol.
pub fn classify_response(status: u16, retry_after_secs: Option<u64>) -> (r: CatalogResponse)
    ensures
        r == response_class(status, retry_after_secs),
{
    if 200 <= status && status <= 299 {
        CatalogResponse::Success
    } else if status == 429 || status == 503 {
        CatalogResponse::RateLimited { retry_after_secs }
    } else if status == 401 || status == 403 {
        CatalogResponse::Unauthorized
    } else if status == 404 {
        CatalogResponse::NotFound
    } else {
        CatalogResponse::Unexpected { status }
    }
}

/// The attempt counter of one lookup.
pub struct LookupProtocol {
    pub attempts: u64,
}

impl LookupProtocol {
    /// A fresh lookup: no attempt made yet.
    pub fn new() -> (r: Self)
        ensures
            r.attempts == 0,
    {
        LookupProtocol { attempts: 0 }
    }

    /// Account one attempt and decide what to do with its response.
    pub fn step(&mut self, response: CatalogResponse) -> (r: LookupStep)
        requires
            old(self).attempts < MAX_LOOKUP_ATTEMPTS,
        ensures
            final(self).attempts == old(self).attempts + 1,
            r == lookup_step((old(self).attempts + 1) as u64, response),
    {
        self.attempts = self.attempts + 1;
        match response {
            CatalogResponse::Success => LookupStep::Parse,
            CatalogResponse::RateLimited { retry_after_secs } => {
                if self.attempts >= MAX_LOOKUP_ATTEMPTS {
                    LookupStep::FailRateLimited
                } else {
                    let secs: u64 = match retry_after_secs {
                        Some(s) => s,
                        None => 5,
                    };
                    let delay: u64 = if secs <= u64::MAX / 1000 {
                        secs * 1000
                    } else {
                        u64::MAX
                    };
                    LookupStep::Retry { delay_ms: delay }
                }
            },
            CatalogResponse::Unauthorized => LookupStep::FailUnauthorized,
            CatalogResponse::NotFound => LookupStep::FailNotFound,
            CatalogResponse::Unexpected { status } => LookupStep::FailUnexpected { status },
        }
    }
}

/// A catalog that keeps answering "rate limited" is retried exactly twice
/// and given up on at the third attempt: the lookup never loops forever.
pub proof fn lemma_retry_cap(d1: Option<u64>, d2: Option<u64>, d3: Option<u64>)
    ensures
        lookup_step(1, CatalogResponse::RateLimited { retry_after_secs: d1 }) matches LookupStep::Retry { .. },
        lookup_step(2, CatalogResponse::RateLimited { retry_after_secs: d2 }) matches LookupStep::Retry { .. },
        lookup_step(3, CatalogResponse::RateLimited { retry_after_secs: d3 })
            == LookupStep::FailRateLimited,
        forall|a: u64, d: Option<u64>|
            a >= MAX_LOOKUP_ATTEMPTS ==> lookup_step(
                a,
                CatalogResponse::RateLimited { retry_after_secs: d },
            ) == LookupStep::FailRateLimited,
{
}

} // verus!
