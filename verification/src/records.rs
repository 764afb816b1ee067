//! The record types exchanged with the store: track upserts, source links,
//! catalog match verdicts, candidate rows, legacy match payloads and the
//! status-listing projection.

use vstd::prelude::*;

verus! {

/// View of an optional string as an optional character sequence.
pub open spec fn ov(o: Option<String>) -> Option<Seq<char>> {
    match o {
        Some(s) => Some(s@),
        None => None,
    }
}

/// Copy an optional string.
pub fn clone_opt_string(o: &Option<String>) -> (r: Option<String>)
    ensures
        r == *o,
{
    match o {
        Some(s) => Some(s.clone()),
        None => None,
    }
}

/// Catalog match state shared by the two catalog tables.
#[derive(Clone, Copy, Debug, PartialEq, Eq, Structural)]
pub enum MatchStatus {
    Success,
    Ambiguous,
    Error,
}

impl MatchStatus {
    /// The textual form used by persisted rows and the status listing.
    pub open spec fn name(self) -> Seq<char> {
        match self {
            MatchStatus::Success => "success"@,
            MatchStatus::Ambiguous => "ambiguous"@,
            MatchStatus::Error => "error"@,
        }
    }

    pub fn as_str(&self) -> (r: &'static str)
        ensures
            r@ == self.name(),
    {
        match self {
            MatchStatus::Success => "success",
            MatchStatus::Ambiguous => "ambiguous",
            MatchStatus::Error => "error",
        }
    }
}

/// Match state reported by the Discogs catalog client.
#[derive(Clone, Copy, Debug, PartialEq, Eq, Structural)]
pub enum DiscogsMatchStatus {
    Success,
    Ambiguous,
    Error,
}

impl DiscogsMatchStatus {
    pub open spec fn shared(self) -> MatchStatus {
        match self {
            DiscogsMatchStatus::Success => MatchStatus::Success,
            DiscogsMatchStatus::Ambiguous => MatchStatus::Ambiguous,
            DiscogsMatchStatus::Error => MatchStatus::Error,
        }
    }

    pub open spec fn name(self) -> Seq<char> {
        self.shared().name()
    }

    pub fn as_shared(&self) -> (r: MatchStatus)
        ensures
            r == self.shared(),
    {
        match self {
            DiscogsMatchStatus::Success => MatchStatus::Success,
            DiscogsMatchStatus::Ambiguous => MatchStatus::Ambiguous,
            DiscogsMatchStatus::Error => MatchStatus::Error,
        }
    }

    pub fn as_str(&self) -> (r: &'static str)
        ensures
            r@ == self.name(),
    {
        match self {
            DiscogsMatchStatus::Success => "success",
            DiscogsMatchStatus::Ambiguous => "ambiguous",
            DiscogsMatchStatus::Error => "error",
        }
    }

    /// The status a legacy payload's status text denotes; anything but
    /// "success" or "ambiguous" reads as an error state.
    pub open spec fn of_name(s: Seq<char>) -> DiscogsMatchStatus {
        if s == "success"@ {
            DiscogsMatchStatus::Success
        } else if s == "ambiguous"@ {
            DiscogsMatchStatus::Ambiguous
        } else {
            DiscogsMatchStatus::Error
        }
    }

    pub fn from_str(value: &str) -> (r: Self)
        ensures
            r == Self::of_name(value@),
    {
        if crate::text::str_eq(value, "success") {
            DiscogsMatchStatus::Success
        } else if crate::text::str_eq(value, "ambiguous") {
            DiscogsMatchStatus::Ambiguous
        } else {
            DiscogsMatchStatus::Error
        }
    }
}

/// Match state reported by the MusicBrainz catalog client.
#[derive(Clone, Copy, Debug, PartialEq, Eq, Structural)]
pub enum MusicbrainzMatchStatus {
    Success,
    Ambiguous,
    Error,
}

impl MusicbrainzMatchStatus {
    pub open spec fn shared(self) -> MatchStatus {
        match self {
            MusicbrainzMatchStatus::Success => MatchStatus::Success,
            MusicbrainzMatchStatus::Ambiguous => MatchStatus::Ambiguous,
            MusicbrainzMatchStatus::Error => MatchStatus::Error,
        }
    }

    pub open spec fn name(self) -> Seq<char> {
        self.shared().name()
    }

    pub fn as_shared(&self) -> (r: MatchStatus)
        ensures
            r == self.shared(),
    {
        match self {
            MusicbrainzMatchStatus::Success => MatchStatus::Success,
            MusicbrainzMatchStatus::Ambiguous => MatchStatus::Ambiguous,
            MusicbrainzMatchStatus::Error => MatchStatus::Error,
        }
    }

    pub fn as_str(&self) -> (r: &'static str)
        ensures
            r@ == self.name(),
    {
        match self {
            MusicbrainzMatchStatus::Success => "success",
            MusicbrainzMatchStatus::Ambiguous => "ambiguous",
            MusicbrainzMatchStatus::Error => "error",
        }
    }

    /// The status a status text denotes; anything but "success" or
    /// "ambiguous" reads as an error state.
    pub open spec fn of_name(s: Seq<char>) -> MusicbrainzMatchStatus {
        if s == "success"@ {
            MusicbrainzMatchStatus::Success
        } else if s == "ambiguous"@ {
            MusicbrainzMatchStatus::Ambiguous
        } else {
            MusicbrainzMatchStatus::Error
        }
    }
}

/// One ranked alternative inside a legacy match payload: the resolvable
/// release id and score read out of the raw catalog document, and the raw
/// document itself, carried opaquely.
#[derive(Debug)]
pub struct CandidateSeed {
    pub release_id: Option<String>,
    pub score: Option<u32>,
    pub raw_payload: String,
}

/// Ghost image of a [`CandidateSeed`].
pub struct CandidateSeedV {
    pub release_id: Option<Seq<char>>,
    pub score: Option<u32>,
    pub raw_payload: Seq<char>,
}

impl View for CandidateSeed {
    type V = CandidateSeedV;

    open spec fn view(&self) -> CandidateSeedV {
        CandidateSeedV {
            release_id: ov(self.release_id),
            score: self.score,
            raw_payload: self.raw_payload@,
        }
    }
}

impl CandidateSeed {
    pub fn duplicate(&self) -> (r: Self)
        ensures
            r@ == self@,
    {
        CandidateSeed {
            release_id: clone_opt_string(&self.release_id),
            score: self.score,
            raw_payload: self.raw_payload.clone(),
        }
    }
}

/// The historical single-document representation of a catalog match, as read
/// out of an old track row: plain fields plus the candidate documents.
#[derive(Debug)]
pub struct LegacyMatchPayload {
    pub status: String,
    pub query: Option<String>,
    pub message: Option<String>,
    pub release_id: Option<String>,
    pub confidence: Option<u32>,
    pub release: Option<CandidateSeed>,
    pub candidates: Vec<CandidateSeed>,
}

/// Ghost image of a [`LegacyMatchPayload`].
pub struct LegacyMatchPayloadV {
    pub status: Seq<char>,
    pub query: Option<Seq<char>>,
    pub message: Option<Seq<char>>,
    pub release_id: Option<Seq<char>>,
    pub confidence: Option<u32>,
    pub release: Option<CandidateSeedV>,
    pub candidates: Seq<CandidateSeedV>,
}

impl View for LegacyMatchPayload {
    type V = LegacyMatchPayloadV;

    open spec fn view(&self) -> LegacyMatchPayloadV {
        LegacyMatchPayloadV {
            status: self.status@,
            query: ov(self.query),
            message: ov(self.message),
            release_id: ov(self.release_id),
            confidence: self.confidence,
            release: match self.release {
                Some(seed) => Some(seed@),
                None => None,
            },
            candidates: self.candidates@.map_values(|seed: CandidateSeed| seed@),
        }
    }
}

impl LegacyMatchPayload {
    pub fn duplicate(&self) -> (r: Self)
        ensures
            r@ == self@,
    {
        let release = match &self.release {
            Some(seed) => Some(seed.duplicate()),
            None => None,
        };
        let mut candidates: Vec<CandidateSeed> = Vec::new();
        let mut i: usize = 0;
        while i < self.candidates.len()
            invariant
                0 <= i <= self.candidates.len(),
                candidates@.len() == i,
                forall|k: int| 0 <= k < i ==> candidates@[k]@ == self.candidates@[k]@,
            decreases self.candidates.len() - i,
        {
            candidates.push(self.candidates[i].duplicate());
            i = i + 1;
        }
        let r = LegacyMatchPayload {
            status: self.status.clone(),
            query: clone_opt_string(&self.query),
            message: clone_opt_string(&self.message),
            release_id: clone_opt_string(&self.release_id),
            confidence: self.confidence,
            release,
            candidates,
        };
        proof {
            assert(r@.candidates =~= self@.candidates);
        }
        r
    }
}

/// View of an optional legacy payload.
pub open spec fn olv(o: Option<LegacyMatchPayload>) -> Option<LegacyMatchPayloadV> {
    match o {
        Some(p) => Some(p@),
        None => None,
    }
}

/// A track upsert: identity plus the denormalized per-catalog summary and an
/// optional legacy match payload kept for older peers.
#[derive(Debug)]
pub struct TrackRecord {
    pub track_id: String,
    pub title: Option<String>,
    pub artist: Option<String>,
    pub album: Option<String>,
    pub discogs_release_id: Option<String>,
    pub discogs_confidence: Option<u32>,
    pub musicbrainz_release_id: Option<String>,
    pub musicbrainz_confidence: Option<u32>,
    pub musicbrainz_payload: Option<LegacyMatchPayload>,
}

/// The verdict of one catalog lookup attempt against the Discogs catalog,
/// keyed by track; replaced wholesale on every attempt.
#[derive(Debug)]
pub struct DiscogsMatchRecord {
    pub track_id: String,
    pub release_id: Option<String>,
    pub confidence: Option<u32>,
    pub status: DiscogsMatchStatus,
    pub query: Option<String>,
    pub message: Option<String>,
    pub checked_at: Option<String>,
}

impl DiscogsMatchRecord {
    /// The match-state invariant: a success carries a release id and a
    /// confidence; any other state carries neither.
    pub open spec fn wf(self) -> bool {
        &&& self.status == DiscogsMatchStatus::Success ==> self.release_id is Some
            && self.confidence is Some
        &&& self.status != DiscogsMatchStatus::Success ==> self.release_id is None
            && self.confidence is None
    }
}

/// A ranked Discogs alternative attached to a match.
#[derive(Debug)]
pub struct DiscogsCandidateRecord {
    pub match_id: String,
    pub release_id: Option<String>,
    pub score: Option<u32>,
    pub raw_payload: String,
}

/// The verdict of one MusicBrainz lookup attempt; see [`DiscogsMatchRecord`].
#[derive(Debug)]
pub struct MusicbrainzMatchRecord {
    pub track_id: String,
    pub release_id: Option<String>,
    pub confidence: Option<u32>,
    pub status: MusicbrainzMatchStatus,
    pub query: Option<String>,
    pub message: Option<String>,
    pub checked_at: Option<String>,
}

impl MusicbrainzMatchRecord {
    /// The match-state invariant: a success carries a release id and a
    /// confidence; any other state carries neither.
    pub open spec fn wf(self) -> bool {
        &&& self.status == MusicbrainzMatchStatus::Success ==> self.release_id is Some
            && self.confidence is Some
        &&& self.status != MusicbrainzMatchStatus::Success ==> self.release_id is None
            && self.confidence is None
    }
}

/// A ranked MusicBrainz alternative attached to a match.
#[derive(Debug)]
pub struct MusicbrainzCandidateRecord {
    pub match_id: String,
    pub release_id: Option<String>,
    pub score: Option<u32>,
    pub raw_payload: String,
}

/// The streaming-service origin of a track: origin id, permalink, the liked
/// timestamp read from the origin document, and the document itself.
#[derive(Debug)]
pub struct SoundcloudSourceRecord {
    pub track_id: String,
    pub soundcloud_id: String,
    pub permalink_url: Option<String>,
    pub liked_at: Option<String>,
    pub raw_payload: String,
}

/// The snapshot handed back for retrying a lookup: track fields joined with
/// the streaming-service source, if one is linked.
#[derive(Debug)]
pub struct SoundcloudLookupRecord {
    pub track_id: String,
    pub title: Option<String>,
    pub artist: Option<String>,
    pub soundcloud_id: Option<String>,
    pub permalink_url: Option<String>,
    pub raw_payload: Option<String>,
}

/// A local audio file associated with a track.
#[derive(Debug)]
pub struct LocalAssetRecord {
    pub track_id: String,
    pub location: String,
    pub checksum: Option<String>,
    pub available: bool,
    pub duration_ms: Option<i64>,
    pub rekordbox_cues: Option<String>,
}

/// One row of the status listing: the track joined with its sources, matches
/// and local asset.
#[derive(Debug)]
pub struct LibraryStatusRow {
    pub track_id: String,
    pub title: Option<String>,
    pub artist: Option<String>,
    pub album: Option<String>,
    pub liked: bool,
    pub matched: bool,
    pub has_local_file: bool,
    pub local_available: bool,
    pub in_rekordbox: bool,
    pub discogs_status: Option<String>,
    pub discogs_release_id: Option<String>,
    pub discogs_confidence: Option<u32>,
    pub discogs_checked_at: Option<String>,
    pub discogs_message: Option<String>,
    pub musicbrainz_status: Option<String>,
    pub musicbrainz_release_id: Option<String>,
    pub musicbrainz_confidence: Option<u32>,
    pub musicbrainz_checked_at: Option<String>,
    pub musicbrainz_message: Option<String>,
    pub soundcloud_permalink_url: Option<String>,
    pub soundcloud_liked_at: Option<String>,
    pub local_location: Option<String>,
    pub updated_at: u64,
}

/// A page of the status listing.
#[derive(Debug)]
pub struct LibraryStatusPage {
    pub rows: Vec<LibraryStatusRow>,
    pub total: u32,
    pub limit: u32,
    pub offset: u32,
}

/// Filtering and pagination options for the status listing.
#[derive(Clone, Copy, Debug)]
pub struct StatusFilter {
    pub missing_assets_only: bool,
    pub unresolved_discogs_only: bool,
    pub liked_only: bool,
    pub rekordbox_only: bool,
    pub limit: Option<u32>,
    pub offset: Option<u32>,
}

impl Default for StatusFilter {
    fn default() -> (r: Self)
        ensures
            !r.missing_assets_only,
            !r.unresolved_discogs_only,
            !r.liked_only,
            !r.rekordbox_only,
            r.limit is None,
            r.offset is None,
    {
        StatusFilter {
            missing_assets_only: false,
            unresolved_discogs_only: false,
            liked_only: false,
            rekordbox_only: false,
            limit: None,
            offset: None,
        }
    }
}

/// The store's error taxonomy. The verified in-memory store itself never
/// fails; the variants describe faults of the surrounding persistence and
/// serialization layers and are produced there.
#[derive(Debug)]
pub enum LibraryError {
    AppDataDirUnavailable,
    Io(String),
    Database(String),
    Serialization(String),
}

impl LibraryError {
    /// A descriptive message, in place of a display implementation.
    pub fn message(&self) -> (r: String)
        ensures
            self matches LibraryError::AppDataDirUnavailable ==> r@
                == "unable to resolve application data directory"@,
            self matches LibraryError::Io(d) ==> r@ == "filesystem error: "@ + d@,
            self matches LibraryError::Database(d) ==> r@ == "database error: "@ + d@,
            self matches LibraryError::Serialization(d) ==> r@ == "serialization error: "@ + d@,
    {
        match self {
            LibraryError::AppDataDirUnavailable => String::from_str(
                "unable to resolve application data directory",
            ),
            LibraryError::Io(detail) => concat_label("filesystem error: ", detail),
            LibraryError::Database(detail) => concat_label("database error: ", detail),
            LibraryError::Serialization(detail) => concat_label("serialization error: ", detail),
        }
    }
}

/// Join a fixed label with a detail string.
pub fn concat_label(label: &str, detail: &String) -> (r: String)
    ensures
        r@ == label@ + detail@,
{
    let mut out = String::from_str(label);
    out.append(detail.as_str());
    out
}

} // verus!
