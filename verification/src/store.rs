//! The relational store: six in-memory tables keyed by track identity, an
//! explicit well-formedness invariant (unique keys, referential integrity,
//! a strictly growing update clock), and the upsert, match-recording,
//! listing and reconciliation operations over them.
//!
//! Every mutating operation is total: the verified store never fails, so
//! each returns `Ok` and its contract pins the whole effect. Persistence to
//! an on-disk database is the caller's concern.

use vstd::prelude::*;

verus! {

use crate::records::{
    CandidateSeed, DiscogsCandidateRecord, DiscogsMatchRecord, DiscogsMatchStatus, LegacyMatchPayload,
    LibraryError, LibraryStatusPage, LibraryStatusRow, LocalAssetRecord, MatchStatus,
    MusicbrainzCandidateRecord, MusicbrainzMatchRecord, MusicbrainzMatchStatus,
    SoundcloudLookupRecord, SoundcloudSourceRecord, StatusFilter, TrackRecord, clone_opt_string, ov,
};
use crate::table::{
    KeyedRow, find_index, find_row, has_row, lemma_find_row_absent, lemma_find_row_at_key,
    lemma_find_row_none,
    lemma_find_row_push_all, lemma_find_row_witness,
    lemma_find_row_remove_all, lemma_find_row_update_all, lemma_rows_with_all,
    lemma_rows_with_append, lemma_rows_with_without,
    lemma_rows_without_members, lemma_rows_with_none, remove_by_key, retain_without, rows_with,
    rows_without, unique_keys, upsert_row, check_unique, check_refs,
};
use crate::importer::{RekordboxTrack, rb_track_id, make_rb_track_id, lemma_rb_track_id_injective};

/// A track row: identity, descriptive fields, the denormalized per-catalog
/// summary, the legacy match payloads awaiting migration, and the logical
/// time of the last update.
pub struct TrackRow {
    pub track_id: String,
    pub title: Option<String>,
    pub artist: Option<String>,
    pub album: Option<String>,
    pub discogs_release_id: Option<String>,
    pub discogs_confidence: Option<u32>,
    pub musicbrainz_release_id: Option<String>,
    pub musicbrainz_confidence: Option<u32>,
    pub discogs_payload: Option<LegacyMatchPayload>,
    pub musicbrainz_payload: Option<LegacyMatchPayload>,
    pub updated_at: u64,
}

/// The streaming-service origin of a track.
pub struct SourceRow {
    pub track_id: String,
    pub soundcloud_id: String,
    pub permalink_url: Option<String>,
    pub liked_at: Option<String>,
    pub raw_payload: String,
}

/// What the DJ-library source row holds: either the cue document recorded
/// with a local asset, or the full imported library record.
pub enum RekordboxPayload {
    CueDocument(String),
    LibraryTrack(RekordboxTrack),
}

/// The DJ-library origin of a track.
pub struct RekordboxSourceRow {
    pub track_id: String,
    pub payload: RekordboxPayload,
}

/// A local audio file associated with a track.
pub struct AssetRow {
    pub track_id: String,
    pub location: String,
    pub checksum: Option<String>,
    pub available: bool,
    pub duration_ms: Option<i64>,
}

/// A stable association from a DJ-library internal id to a track identity.
pub struct MappingRow {
    pub rekordbox_id: String,
    pub track_id: String,
}

/// One catalog's match state for a track.
pub struct MatchRow {
    pub track_id: String,
    pub release_id: Option<String>,
    pub confidence: Option<u32>,
    pub status: MatchStatus,
    pub query: Option<String>,
    pub message: Option<String>,
    pub checked_at: Option<String>,
}

/// A ranked candidate attached to one catalog's match.
pub struct CandidateRow {
    pub match_id: String,
    pub release_id: Option<String>,
    pub score: Option<u32>,
    pub raw_payload: String,
}

impl KeyedRow for TrackRow {
    open spec fn skey(self) -> Seq<char> {
        self.track_id@
    }

    fn key(&self) -> (r: &String) {
        &self.track_id
    }
}

impl KeyedRow for SourceRow {
    open spec fn skey(self) -> Seq<char> {
        self.track_id@
    }

    fn key(&self) -> (r: &String) {
        &self.track_id
    }
}

impl KeyedRow for RekordboxSourceRow {
    open spec fn skey(self) -> Seq<char> {
        self.track_id@
    }

    fn key(&self) -> (r: &String) {
        &self.track_id
    }
}

impl KeyedRow for AssetRow {
    open spec fn skey(self) -> Seq<char> {
        self.track_id@
    }

    fn key(&self) -> (r: &String) {
        &self.track_id
    }
}

impl KeyedRow for MappingRow {
    open spec fn skey(self) -> Seq<char> {
        self.rekordbox_id@
    }

    fn key(&self) -> (r: &String) {
        &self.rekordbox_id
    }
}

impl KeyedRow for MatchRow {
    open spec fn skey(self) -> Seq<char> {
        self.track_id@
    }

    fn key(&self) -> (r: &String) {
        &self.track_id
    }
}

impl KeyedRow for CandidateRow {
    open spec fn skey(self) -> Seq<char> {
        self.match_id@
    }

    fn key(&self) -> (r: &String) {
        &self.match_id
    }
}

/// The store: one vector per table, plus the logical update clock.
pub struct LibraryStore {
    pub tracks: Vec<TrackRow>,
    pub soundcloud_sources: Vec<SourceRow>,
    pub rekordbox_sources: Vec<RekordboxSourceRow>,
    pub local_assets: Vec<AssetRow>,
    pub rekordbox_mappings: Vec<MappingRow>,
    pub discogs_matches: Vec<MatchRow>,
    pub musicbrainz_matches: Vec<MatchRow>,
    pub discogs_candidates: Vec<CandidateRow>,
    pub musicbrainz_candidates: Vec<CandidateRow>,
    pub clock: u64,
}

impl LibraryStore {
    pub open spec fn track(self, id: Seq<char>) -> Option<TrackRow> {
        find_row(self.tracks@, id)
    }

    pub open spec fn soundcloud_source(self, id: Seq<char>) -> Option<SourceRow> {
        find_row(self.soundcloud_sources@, id)
    }

    pub open spec fn rekordbox_source(self, id: Seq<char>) -> Option<RekordboxSourceRow> {
        find_row(self.rekordbox_sources@, id)
    }

    pub open spec fn asset(self, id: Seq<char>) -> Option<AssetRow> {
        find_row(self.local_assets@, id)
    }

    pub open spec fn mapping(self, rekordbox_id: Seq<char>) -> Option<MappingRow> {
        find_row(self.rekordbox_mappings@, rekordbox_id)
    }

    pub open spec fn discogs_match(self, id: Seq<char>) -> Option<MatchRow> {
        find_row(self.discogs_matches@, id)
    }

    pub open spec fn musicbrainz_match(self, id: Seq<char>) -> Option<MatchRow> {
        find_row(self.musicbrainz_matches@, id)
    }

    pub open spec fn discogs_cands(self, id: Seq<char>) -> Seq<CandidateRow> {
        rows_with(self.discogs_candidates@, id)
    }

    pub open spec fn musicbrainz_cands(self, id: Seq<char>) -> Seq<CandidateRow> {
        rows_with(self.musicbrainz_candidates@, id)
    }

    /// Well-formedness: unique keys per table; every dependent row references
    /// an existing track; every candidate references its match row; every
    /// mapping points at the identity minted from its own external id; update
    /// stamps are below the clock and pairwise distinct.
    pub open spec fn wf(self) -> bool {
        &&& unique_keys(self.tracks@)
        &&& unique_keys(self.soundcloud_sources@)
        &&& unique_keys(self.rekordbox_sources@)
        &&& unique_keys(self.local_assets@)
        &&& unique_keys(self.rekordbox_mappings@)
        &&& unique_keys(self.discogs_matches@)
        &&& unique_keys(self.musicbrainz_matches@)
        &&& forall|k: int|
            0 <= k < self.soundcloud_sources@.len() ==> has_row(
                self.tracks@,
                (#[trigger] self.soundcloud_sources@[k]).skey(),
            )
        &&& forall|k: int|
            0 <= k < self.rekordbox_sources@.len() ==> has_row(
                self.tracks@,
                (#[trigger] self.rekordbox_sources@[k]).skey(),
            )
        &&& forall|k: int|
            0 <= k < self.local_assets@.len() ==> has_row(
                self.tracks@,
                (#[trigger] self.local_assets@[k]).skey(),
            )
        &&& forall|k: int|
            0 <= k < self.rekordbox_mappings@.len() ==> has_row(
                self.tracks@,
                (#[trigger] self.rekordbox_mappings@[k]).track_id@,
            )
        &&& forall|k: int|
            0 <= k < self.rekordbox_mappings@.len()
                ==> (#[trigger] self.rekordbox_mappings@[k]).track_id@ == rb_track_id(
                self.rekordbox_mappings@[k].rekordbox_id@,
            )
        &&& forall|k: int|
            0 <= k < self.discogs_matches@.len() ==> has_row(
                self.tracks@,
                (#[trigger] self.discogs_matches@[k]).skey(),
            )
        &&& forall|k: int|
            0 <= k < self.musicbrainz_matches@.len() ==> has_row(
                self.tracks@,
                (#[trigger] self.musicbrainz_matches@[k]).skey(),
            )
        &&& forall|k: int|
            0 <= k < self.discogs_candidates@.len() ==> has_row(
                self.discogs_matches@,
                (#[trigger] self.discogs_candidates@[k]).skey(),
            )
        &&& forall|k: int|
            0 <= k < self.musicbrainz_candidates@.len() ==> has_row(
                self.musicbrainz_matches@,
                (#[trigger] self.musicbrainz_candidates@[k]).skey(),
            )
        &&& forall|k: int|
            0 <= k < self.tracks@.len() ==> (#[trigger] self.tracks@[k]).updated_at < self.clock
        &&& forall|i: int, j: int|
            0 <= i < j < self.tracks@.len() ==> self.tracks@[i].updated_at
                != self.tracks@[j].updated_at
    }

    /// An empty store.
    pub fn new() -> (r: Self)
        ensures
            r.wf(),
            r.tracks@.len() == 0,
            r.soundcloud_sources@.len() == 0,
            r.rekordbox_sources@.len() == 0,
            r.local_assets@.len() == 0,
            r.rekordbox_mappings@.len() == 0,
            r.discogs_matches@.len() == 0,
            r.musicbrainz_matches@.len() == 0,
            r.discogs_candidates@.len() == 0,
            r.musicbrainz_candidates@.len() == 0,
            r.clock == 0,
    {
        LibraryStore {
            tracks: Vec::new(),
            soundcloud_sources: Vec::new(),
            rekordbox_sources: Vec::new(),
            local_assets: Vec::new(),
            rekordbox_mappings: Vec::new(),
            discogs_matches: Vec::new(),
            musicbrainz_matches: Vec::new(),
            discogs_candidates: Vec::new(),
            musicbrainz_candidates: Vec::new(),
            clock: 0,
        }
    }
}

/// A bare track row holding only its identity, as created when a dependent
/// row arrives before the track itself.
pub open spec fn bare_track_row(id: String, stamp: u64) -> TrackRow {
    TrackRow {
        track_id: id,
        title: None,
        artist: None,
        album: None,
        discogs_release_id: None,
        discogs_confidence: None,
        musicbrainz_release_id: None,
        musicbrainz_confidence: None,
        discogs_payload: None,
        musicbrainz_payload: None,
        updated_at: stamp,
    }
}

/// The row an upsert writes: the record's fields, the previous row's legacy
/// Discogs payload (the upsert does not carry one), a fresh stamp.
pub open spec fn upserted_track_row(record: TrackRecord, prev: Option<TrackRow>, stamp: u64) -> TrackRow {
    TrackRow {
        track_id: record.track_id,
        title: record.title,
        artist: record.artist,
        album: record.album,
        discogs_release_id: record.discogs_release_id,
        discogs_confidence: record.discogs_confidence,
        musicbrainz_release_id: record.musicbrainz_release_id,
        musicbrainz_confidence: record.musicbrainz_confidence,
        discogs_payload: match prev {
            Some(t) => t.discogs_payload,
            None => None,
        },
        musicbrainz_payload: record.musicbrainz_payload,
        updated_at: stamp,
    }
}

impl LibraryStore {
    /// Insert a bare row for the track when none exists yet.
    fn ensure_track(&mut self, track_id: &String)
        requires
            old(self).wf(),
            old(self).clock < u64::MAX,
        ensures
            final(self).wf(),
            final(self).soundcloud_sources@ == old(self).soundcloud_sources@,
            final(self).rekordbox_sources@ == old(self).rekordbox_sources@,
            final(self).local_assets@ == old(self).local_assets@,
            final(self).rekordbox_mappings@ == old(self).rekordbox_mappings@,
            final(self).discogs_matches@ == old(self).discogs_matches@,
            final(self).musicbrainz_matches@ == old(self).musicbrainz_matches@,
            final(self).discogs_candidates@ == old(self).discogs_candidates@,
            final(self).musicbrainz_candidates@ == old(self).musicbrainz_candidates@,
            old(self).track(track_id@) is Some ==> final(self).tracks@ == old(self).tracks@
                && final(self).clock == old(self).clock,
            old(self).track(track_id@) is None ==> final(self).tracks@ == old(self).tracks@.push(
                bare_track_row(*track_id, old(self).clock),
            ) && final(self).clock == old(self).clock + 1,
            final(self).track(track_id@) is Some,
            old(self).track(track_id@) is None ==> final(self).track(track_id@) == Some(
                bare_track_row(*track_id, old(self).clock),
            ),
            forall|id: Seq<char>|
                id != track_id@ ==> final(self).track(id) == old(self).track(id),
            forall|id: Seq<char>|
                old(self).track(id) is Some ==> final(self).track(id) == old(self).track(id),
    {
        let present = find_index(&self.tracks, track_id);
        match present {
            Some(_) => {},
            None => {
                let row = TrackRow {
                    track_id: track_id.clone(),
                    title: None,
                    artist: None,
                    album: None,
                    discogs_release_id: None,
                    discogs_confidence: None,
                    musicbrainz_release_id: None,
                    musicbrainz_confidence: None,
                    discogs_payload: None,
                    musicbrainz_payload: None,
                    updated_at: self.clock,
                };
                proof {
                    assert(row == bare_track_row(*track_id, old(self).clock));
                    lemma_find_row_none(self.tracks@, track_id@);
                    lemma_find_row_push_all(self.tracks@, row);
                }
                self.tracks.push(row);
                self.clock = self.clock + 1;
                proof {
                    let prev = old(self).tracks@;
                    assert(forall|k: int| 0 <= k < prev.len() ==> self.tracks@[k] == prev[k]);
                    assert(self.tracks@[prev.len() as int] == row);
                }
            },
        }
    }

    /// Insert or update the track row; a duplicate id resolves to an update
    /// that keeps the legacy Discogs payload and refreshes the stamp.
    pub fn upsert_track(&mut self, record: TrackRecord) -> (r: Result<(), LibraryError>)
        requires
            old(self).wf(),
            old(self).clock < u64::MAX,
        ensures
            r is Ok,
            final(self).wf(),
            final(self).soundcloud_sources@ == old(self).soundcloud_sources@,
            final(self).rekordbox_sources@ == old(self).rekordbox_sources@,
            final(self).local_assets@ == old(self).local_assets@,
            final(self).rekordbox_mappings@ == old(self).rekordbox_mappings@,
            final(self).discogs_matches@ == old(self).discogs_matches@,
            final(self).musicbrainz_matches@ == old(self).musicbrainz_matches@,
            final(self).discogs_candidates@ == old(self).discogs_candidates@,
            final(self).musicbrainz_candidates@ == old(self).musicbrainz_candidates@,
            final(self).clock == old(self).clock + 1,
            final(self).track(record.track_id@) == Some(
                upserted_track_row(record, old(self).track(record.track_id@), old(self).clock),
            ),
            forall|id: Seq<char>|
                id != record.track_id@ ==> final(self).track(id) == old(self).track(id),
            final(self).tracks@.len() == old(self).tracks@.len() + (
            if old(self).track(record.track_id@) is Some {
                0int
            } else {
                1int
            }),
            forall|id: Seq<char>|
                id != record.track_id@ && final(self).track(id) is Some ==> final(self).track(
                    id,
                )->Some_0.updated_at < old(self).clock,
    {
        let present = find_index(&self.tracks, &record.track_id);
        match present {
            Some(k) => {
                let old_row = self.tracks.remove(k);
                proof {
                    lemma_find_row_remove_all(old(self).tracks@, k as int);
                    lemma_find_row_none(self.tracks@, record.track_id@);
                }
                let row = TrackRow {
                    track_id: record.track_id,
                    title: record.title,
                    artist: record.artist,
                    album: record.album,
                    discogs_release_id: record.discogs_release_id,
                    discogs_confidence: record.discogs_confidence,
                    musicbrainz_release_id: record.musicbrainz_release_id,
                    musicbrainz_confidence: record.musicbrainz_confidence,
                    discogs_payload: old_row.discogs_payload,
                    musicbrainz_payload: record.musicbrainz_payload,
                    updated_at: self.clock,
                };
                proof {
                    lemma_find_row_push_all(self.tracks@, row);
                }
                self.tracks.push(row);
                self.clock = self.clock + 1;
                proof {
                    let mid = old(self).tracks@.remove(k as int);
                    assert(forall|j: int| 0 <= j < mid.len() ==> self.tracks@[j] == mid[j]);
                    assert(self.tracks@[mid.len() as int] == row);
                    assert(forall|j: int, jk: int|
                        0 <= j < mid.len() && 0 <= jk < old(self).tracks@.len() && (mid[j]
                            == old(self).tracks@[jk]) ==> true);
                    assert forall|j: int| 0 <= j < mid.len() implies mid[j].updated_at < old(self).clock && mid[j].skey() != record.track_id@ by {
                        if j < k {
                            assert(mid[j] == old(self).tracks@[j]);
                        } else {
                            assert(mid[j] == old(self).tracks@[j + 1]);
                        }
                    }
                    assert forall|i: int, j: int| 0 <= i < j < mid.len() implies mid[i].updated_at
                        != mid[j].updated_at by {
                        if j < k {
                        } else if i < k {
                            assert(mid[i] == old(self).tracks@[i]);
                            assert(mid[j] == old(self).tracks@[j + 1]);
                        } else {
                            assert(mid[i] == old(self).tracks@[i + 1]);
                            assert(mid[j] == old(self).tracks@[j + 1]);
                        }
                    }
                }
            },
            None => {
                let row = TrackRow {
                    track_id: record.track_id,
                    title: record.title,
                    artist: record.artist,
                    album: record.album,
                    discogs_release_id: record.discogs_release_id,
                    discogs_confidence: record.discogs_confidence,
                    musicbrainz_release_id: record.musicbrainz_release_id,
                    musicbrainz_confidence: record.musicbrainz_confidence,
                    discogs_payload: None,
                    musicbrainz_payload: record.musicbrainz_payload,
                    updated_at: self.clock,
                };
                proof {
                    lemma_find_row_none(self.tracks@, row.track_id@);
                    lemma_find_row_push_all(self.tracks@, row);
                }
                self.tracks.push(row);
                self.clock = self.clock + 1;
                proof {
                    let prev = old(self).tracks@;
                    assert(forall|j: int| 0 <= j < prev.len() ==> self.tracks@[j] == prev[j]);
                    assert(self.tracks@[prev.len() as int] == row);
                }
            },
        }
        proof {
            assert forall|id: Seq<char>|
                id != record.track_id@ && self.track(id) is Some implies self.track(
                id,
            )->Some_0.updated_at < old(self).clock by {
                assert(self.track(id) == old(self).track(id));
                let w = lemma_find_row_witness(old(self).tracks@, id);
            }
        }
        Ok(())
    }
}

/// A track row with one catalog's denormalized summary replaced and the
/// stamp refreshed.
pub open spec fn summary_row(
    t: TrackRow,
    release_id: Option<String>,
    confidence: Option<u32>,
    discogs: bool,
    stamp: u64,
) -> TrackRow {
    if discogs {
        TrackRow { discogs_release_id: release_id, discogs_confidence: confidence, updated_at: stamp, ..t }
    } else {
        TrackRow {
            musicbrainz_release_id: release_id,
            musicbrainz_confidence: confidence,
            updated_at: stamp,
            ..t
        }
    }
}

/// The match row a Discogs match record denotes.
pub open spec fn discogs_match_row(r: DiscogsMatchRecord) -> MatchRow {
    MatchRow {
        track_id: r.track_id,
        release_id: r.release_id,
        confidence: r.confidence,
        status: r.status.shared(),
        query: r.query,
        message: r.message,
        checked_at: r.checked_at,
    }
}

/// The match row a MusicBrainz match record denotes.
pub open spec fn musicbrainz_match_row(r: MusicbrainzMatchRecord) -> MatchRow {
    MatchRow {
        track_id: r.track_id,
        release_id: r.release_id,
        confidence: r.confidence,
        status: r.status.shared(),
        query: r.query,
        message: r.message,
        checked_at: r.checked_at,
    }
}

/// The candidate row a Discogs candidate record denotes.
pub open spec fn dc_cand_row(c: DiscogsCandidateRecord) -> CandidateRow {
    CandidateRow {
        match_id: c.match_id,
        release_id: c.release_id,
        score: c.score,
        raw_payload: c.raw_payload,
    }
}

/// The candidate row a MusicBrainz candidate record denotes.
pub open spec fn mb_cand_row(c: MusicbrainzCandidateRecord) -> CandidateRow {
    CandidateRow {
        match_id: c.match_id,
        release_id: c.release_id,
        score: c.score,
        raw_payload: c.raw_payload,
    }
}

/// The candidate rows stored for a match: the given candidates that belong
/// to this track, in order; the others are dropped.
pub open spec fn dc_rows_for(cands: Seq<DiscogsCandidateRecord>, id: Seq<char>) -> Seq<CandidateRow>
    decreases cands.len(),
{
    if cands.len() == 0 {
        Seq::empty()
    } else {
        let rest = dc_rows_for(cands.drop_last(), id);
        if cands.last().match_id@ == id {
            rest.push(dc_cand_row(cands.last()))
        } else {
            rest
        }
    }
}

/// See [`dc_rows_for`].
pub open spec fn mb_rows_for(
    cands: Seq<MusicbrainzCandidateRecord>,
    id: Seq<char>,
) -> Seq<CandidateRow>
    decreases cands.len(),
{
    if cands.len() == 0 {
        Seq::empty()
    } else {
        let rest = mb_rows_for(cands.drop_last(), id);
        if cands.last().match_id@ == id {
            rest.push(mb_cand_row(cands.last()))
        } else {
            rest
        }
    }
}

pub proof fn lemma_dc_rows_for_members(cands: Seq<DiscogsCandidateRecord>, id: Seq<char>)
    ensures
        dc_rows_for(cands, id).len() <= cands.len(),
        forall|k: int|
            0 <= k < dc_rows_for(cands, id).len() ==> (#[trigger] dc_rows_for(cands, id)[k]).skey()
                == id,
    decreases cands.len(),
{
    if cands.len() > 0 {
        lemma_dc_rows_for_members(cands.drop_last(), id);
    }
}

pub proof fn lemma_mb_rows_for_members(cands: Seq<MusicbrainzCandidateRecord>, id: Seq<char>)
    ensures
        mb_rows_for(cands, id).len() <= cands.len(),
        forall|k: int|
            0 <= k < mb_rows_for(cands, id).len() ==> (#[trigger] mb_rows_for(cands, id)[k]).skey()
                == id,
    decreases cands.len(),
{
    if cands.len() > 0 {
        lemma_mb_rows_for_members(cands.drop_last(), id);
    }
}

impl LibraryStore {
    /// Replace one catalog's denormalized summary on an existing track row
    /// and refresh its stamp.
    fn touch_track_summary(
        &mut self,
        track_id: &String,
        release_id: Option<String>,
        confidence: Option<u32>,
        discogs: bool,
    )
        requires
            old(self).wf(),
            old(self).track(track_id@) is Some,
            old(self).clock < u64::MAX,
        ensures
            final(self).wf(),
            final(self).soundcloud_sources@ == old(self).soundcloud_sources@,
            final(self).rekordbox_sources@ == old(self).rekordbox_sources@,
            final(self).local_assets@ == old(self).local_assets@,
            final(self).rekordbox_mappings@ == old(self).rekordbox_mappings@,
            final(self).discogs_matches@ == old(self).discogs_matches@,
            final(self).musicbrainz_matches@ == old(self).musicbrainz_matches@,
            final(self).discogs_candidates@ == old(self).discogs_candidates@,
            final(self).musicbrainz_candidates@ == old(self).musicbrainz_candidates@,
            final(self).clock == old(self).clock + 1,
            final(self).track(track_id@) == Some(
                summary_row(
                    old(self).track(track_id@)->Some_0,
                    release_id,
                    confidence,
                    discogs,
                    old(self).clock,
                ),
            ),
            forall|id: Seq<char>|
                id != track_id@ ==> final(self).track(id) == old(self).track(id),
            final(self).tracks@.len() == old(self).tracks@.len(),
    {
        let idx = find_index(&self.tracks, track_id);
        let k = match idx {
            Some(k) => k,
            None => {
                proof {
                    assert(false);
                }
                0
            },
        };
        let old_row = self.tracks.remove(k);
        proof {
            lemma_find_row_remove_all(old(self).tracks@, k as int);
        }
        let row = if discogs {
            TrackRow {
                discogs_release_id: release_id,
                discogs_confidence: confidence,
                updated_at: self.clock,
                ..old_row
            }
        } else {
            TrackRow {
                musicbrainz_release_id: release_id,
                musicbrainz_confidence: confidence,
                updated_at: self.clock,
                ..old_row
            }
        };
        proof {
            lemma_find_row_push_all(self.tracks@, row);
        }
        self.tracks.push(row);
        self.clock = self.clock + 1;
        proof {
            let orig = old(self).tracks@;
            let mid = orig.remove(k as int);
            assert(forall|j: int| 0 <= j < mid.len() ==> self.tracks@[j] == mid[j]);
            assert(self.tracks@[mid.len() as int] == row);
            assert forall|j: int| 0 <= j < mid.len() implies mid[j].updated_at < old(self).clock
                && mid[j].skey() != track_id@ by {
                if j < k {
                    assert(mid[j] == orig[j]);
                } else {
                    assert(mid[j] == orig[j + 1]);
                }
            }
            assert forall|i: int, j: int| 0 <= i < j < mid.len() implies mid[i].updated_at
                != mid[j].updated_at by {
                if j < k {
                } else if i < k {
                    assert(mid[i] == orig[i] && mid[j] == orig[j + 1]);
                } else {
                    assert(mid[i] == orig[i + 1] && mid[j] == orig[j + 1]);
                }
            }
        }
    }

    /// Record one Discogs lookup verdict in a single step: ensure the track,
    /// replace the match row, refresh the track's summary, and replace the
    /// candidate set wholesale. Nothing else changes, so a failure can never
    /// leave a partial candidate set behind.
    pub fn record_discogs_match(
        &mut self,
        record: DiscogsMatchRecord,
        candidates: Vec<DiscogsCandidateRecord>,
    ) -> (r: Result<(), LibraryError>)
        requires
            old(self).wf(),
            record.wf(),
            record.status == DiscogsMatchStatus::Error ==> candidates@.len() == 0,
            old(self).clock + 2 <= u64::MAX,
        ensures
            r is Ok,
            final(self).wf(),
            final(self).soundcloud_sources@ == old(self).soundcloud_sources@,
            final(self).rekordbox_sources@ == old(self).rekordbox_sources@,
            final(self).local_assets@ == old(self).local_assets@,
            final(self).rekordbox_mappings@ == old(self).rekordbox_mappings@,
            final(self).musicbrainz_matches@ == old(self).musicbrainz_matches@,
            final(self).musicbrainz_candidates@ == old(self).musicbrainz_candidates@,
            final(self).discogs_match(record.track_id@) == Some(discogs_match_row(record)),
            forall|id: Seq<char>|
                id != record.track_id@ ==> final(self).discogs_match(id) == old(self).discogs_match(
                    id,
                ),
            final(self).discogs_cands(record.track_id@) == dc_rows_for(
                candidates@,
                record.track_id@,
            ),
            forall|id: Seq<char>|
                id != record.track_id@ ==> final(self).discogs_cands(id) == old(self).discogs_cands(
                    id,
                ),
            final(self).track(record.track_id@) is Some,
            final(self).track(record.track_id@) == Some(
                summary_row(
                    match old(self).track(record.track_id@) {
                        Some(t) => t,
                        None => bare_track_row(record.track_id, old(self).clock),
                    },
                    record.release_id,
                    record.confidence,
                    true,
                    (final(self).clock - 1) as u64,
                ),
            ),
            forall|id: Seq<char>|
                id != record.track_id@ ==> final(self).track(id) == old(self).track(id),
            old(self).clock + 1 <= final(self).clock <= old(self).clock + 2,
    {
        let track_id = record.track_id.clone();
        self.ensure_track(&track_id);
        self.touch_track_summary(
            &track_id,
            clone_opt_string(&record.release_id),
            record.confidence,
            true,
        );
        let mrow = MatchRow {
            track_id: record.track_id,
            release_id: record.release_id,
            confidence: record.confidence,
            status: record.status.as_shared(),
            query: record.query,
            message: record.message,
            checked_at: record.checked_at,
        };
        proof {
            assert(mrow == discogs_match_row(record));
        }
        let ghost matches_mid = self.discogs_matches@;
        upsert_row(&mut self.discogs_matches, mrow);
        let ghost old_c = self.discogs_candidates@;
        let mut new_rows: Vec<CandidateRow> = Vec::new();
        let mut cands = candidates;
        let ghost orig_c = cands@;
        let ghost mut k: int = 0;
        proof {
            assert(cands@ =~= orig_c.subrange(0, orig_c.len() as int));
        }
        while cands.len() > 0
            invariant
                0 <= k <= orig_c.len(),
                cands@ == orig_c.subrange(k, orig_c.len() as int),
                new_rows@ == dc_rows_for(orig_c.subrange(0, k), track_id@),
            decreases cands@.len(),
        {
            let c = cands.remove(0);
            proof {
                assert(c == orig_c[k]);
                assert(cands@ =~= orig_c.subrange(k + 1, orig_c.len() as int));
                assert(orig_c.subrange(0, k + 1).drop_last() =~= orig_c.subrange(0, k));
                assert(orig_c.subrange(0, k + 1).last() == orig_c[k]);
            }
            if c.match_id.eq(&track_id) {
                let crow = CandidateRow {
                    match_id: c.match_id,
                    release_id: c.release_id,
                    score: c.score,
                    raw_payload: c.raw_payload,
                };
                proof {
                    assert(crow == dc_cand_row(orig_c[k]));
                }
                new_rows.push(crow);
            }
            proof {
                k = k + 1;
            }
        }
        proof {
            assert(orig_c.subrange(0, orig_c.len() as int) =~= orig_c);
        }
        retain_without(&mut self.discogs_candidates, &track_id);
        let ghost kept = self.discogs_candidates@;
        let ghost news = new_rows@;
        self.discogs_candidates.append(&mut new_rows);
        proof {
            assert(self.discogs_candidates@ == kept + news);
            lemma_dc_rows_for_members(orig_c, track_id@);
            lemma_rows_without_members(old_c, track_id@);
            lemma_rows_with_append(kept, news, track_id@);
            lemma_rows_with_without(old_c, track_id@, track_id@);
            lemma_rows_with_all(news, track_id@);
            assert(rows_with(kept, track_id@) + news =~= news);
            assert(self.discogs_cands(track_id@) == dc_rows_for(candidates@, track_id@));
            assert forall|id2: Seq<char>| id2 != track_id@ implies rows_with(
                self.discogs_candidates@,
                id2,
            ) == rows_with(old_c, id2) by {
                lemma_rows_with_append(kept, news, id2);
                lemma_rows_with_without(old_c, track_id@, id2);
                lemma_rows_with_none(news, id2);
                assert(rows_with(kept, id2) + rows_with(news, id2) =~= rows_with(kept, id2));
            }
            // well-formedness of the candidate table's references
            assert forall|j: int| 0 <= j < self.discogs_candidates@.len() implies has_row(
                self.discogs_matches@,
                (#[trigger] self.discogs_candidates@[j]).skey(),
            ) by {
                if j < kept.len() {
                    assert(self.discogs_candidates@[j] == kept[j]);
                    assert(old_c.contains(kept[j]));
                    let w = choose|w: int| 0 <= w < old_c.len() && old_c[w] == kept[j];
                    assert(has_row(matches_mid, old_c[w].skey()));
                } else {
                    assert(self.discogs_candidates@[j] == news[j - kept.len()]);
                }
            }
        }
        Ok(())
    }

    /// Record one MusicBrainz lookup verdict; see [`Self::record_discogs_match`].
    pub fn record_musicbrainz_match(
        &mut self,
        record: MusicbrainzMatchRecord,
        candidates: Vec<MusicbrainzCandidateRecord>,
    ) -> (r: Result<(), LibraryError>)
        requires
            old(self).wf(),
            record.wf(),
            record.status == MusicbrainzMatchStatus::Error ==> candidates@.len() == 0,
            old(self).clock + 2 <= u64::MAX,
        ensures
            r is Ok,
            final(self).wf(),
            final(self).soundcloud_sources@ == old(self).soundcloud_sources@,
            final(self).rekordbox_sources@ == old(self).rekordbox_sources@,
            final(self).local_assets@ == old(self).local_assets@,
            final(self).rekordbox_mappings@ == old(self).rekordbox_mappings@,
            final(self).discogs_matches@ == old(self).discogs_matches@,
            final(self).discogs_candidates@ == old(self).discogs_candidates@,
            final(self).musicbrainz_match(record.track_id@) == Some(musicbrainz_match_row(record)),
            forall|id: Seq<char>|
                id != record.track_id@ ==> final(self).musicbrainz_match(id) == old(self).musicbrainz_match(id),
            final(self).musicbrainz_cands(record.track_id@) == mb_rows_for(
                candidates@,
                record.track_id@,
            ),
            forall|id: Seq<char>|
                id != record.track_id@ ==> final(self).musicbrainz_cands(id) == old(self).musicbrainz_cands(id),
            final(self).track(record.track_id@) == Some(
                summary_row(
                    match old(self).track(record.track_id@) {
                        Some(t) => t,
                        None => bare_track_row(record.track_id, old(self).clock),
                    },
                    record.release_id,
                    record.confidence,
                    false,
                    (final(self).clock - 1) as u64,
                ),
            ),
            forall|id: Seq<char>|
                id != record.track_id@ ==> final(self).track(id) == old(self).track(id),
            old(self).clock + 1 <= final(self).clock <= old(self).clock + 2,
    {
        let track_id = record.track_id.clone();
        self.ensure_track(&track_id);
        self.touch_track_summary(
            &track_id,
            clone_opt_string(&record.release_id),
            record.confidence,
            false,
        );
        let mrow = MatchRow {
            track_id: record.track_id,
            release_id: record.release_id,
            confidence: record.confidence,
            status: record.status.as_shared(),
            query: record.query,
            message: record.message,
            checked_at: record.checked_at,
        };
        proof {
            assert(mrow == musicbrainz_match_row(record));
        }
        let ghost matches_mid = self.musicbrainz_matches@;
        upsert_row(&mut self.musicbrainz_matches, mrow);
        let ghost old_c = self.musicbrainz_candidates@;
        let mut new_rows: Vec<CandidateRow> = Vec::new();
        let mut cands = candidates;
        let ghost orig_c = cands@;
        let ghost mut k: int = 0;
        proof {
            assert(cands@ =~= orig_c.subrange(0, orig_c.len() as int));
        }
        while cands.len() > 0
            invariant
                0 <= k <= orig_c.len(),
                cands@ == orig_c.subrange(k, orig_c.len() as int),
                new_rows@ == mb_rows_for(orig_c.subrange(0, k), track_id@),
            decreases cands@.len(),
        {
            let c = cands.remove(0);
            proof {
                assert(c == orig_c[k]);
                assert(cands@ =~= orig_c.subrange(k + 1, orig_c.len() as int));
                assert(orig_c.subrange(0, k + 1).drop_last() =~= orig_c.subrange(0, k));
                assert(orig_c.subrange(0, k + 1).last() == orig_c[k]);
            }
            if c.match_id.eq(&track_id) {
                let crow = CandidateRow {
                    match_id: c.match_id,
                    release_id: c.release_id,
                    score: c.score,
                    raw_payload: c.raw_payload,
                };
                proof {
                    assert(crow == mb_cand_row(orig_c[k]));
                }
                new_rows.push(crow);
            }
            proof {
                k = k + 1;
            }
        }
        proof {
            assert(orig_c.subrange(0, orig_c.len() as int) =~= orig_c);
        }
        retain_without(&mut self.musicbrainz_candidates, &track_id);
        let ghost kept = self.musicbrainz_candidates@;
        let ghost news = new_rows@;
        self.musicbrainz_candidates.append(&mut new_rows);
        proof {
            assert(self.musicbrainz_candidates@ == kept + news);
            lemma_mb_rows_for_members(orig_c, track_id@);
            lemma_rows_without_members(old_c, track_id@);
            lemma_rows_with_append(kept, news, track_id@);
            lemma_rows_with_without(old_c, track_id@, track_id@);
            lemma_rows_with_all(news, track_id@);
            assert(rows_with(kept, track_id@) + news =~= news);
            assert(self.musicbrainz_cands(track_id@) == mb_rows_for(candidates@, track_id@));
            assert forall|id2: Seq<char>| id2 != track_id@ implies rows_with(
                self.musicbrainz_candidates@,
                id2,
            ) == rows_with(old_c, id2) by {
                lemma_rows_with_append(kept, news, id2);
                lemma_rows_with_without(old_c, track_id@, id2);
                lemma_rows_with_none(news, id2);
                assert(rows_with(kept, id2) + rows_with(news, id2) =~= rows_with(kept, id2));
            }
            assert forall|j: int| 0 <= j < self.musicbrainz_candidates@.len() implies has_row(
                self.musicbrainz_matches@,
                (#[trigger] self.musicbrainz_candidates@[j]).skey(),
            ) by {
                if j < kept.len() {
                    assert(self.musicbrainz_candidates@[j] == kept[j]);
                    assert(old_c.contains(kept[j]));
                    let w = choose|w: int| 0 <= w < old_c.len() && old_c[w] == kept[j];
                    assert(has_row(matches_mid, old_c[w].skey()));
                } else {
                    assert(self.musicbrainz_candidates@[j] == news[j - kept.len()]);
                }
            }
        }
        Ok(())
    }
}

/// The source row a streaming-service source record denotes.
pub open spec fn source_row_of(r: SoundcloudSourceRecord) -> SourceRow {
    SourceRow {
        track_id: r.track_id,
        soundcloud_id: r.soundcloud_id,
        permalink_url: r.permalink_url,
        liked_at: r.liked_at,
        raw_payload: r.raw_payload,
    }
}

/// The asset row a local-asset record denotes.
pub open spec fn asset_row_of(r: LocalAssetRecord) -> AssetRow {
    AssetRow {
        track_id: r.track_id,
        location: r.location,
        checksum: r.checksum,
        available: r.available,
        duration_ms: r.duration_ms,
    }
}

/// The lookup snapshot for a track row joined with its optional source row.
pub open spec fn lookup_record_of(t: TrackRow, s: Option<SourceRow>) -> SoundcloudLookupRecord {
    SoundcloudLookupRecord {
        track_id: t.track_id,
        title: t.title,
        artist: t.artist,
        soundcloud_id: match s {
            Some(x) => Some(x.soundcloud_id),
            None => None,
        },
        permalink_url: match s {
            Some(x) => x.permalink_url,
            None => None,
        },
        raw_payload: match s {
            Some(x) => Some(x.raw_payload),
            None => None,
        },
    }
}

impl LibraryStore {
    /// Ensure the track exists, then insert or replace its
    /// streaming-service source link.
    pub fn link_soundcloud_source(&mut self, record: SoundcloudSourceRecord) -> (r: Result<
        (),
        LibraryError,
    >)
        requires
            old(self).wf(),
            old(self).clock < u64::MAX,
        ensures
            r is Ok,
            final(self).wf(),
            final(self).rekordbox_sources@ == old(self).rekordbox_sources@,
            final(self).local_assets@ == old(self).local_assets@,
            final(self).rekordbox_mappings@ == old(self).rekordbox_mappings@,
            final(self).discogs_matches@ == old(self).discogs_matches@,
            final(self).musicbrainz_matches@ == old(self).musicbrainz_matches@,
            final(self).discogs_candidates@ == old(self).discogs_candidates@,
            final(self).musicbrainz_candidates@ == old(self).musicbrainz_candidates@,
            final(self).soundcloud_source(record.track_id@) == Some(source_row_of(record)),
            forall|id: Seq<char>|
                id != record.track_id@ ==> final(self).soundcloud_source(id) == old(self).soundcloud_source(id),
            final(self).track(record.track_id@) is Some,
            old(self).track(record.track_id@) is Some ==> final(self).tracks@ == old(self).tracks@
                && final(self).clock == old(self).clock,
            old(self).track(record.track_id@) is None ==> final(self).track(record.track_id@)
                == Some(bare_track_row(record.track_id, old(self).clock)) && final(self).clock
                == old(self).clock + 1,
            forall|id: Seq<char>|
                id != record.track_id@ ==> final(self).track(id) == old(self).track(id),
    {
        let track_id = record.track_id.clone();
        self.ensure_track(&track_id);
        let row = SourceRow {
            track_id: record.track_id,
            soundcloud_id: record.soundcloud_id,
            permalink_url: record.permalink_url,
            liked_at: record.liked_at,
            raw_payload: record.raw_payload,
        };
        proof {
            assert(row == source_row_of(record));
        }
        let ghost old_sources = self.soundcloud_sources@;
        upsert_row(&mut self.soundcloud_sources, row);
        proof {
            assert forall|j: int| 0 <= j < self.soundcloud_sources@.len() implies has_row(
                self.tracks@,
                (#[trigger] self.soundcloud_sources@[j]).skey(),
            ) by {
                let s = self.soundcloud_sources@[j];
                if s != row {
                    assert(old_sources.contains(s));
                    let w = choose|w: int| 0 <= w < old_sources.len() && old_sources[w] == s;
                    assert(has_row(old(self).tracks@, old_sources[w].skey()));
                }
            }
        }
        Ok(())
    }

    /// Atomically upsert a track and link its streaming-service source.
    pub fn sync_soundcloud_track(
        &mut self,
        track: TrackRecord,
        source: SoundcloudSourceRecord,
    ) -> (r: Result<(), LibraryError>)
        requires
            old(self).wf(),
            old(self).clock + 2 <= u64::MAX,
        ensures
            r is Ok,
            final(self).wf(),
            final(self).rekordbox_sources@ == old(self).rekordbox_sources@,
            final(self).local_assets@ == old(self).local_assets@,
            final(self).rekordbox_mappings@ == old(self).rekordbox_mappings@,
            final(self).discogs_matches@ == old(self).discogs_matches@,
            final(self).musicbrainz_matches@ == old(self).musicbrainz_matches@,
            final(self).discogs_candidates@ == old(self).discogs_candidates@,
            final(self).musicbrainz_candidates@ == old(self).musicbrainz_candidates@,
            final(self).soundcloud_source(source.track_id@) == Some(source_row_of(source)),
            forall|id: Seq<char>|
                id != source.track_id@ ==> final(self).soundcloud_source(id) == old(self).soundcloud_source(id),
            final(self).track(track.track_id@) == Some(
                upserted_track_row(track, old(self).track(track.track_id@), old(self).clock),
            ),
            source.track_id@ != track.track_id@ ==> final(self).track(source.track_id@) is Some,
            forall|id: Seq<char>|
                id != track.track_id@ && id != source.track_id@ ==> final(self).track(id) == old(self).track(id),
            old(self).clock + 1 <= final(self).clock <= old(self).clock + 2,
    {
        let _ = self.upsert_track(track);
        let _ = self.link_soundcloud_source(source);
        Ok(())
    }

    /// Ensure the track exists, insert or replace its local asset row, and,
    /// when a cue document came along, its DJ-library source row.
    pub fn record_local_asset(&mut self, record: LocalAssetRecord) -> (r: Result<
        (),
        LibraryError,
    >)
        requires
            old(self).wf(),
            old(self).clock < u64::MAX,
        ensures
            r is Ok,
            final(self).wf(),
            final(self).soundcloud_sources@ == old(self).soundcloud_sources@,
            final(self).rekordbox_mappings@ == old(self).rekordbox_mappings@,
            final(self).discogs_matches@ == old(self).discogs_matches@,
            final(self).musicbrainz_matches@ == old(self).musicbrainz_matches@,
            final(self).discogs_candidates@ == old(self).discogs_candidates@,
            final(self).musicbrainz_candidates@ == old(self).musicbrainz_candidates@,
            final(self).asset(record.track_id@) == Some(asset_row_of(record)),
            forall|id: Seq<char>|
                id != record.track_id@ ==> final(self).asset(id) == old(self).asset(id),
            record.rekordbox_cues is Some ==> (final(self).rekordbox_source(record.track_id@)
                matches Some(s) && s.payload == RekordboxPayload::CueDocument(
                record.rekordbox_cues->Some_0,
            )),
            record.rekordbox_cues is None ==> final(self).rekordbox_sources@ == old(self).rekordbox_sources@,
            forall|id: Seq<char>|
                id != record.track_id@ ==> final(self).rekordbox_source(id) == old(self).rekordbox_source(id),
            final(self).track(record.track_id@) is Some,
            forall|id: Seq<char>|
                id != record.track_id@ ==> final(self).track(id) == old(self).track(id),
            old(self).clock <= final(self).clock <= old(self).clock + 1,
    {
        let track_id = record.track_id.clone();
        self.ensure_track(&track_id);
        let row = AssetRow {
            track_id: record.track_id,
            location: record.location,
            checksum: record.checksum,
            available: record.available,
            duration_ms: record.duration_ms,
        };
        proof {
            assert(row == asset_row_of(record));
        }
        let ghost old_assets = self.local_assets@;
        upsert_row(&mut self.local_assets, row);
        proof {
            assert forall|j: int| 0 <= j < self.local_assets@.len() implies has_row(
                self.tracks@,
                (#[trigger] self.local_assets@[j]).skey(),
            ) by {
                let s = self.local_assets@[j];
                if s != row {
                    assert(old_assets.contains(s));
                    let w = choose|w: int| 0 <= w < old_assets.len() && old_assets[w] == s;
                    assert(has_row(old(self).tracks@, old_assets[w].skey()));
                }
            }
        }
        match record.rekordbox_cues {
            Some(doc) => {
                let srow = RekordboxSourceRow {
                    track_id: track_id.clone(),
                    payload: RekordboxPayload::CueDocument(doc),
                };
                let ghost old_rb = self.rekordbox_sources@;
                upsert_row(&mut self.rekordbox_sources, srow);
                proof {
                    assert forall|j: int| 0 <= j < self.rekordbox_sources@.len() implies has_row(
                        self.tracks@,
                        (#[trigger] self.rekordbox_sources@[j]).skey(),
                    ) by {
                        let s = self.rekordbox_sources@[j];
                        if s != srow {
                            assert(old_rb.contains(s));
                            let w = choose|w: int| 0 <= w < old_rb.len() && old_rb[w] == s;
                            assert(has_row(old(self).tracks@, old_rb[w].skey()));
                        }
                    }
                }
            },
            None => {},
        }
        Ok(())
    }

    /// The snapshot used to rebuild a lookup payload for a retry: the track
    /// joined with its streaming-service source, or nothing when the track
    /// is unknown.
    pub fn load_soundcloud_lookup(&self, track_id: &String) -> (r: Result<
        Option<SoundcloudLookupRecord>,
        LibraryError,
    >)
        ensures
            r is Ok,
            self.track(track_id@) is None ==> r->Ok_0 is None,
            self.track(track_id@) matches Some(t) ==> r->Ok_0 == Some(
                lookup_record_of(t, self.soundcloud_source(track_id@)),
            ),
    {
        let idx = match find_index(&self.tracks, track_id) {
            Some(k) => k,
            None => {
                return Ok(None);
            },
        };
        let t = &self.tracks[idx];
        let sidx = find_index(&self.soundcloud_sources, track_id);
        let record = match sidx {
            Some(j) => {
                let s = &self.soundcloud_sources[j];
                SoundcloudLookupRecord {
                    track_id: t.track_id.clone(),
                    title: clone_opt_string(&t.title),
                    artist: clone_opt_string(&t.artist),
                    soundcloud_id: Some(s.soundcloud_id.clone()),
                    permalink_url: clone_opt_string(&s.permalink_url),
                    raw_payload: Some(s.raw_payload.clone()),
                }
            },
            None => SoundcloudLookupRecord {
                track_id: t.track_id.clone(),
                title: clone_opt_string(&t.title),
                artist: clone_opt_string(&t.artist),
                soundcloud_id: None,
                permalink_url: None,
                raw_payload: None,
            },
        };
        Ok(Some(record))
    }
}

/// The candidate records an ambiguous Discogs verdict stores: one per given
/// candidate document that carries a resolvable release id.
pub open spec fn dc_ambiguity_records(
    track_id: String,
    seeds: Seq<CandidateSeed>,
) -> Seq<DiscogsCandidateRecord>
    decreases seeds.len(),
{
    if seeds.len() == 0 {
        Seq::empty()
    } else {
        let rest = dc_ambiguity_records(track_id, seeds.drop_last());
        if seeds.last().release_id is Some {
            rest.push(
                DiscogsCandidateRecord {
                    match_id: track_id,
                    release_id: seeds.last().release_id,
                    score: seeds.last().score,
                    raw_payload: seeds.last().raw_payload,
                },
            )
        } else {
            rest
        }
    }
}

/// See [`dc_ambiguity_records`].
pub open spec fn mb_ambiguity_records(
    track_id: String,
    seeds: Seq<CandidateSeed>,
) -> Seq<MusicbrainzCandidateRecord>
    decreases seeds.len(),
{
    if seeds.len() == 0 {
        Seq::empty()
    } else {
        let rest = mb_ambiguity_records(track_id, seeds.drop_last());
        if seeds.last().release_id is Some {
            rest.push(
                MusicbrainzCandidateRecord {
                    match_id: track_id,
                    release_id: seeds.last().release_id,
                    score: seeds.last().score,
                    raw_payload: seeds.last().raw_payload,
                },
            )
        } else {
            rest
        }
    }
}

pub proof fn lemma_dc_ambiguity_rows(track_id: String, seeds: Seq<CandidateSeed>)
    ensures
        dc_rows_for(dc_ambiguity_records(track_id, seeds), track_id@) == dc_ambiguity_records(
            track_id,
            seeds,
        ).map_values(|c: DiscogsCandidateRecord| dc_cand_row(c)),
    decreases seeds.len(),
{
    let conv = |c: DiscogsCandidateRecord| dc_cand_row(c);
    if seeds.len() == 0 {
        assert(dc_ambiguity_records(track_id, seeds).map_values(conv) =~= Seq::<
            CandidateRow,
        >::empty());
    } else {
        lemma_dc_ambiguity_rows(track_id, seeds.drop_last());
        let rest = dc_ambiguity_records(track_id, seeds.drop_last());
        if seeds.last().release_id is Some {
            let rec = DiscogsCandidateRecord {
                match_id: track_id,
                release_id: seeds.last().release_id,
                score: seeds.last().score,
                raw_payload: seeds.last().raw_payload,
            };
            assert(rest.push(rec).drop_last() =~= rest);
            assert(rest.push(rec).map_values(conv) =~= rest.map_values(conv).push(conv(rec)));
        }
    }
}

pub proof fn lemma_mb_ambiguity_rows(track_id: String, seeds: Seq<CandidateSeed>)
    ensures
        mb_rows_for(mb_ambiguity_records(track_id, seeds), track_id@) == mb_ambiguity_records(
            track_id,
            seeds,
        ).map_values(|c: MusicbrainzCandidateRecord| mb_cand_row(c)),
    decreases seeds.len(),
{
    let conv = |c: MusicbrainzCandidateRecord| mb_cand_row(c);
    if seeds.len() == 0 {
        assert(mb_ambiguity_records(track_id, seeds).map_values(conv) =~= Seq::<
            CandidateRow,
        >::empty());
    } else {
        lemma_mb_ambiguity_rows(track_id, seeds.drop_last());
        let rest = mb_ambiguity_records(track_id, seeds.drop_last());
        if seeds.last().release_id is Some {
            let rec = MusicbrainzCandidateRecord {
                match_id: track_id,
                release_id: seeds.last().release_id,
                score: seeds.last().score,
                raw_payload: seeds.last().raw_payload,
            };
            assert(rest.push(rec).drop_last() =~= rest);
            assert(rest.push(rec).map_values(conv) =~= rest.map_values(conv).push(conv(rec)));
        }
    }
}

impl LibraryStore {
    /// Record a confident Discogs match: a success row whose single stored
    /// candidate is the accepted release, scored by the release's own score
    /// when it carries one, else by the confidence.
    pub fn record_discogs_success(
        &mut self,
        track_id: &String,
        query: &String,
        release: CandidateSeed,
        confidence: u32,
    ) -> (r: Result<(), LibraryError>)
        requires
            old(self).wf(),
            release.release_id is Some,
            old(self).clock + 2 <= u64::MAX,
        ensures
            r is Ok,
            final(self).wf(),
            final(self).discogs_match(track_id@) == Some(
                MatchRow {
                    track_id: *track_id,
                    release_id: release.release_id,
                    confidence: Some(confidence),
                    status: MatchStatus::Success,
                    query: Some(*query),
                    message: None,
                    checked_at: None,
                },
            ),
            final(self).discogs_cands(track_id@) == seq![
                CandidateRow {
                    match_id: *track_id,
                    release_id: release.release_id,
                    score: match release.score {
                        Some(s) => Some(s),
                        None => Some(confidence),
                    },
                    raw_payload: release.raw_payload,
                },
            ],
            final(self).track(track_id@) matches Some(t) && t.discogs_release_id
                == release.release_id && t.discogs_confidence == Some(confidence),
            forall|id: Seq<char>|
                id != track_id@ ==> final(self).discogs_match(id) == old(self).discogs_match(id),
            forall|id: Seq<char>|
                id != track_id@ ==> final(self).discogs_cands(id) == old(self).discogs_cands(id),
            forall|id: Seq<char>|
                id != track_id@ ==> final(self).track(id) == old(self).track(id),
            final(self).track(track_id@) is Some,
            final(self).soundcloud_sources@ == old(self).soundcloud_sources@,
            final(self).rekordbox_sources@ == old(self).rekordbox_sources@,
            final(self).local_assets@ == old(self).local_assets@,
            final(self).rekordbox_mappings@ == old(self).rekordbox_mappings@,
            final(self).musicbrainz_matches@ == old(self).musicbrainz_matches@,
            final(self).musicbrainz_candidates@ == old(self).musicbrainz_candidates@,
            old(self).clock + 1 <= final(self).clock <= old(self).clock + 2,
    {
        let score = match release.score {
            Some(s) => Some(s),
            None => Some(confidence),
        };
        let cand = DiscogsCandidateRecord {
            match_id: track_id.clone(),
            release_id: clone_opt_string(&release.release_id),
            score,
            raw_payload: release.raw_payload,
        };
        let record = DiscogsMatchRecord {
            track_id: track_id.clone(),
            release_id: release.release_id,
            confidence: Some(confidence),
            status: DiscogsMatchStatus::Success,
            query: Some(query.clone()),
            message: None,
            checked_at: None,
        };
        let mut cands: Vec<DiscogsCandidateRecord> = Vec::new();
        let ghost crow = dc_cand_row(cand);
        cands.push(cand);
        proof {
            assert(cands@.drop_last() =~= Seq::<DiscogsCandidateRecord>::empty());
            assert(dc_rows_for(cands@.drop_last(), track_id@) =~= Seq::<CandidateRow>::empty());
            assert(dc_rows_for(cands@, track_id@) =~= seq![crow]);
        }
        self.record_discogs_match(record, cands)
    }

    /// Record an ambiguous Discogs verdict; no release is accepted, and one
    /// stored candidate per given document with a resolvable release id.
    pub fn record_discogs_ambiguity(
        &mut self,
        track_id: &String,
        query: &String,
        candidates: Vec<CandidateSeed>,
    ) -> (r: Result<(), LibraryError>)
        requires
            old(self).wf(),
            old(self).clock + 2 <= u64::MAX,
        ensures
            r is Ok,
            final(self).wf(),
            final(self).discogs_match(track_id@) == Some(
                MatchRow {
                    track_id: *track_id,
                    release_id: None,
                    confidence: None,
                    status: MatchStatus::Ambiguous,
                    query: Some(*query),
                    message: None,
                    checked_at: None,
                },
            ),
            final(self).discogs_cands(track_id@) == dc_ambiguity_records(
                *track_id,
                candidates@,
            ).map_values(|c: DiscogsCandidateRecord| dc_cand_row(c)),
            final(self).track(track_id@) matches Some(t) && t.discogs_release_id is None
                && t.discogs_confidence is None,
            forall|id: Seq<char>|
                id != track_id@ ==> final(self).discogs_match(id) == old(self).discogs_match(id),
            forall|id: Seq<char>|
                id != track_id@ ==> final(self).discogs_cands(id) == old(self).discogs_cands(id),
            forall|id: Seq<char>|
                id != track_id@ ==> final(self).track(id) == old(self).track(id),
            final(self).track(track_id@) is Some,
            final(self).soundcloud_sources@ == old(self).soundcloud_sources@,
            final(self).rekordbox_sources@ == old(self).rekordbox_sources@,
            final(self).local_assets@ == old(self).local_assets@,
            final(self).rekordbox_mappings@ == old(self).rekordbox_mappings@,
            final(self).musicbrainz_matches@ == old(self).musicbrainz_matches@,
            final(self).musicbrainz_candidates@ == old(self).musicbrainz_candidates@,
            old(self).clock + 1 <= final(self).clock <= old(self).clock + 2,
    {
        let record = DiscogsMatchRecord {
            track_id: track_id.clone(),
            release_id: None,
            confidence: None,
            status: DiscogsMatchStatus::Ambiguous,
            query: Some(query.clone()),
            message: None,
            checked_at: None,
        };
        let mut recs: Vec<DiscogsCandidateRecord> = Vec::new();
        let mut seeds = candidates;
        let ghost orig = seeds@;
        let ghost mut k: int = 0;
        proof {
            assert(seeds@ =~= orig.subrange(0, orig.len() as int));
        }
        while seeds.len() > 0
            invariant
                0 <= k <= orig.len(),
                seeds@ == orig.subrange(k, orig.len() as int),
                recs@ == dc_ambiguity_records(*track_id, orig.subrange(0, k)),
            decreases seeds@.len(),
        {
            let s = seeds.remove(0);
            proof {
                assert(s == orig[k]);
                assert(seeds@ =~= orig.subrange(k + 1, orig.len() as int));
                assert(orig.subrange(0, k + 1).drop_last() =~= orig.subrange(0, k));
                assert(orig.subrange(0, k + 1).last() == orig[k]);
            }
            match s.release_id {
                Some(rid) => {
                    recs.push(
                        DiscogsCandidateRecord {
                            match_id: track_id.clone(),
                            release_id: Some(rid),
                            score: s.score,
                            raw_payload: s.raw_payload,
                        },
                    );
                },
                None => {},
            }
            proof {
                k = k + 1;
            }
        }
        proof {
            assert(orig.subrange(0, orig.len() as int) =~= orig);
            lemma_dc_ambiguity_rows(*track_id, orig);
        }
        self.record_discogs_match(record, recs)
    }

    /// Record a failed Discogs lookup: an error row with the reason, and no
    /// candidates.
    pub fn record_discogs_failure(
        &mut self,
        track_id: &String,
        query: &String,
        reason: &String,
    ) -> (r: Result<(), LibraryError>)
        requires
            old(self).wf(),
            old(self).clock + 2 <= u64::MAX,
        ensures
            r is Ok,
            final(self).wf(),
            final(self).discogs_match(track_id@) == Some(
                MatchRow {
                    track_id: *track_id,
                    release_id: None,
                    confidence: None,
                    status: MatchStatus::Error,
                    query: Some(*query),
                    message: Some(*reason),
                    checked_at: None,
                },
            ),
            final(self).discogs_cands(track_id@) == Seq::<CandidateRow>::empty(),
            final(self).track(track_id@) matches Some(t) && t.discogs_release_id is None
                && t.discogs_confidence is None,
            forall|id: Seq<char>|
                id != track_id@ ==> final(self).discogs_match(id) == old(self).discogs_match(id),
            forall|id: Seq<char>|
                id != track_id@ ==> final(self).discogs_cands(id) == old(self).discogs_cands(id),
            forall|id: Seq<char>|
                id != track_id@ ==> final(self).track(id) == old(self).track(id),
            final(self).track(track_id@) is Some,
            final(self).soundcloud_sources@ == old(self).soundcloud_sources@,
            final(self).rekordbox_sources@ == old(self).rekordbox_sources@,
            final(self).local_assets@ == old(self).local_assets@,
            final(self).rekordbox_mappings@ == old(self).rekordbox_mappings@,
            final(self).musicbrainz_matches@ == old(self).musicbrainz_matches@,
            final(self).musicbrainz_candidates@ == old(self).musicbrainz_candidates@,
            old(self).clock + 1 <= final(self).clock <= old(self).clock + 2,
    {
        let record = DiscogsMatchRecord {
            track_id: track_id.clone(),
            release_id: None,
            confidence: None,
            status: DiscogsMatchStatus::Error,
            query: Some(query.clone()),
            message: Some(reason.clone()),
            checked_at: None,
        };
        let cands: Vec<DiscogsCandidateRecord> = Vec::new();
        self.record_discogs_match(record, cands)
    }

    /// Record a confirmed MusicBrainz match; the stored candidate's score is
    /// the confidence itself.
    pub fn record_musicbrainz_success(
        &mut self,
        track_id: &String,
        query: &String,
        release: CandidateSeed,
        confidence: u32,
    ) -> (r: Result<(), LibraryError>)
        requires
            old(self).wf(),
            release.release_id is Some,
            old(self).clock + 2 <= u64::MAX,
        ensures
            r is Ok,
            final(self).wf(),
            final(self).musicbrainz_match(track_id@) == Some(
                MatchRow {
                    track_id: *track_id,
                    release_id: release.release_id,
                    confidence: Some(confidence),
                    status: MatchStatus::Success,
                    query: Some(*query),
                    message: None,
                    checked_at: None,
                },
            ),
            final(self).musicbrainz_cands(track_id@) == seq![
                CandidateRow {
                    match_id: *track_id,
                    release_id: release.release_id,
                    score: Some(confidence),
                    raw_payload: release.raw_payload,
                },
            ],
            final(self).track(track_id@) matches Some(t) && t.musicbrainz_release_id
                == release.release_id && t.musicbrainz_confidence == Some(confidence),
            forall|id: Seq<char>|
                id != track_id@ ==> final(self).musicbrainz_match(id) == old(self).musicbrainz_match(id),
            forall|id: Seq<char>|
                id != track_id@ ==> final(self).musicbrainz_cands(id) == old(self).musicbrainz_cands(id),
            forall|id: Seq<char>|
                id != track_id@ ==> final(self).track(id) == old(self).track(id),
            final(self).track(track_id@) is Some,
            final(self).soundcloud_sources@ == old(self).soundcloud_sources@,
            final(self).rekordbox_sources@ == old(self).rekordbox_sources@,
            final(self).local_assets@ == old(self).local_assets@,
            final(self).rekordbox_mappings@ == old(self).rekordbox_mappings@,
            final(self).discogs_matches@ == old(self).discogs_matches@,
            final(self).discogs_candidates@ == old(self).discogs_candidates@,
            old(self).clock + 1 <= final(self).clock <= old(self).clock + 2,
    {
        let cand = MusicbrainzCandidateRecord {
            match_id: track_id.clone(),
            release_id: clone_opt_string(&release.release_id),
            score: Some(confidence),
            raw_payload: release.raw_payload,
        };
        let record = MusicbrainzMatchRecord {
            track_id: track_id.clone(),
            release_id: release.release_id,
            confidence: Some(confidence),
            status: MusicbrainzMatchStatus::Success,
            query: Some(query.clone()),
            message: None,
            checked_at: None,
        };
        let mut cands: Vec<MusicbrainzCandidateRecord> = Vec::new();
        let ghost crow = mb_cand_row(cand);
        cands.push(cand);
        proof {
            assert(cands@.drop_last() =~= Seq::<MusicbrainzCandidateRecord>::empty());
            assert(mb_rows_for(cands@.drop_last(), track_id@) =~= Seq::<CandidateRow>::empty());
            assert(mb_rows_for(cands@, track_id@) =~= seq![crow]);
        }
        self.record_musicbrainz_match(record, cands)
    }

    /// Record an ambiguous MusicBrainz verdict; see
    /// [`Self::record_discogs_ambiguity`].
    pub fn record_musicbrainz_ambiguity(
        &mut self,
        track_id: &String,
        query: &String,
        candidates: Vec<CandidateSeed>,
    ) -> (r: Result<(), LibraryError>)
        requires
            old(self).wf(),
            old(self).clock + 2 <= u64::MAX,
        ensures
            r is Ok,
            final(self).wf(),
            final(self).musicbrainz_match(track_id@) == Some(
                MatchRow {
                    track_id: *track_id,
                    release_id: None,
                    confidence: None,
                    status: MatchStatus::Ambiguous,
                    query: Some(*query),
                    message: None,
                    checked_at: None,
                },
            ),
            final(self).musicbrainz_cands(track_id@) == mb_ambiguity_records(
                *track_id,
                candidates@,
            ).map_values(|c: MusicbrainzCandidateRecord| mb_cand_row(c)),
            final(self).track(track_id@) matches Some(t) && t.musicbrainz_release_id is None
                && t.musicbrainz_confidence is None,
            forall|id: Seq<char>|
                id != track_id@ ==> final(self).musicbrainz_match(id) == old(self).musicbrainz_match(id),
            forall|id: Seq<char>|
                id != track_id@ ==> final(self).musicbrainz_cands(id) == old(self).musicbrainz_cands(id),
            forall|id: Seq<char>|
                id != track_id@ ==> final(self).track(id) == old(self).track(id),
            final(self).track(track_id@) is Some,
            final(self).soundcloud_sources@ == old(self).soundcloud_sources@,
            final(self).rekordbox_sources@ == old(self).rekordbox_sources@,
            final(self).local_assets@ == old(self).local_assets@,
            final(self).rekordbox_mappings@ == old(self).rekordbox_mappings@,
            final(self).discogs_matches@ == old(self).discogs_matches@,
            final(self).discogs_candidates@ == old(self).discogs_candidates@,
            old(self).clock + 1 <= final(self).clock <= old(self).clock + 2,
    {
        let record = MusicbrainzMatchRecord {
            track_id: track_id.clone(),
            release_id: None,
            confidence: None,
            status: MusicbrainzMatchStatus::Ambiguous,
            query: Some(query.clone()),
            message: None,
            checked_at: None,
        };
        let mut recs: Vec<MusicbrainzCandidateRecord> = Vec::new();
        let mut seeds = candidates;
        let ghost orig = seeds@;
        let ghost mut k: int = 0;
        proof {
            assert(seeds@ =~= orig.subrange(0, orig.len() as int));
        }
        while seeds.len() > 0
            invariant
                0 <= k <= orig.len(),
                seeds@ == orig.subrange(k, orig.len() as int),
                recs@ == mb_ambiguity_records(*track_id, orig.subrange(0, k)),
            decreases seeds@.len(),
        {
            let s = seeds.remove(0);
            proof {
                assert(s == orig[k]);
                assert(seeds@ =~= orig.subrange(k + 1, orig.len() as int));
                assert(orig.subrange(0, k + 1).drop_last() =~= orig.subrange(0, k));
                assert(orig.subrange(0, k + 1).last() == orig[k]);
            }
            match s.release_id {
                Some(rid) => {
                    recs.push(
                        MusicbrainzCandidateRecord {
                            match_id: track_id.clone(),
                            release_id: Some(rid),
                            score: s.score,
                            raw_payload: s.raw_payload,
                        },
                    );
                },
                None => {},
            }
            proof {
                k = k + 1;
            }
        }
        proof {
            assert(orig.subrange(0, orig.len() as int) =~= orig);
            lemma_mb_ambiguity_rows(*track_id, orig);
        }
        self.record_musicbrainz_match(record, recs)
    }

    /// Record a failed MusicBrainz lookup; see
    /// [`Self::record_discogs_failure`].
    pub fn record_musicbrainz_failure(
        &mut self,
        track_id: &String,
        query: &String,
        reason: &String,
    ) -> (r: Result<(), LibraryError>)
        requires
            old(self).wf(),
            old(self).clock + 2 <= u64::MAX,
        ensures
            r is Ok,
            final(self).wf(),
            final(self).musicbrainz_match(track_id@) == Some(
                MatchRow {
                    track_id: *track_id,
                    release_id: None,
                    confidence: None,
                    status: MatchStatus::Error,
                    query: Some(*query),
                    message: Some(*reason),
                    checked_at: None,
                },
            ),
            final(self).musicbrainz_cands(track_id@) == Seq::<CandidateRow>::empty(),
            final(self).track(track_id@) matches Some(t) && t.musicbrainz_release_id is None
                && t.musicbrainz_confidence is None,
            forall|id: Seq<char>|
                id != track_id@ ==> final(self).musicbrainz_match(id) == old(self).musicbrainz_match(id),
            forall|id: Seq<char>|
                id != track_id@ ==> final(self).musicbrainz_cands(id) == old(self).musicbrainz_cands(id),
            forall|id: Seq<char>|
                id != track_id@ ==> final(self).track(id) == old(self).track(id),
            final(self).track(track_id@) is Some,
            final(self).soundcloud_sources@ == old(self).soundcloud_sources@,
            final(self).rekordbox_sources@ == old(self).rekordbox_sources@,
            final(self).local_assets@ == old(self).local_assets@,
            final(self).rekordbox_mappings@ == old(self).rekordbox_mappings@,
            final(self).discogs_matches@ == old(self).discogs_matches@,
            final(self).discogs_candidates@ == old(self).discogs_candidates@,
            old(self).clock + 1 <= final(self).clock <= old(self).clock + 2,
    {
        let record = MusicbrainzMatchRecord {
            track_id: track_id.clone(),
            release_id: None,
            confidence: None,
            status: MusicbrainzMatchStatus::Error,
            query: Some(query.clone()),
            message: Some(reason.clone()),
            checked_at: None,
        };
        let cands: Vec<MusicbrainzCandidateRecord> = Vec::new();
        self.record_musicbrainz_match(record, cands)
    }
}

/// The rank a candidate sorts by: candidates order by score descending,
/// scoreless ones last.
pub open spec fn score_rank(score: Option<u32>) -> int {
    match score {
        Some(v) => v as int,
        None => -1,
    }
}

impl crate::sorting::RowOrd for CandidateRow {
    open spec fn leq(self, other: Self) -> bool {
        score_rank(self.score) >= score_rank(other.score)
    }

    proof fn leq_total(a: Self, b: Self) {
    }

    proof fn leq_trans(a: Self, b: Self, c: Self) {
    }

    fn le(&self, other: &Self) -> (r: bool) {
        let a: i64 = match self.score {
            Some(v) => v as i64,
            None => -1,
        };
        let b: i64 = match other.score {
            Some(v) => v as i64,
            None => -1,
        };
        a >= b
    }
}

/// The Discogs candidate record a stored row denotes.
pub open spec fn dc_rec_of(row: CandidateRow) -> DiscogsCandidateRecord {
    DiscogsCandidateRecord {
        match_id: row.match_id,
        release_id: row.release_id,
        score: row.score,
        raw_payload: row.raw_payload,
    }
}

/// The MusicBrainz candidate record a stored row denotes.
pub open spec fn mb_rec_of(row: CandidateRow) -> MusicbrainzCandidateRecord {
    MusicbrainzCandidateRecord {
        match_id: row.match_id,
        release_id: row.release_id,
        score: row.score,
        raw_payload: row.raw_payload,
    }
}

/// Copy the rows of one catalog's candidate table that belong to a track.
fn collect_cands(table: &Vec<CandidateRow>, track_id: &String) -> (r: Vec<CandidateRow>)
    ensures
        r@ == rows_with(table@, track_id@),
{
    let mut out: Vec<CandidateRow> = Vec::new();
    let mut i: usize = 0;
    proof {
        assert(table@.subrange(0, 0) =~= Seq::<CandidateRow>::empty());
    }
    while i < table.len()
        invariant
            0 <= i <= table@.len(),
            out@ == rows_with(table@.subrange(0, i as int), track_id@),
        decreases table@.len() - i,
    {
        proof {
            assert(table@.subrange(0, i + 1).drop_last() =~= table@.subrange(0, i as int));
            assert(table@.subrange(0, i + 1).last() == table@[i as int]);
        }
        let row = &table[i];
        if row.match_id.eq(track_id) {
            let copy = CandidateRow {
                match_id: row.match_id.clone(),
                release_id: clone_opt_string(&row.release_id),
                score: row.score,
                raw_payload: row.raw_payload.clone(),
            };
            proof {
                assert(copy == table@[i as int]);
            }
            out.push(copy);
        }
        i = i + 1;
    }
    proof {
        assert(table@.subrange(0, table@.len() as int) =~= table@);
    }
    out
}

impl LibraryStore {
    /// The stored Discogs candidates for a track, best score first,
    /// scoreless ones last.
    pub fn list_discogs_candidates(&self, track_id: &String) -> (r: Result<
        Vec<DiscogsCandidateRecord>,
        LibraryError,
    >)
        ensures
            r is Ok,
            r->Ok_0@ == crate::sorting::sort_spec(self.discogs_cands(track_id@)).map_values(
                |c: CandidateRow| dc_rec_of(c),
            ),
    {
        let rows = collect_cands(&self.discogs_candidates, track_id);
        let mut sorted = crate::sorting::sort_rows(rows);
        let ghost ordered = sorted@;
        let mut out: Vec<DiscogsCandidateRecord> = Vec::new();
        let ghost mut k: int = 0;
        proof {
            assert(sorted@ =~= ordered.subrange(0, ordered.len() as int));
            assert(out@ =~= ordered.subrange(0, 0).map_values(|c: CandidateRow| dc_rec_of(c)));
        }
        while sorted.len() > 0
            invariant
                0 <= k <= ordered.len(),
                sorted@ == ordered.subrange(k, ordered.len() as int),
                out@ == ordered.subrange(0, k).map_values(|c: CandidateRow| dc_rec_of(c)),
            decreases sorted@.len(),
        {
            let x = sorted.remove(0);
            proof {
                assert(x == ordered[k]);
                assert(sorted@ =~= ordered.subrange(k + 1, ordered.len() as int));
            }
            let rec = DiscogsCandidateRecord {
                match_id: x.match_id,
                release_id: x.release_id,
                score: x.score,
                raw_payload: x.raw_payload,
            };
            out.push(rec);
            proof {
                assert(ordered.subrange(0, k + 1).map_values(|c: CandidateRow| dc_rec_of(c)) =~= ordered.subrange(
                    0,
                    k,
                ).map_values(|c: CandidateRow| dc_rec_of(c)).push(dc_rec_of(ordered[k])));
                k = k + 1;
            }
        }
        proof {
            assert(ordered.subrange(0, ordered.len() as int) =~= ordered);
        }
        Ok(out)
    }

    /// The stored MusicBrainz candidates for a track, best score first,
    /// scoreless ones last.
    pub fn list_musicbrainz_candidates(&self, track_id: &String) -> (r: Result<
        Vec<MusicbrainzCandidateRecord>,
        LibraryError,
    >)
        ensures
            r is Ok,
            r->Ok_0@ == crate::sorting::sort_spec(self.musicbrainz_cands(track_id@)).map_values(
                |c: CandidateRow| mb_rec_of(c),
            ),
    {
        let rows = collect_cands(&self.musicbrainz_candidates, track_id);
        let mut sorted = crate::sorting::sort_rows(rows);
        let ghost ordered = sorted@;
        let mut out: Vec<MusicbrainzCandidateRecord> = Vec::new();
        let ghost mut k: int = 0;
        proof {
            assert(sorted@ =~= ordered.subrange(0, ordered.len() as int));
            assert(out@ =~= ordered.subrange(0, 0).map_values(|c: CandidateRow| mb_rec_of(c)));
        }
        while sorted.len() > 0
            invariant
                0 <= k <= ordered.len(),
                sorted@ == ordered.subrange(k, ordered.len() as int),
                out@ == ordered.subrange(0, k).map_values(|c: CandidateRow| mb_rec_of(c)),
            decreases sorted@.len(),
        {
            let x = sorted.remove(0);
            proof {
                assert(x == ordered[k]);
                assert(sorted@ =~= ordered.subrange(k + 1, ordered.len() as int));
            }
            let rec = MusicbrainzCandidateRecord {
                match_id: x.match_id,
                release_id: x.release_id,
                score: x.score,
                raw_payload: x.raw_payload,
            };
            out.push(rec);
            proof {
                assert(ordered.subrange(0, k + 1).map_values(|c: CandidateRow| mb_rec_of(c)) =~= ordered.subrange(
                    0,
                    k,
                ).map_values(|c: CandidateRow| mb_rec_of(c)).push(mb_rec_of(ordered[k])));
                k = k + 1;
            }
        }
        proof {
            assert(ordered.subrange(0, ordered.len() as int) =~= ordered);
        }
        Ok(out)
    }
}

/// The ids of tracks that have no local asset row or only an unavailable
/// one, in table order.
pub open spec fn missing_asset_ids(tracks: Seq<TrackRow>, assets: Seq<AssetRow>) -> Seq<String>
    decreases tracks.len(),
{
    if tracks.len() == 0 {
        Seq::empty()
    } else {
        let rest = missing_asset_ids(tracks.drop_last(), assets);
        let t = tracks.last();
        let missing = match find_row(assets, t.skey()) {
            Some(a) => !a.available,
            None => true,
        };
        if missing {
            rest.push(t.track_id)
        } else {
            rest
        }
    }
}

impl LibraryStore {
    /// The ids of tracks with no available local asset, in ascending order.
    pub fn list_missing_assets(&self) -> (r: Result<Vec<String>, LibraryError>)
        ensures
            r is Ok,
            r->Ok_0@ == crate::sorting::sort_spec(
                missing_asset_ids(self.tracks@, self.local_assets@),
            ),
    {
        let mut out: Vec<String> = Vec::new();
        let mut i: usize = 0;
        proof {
            assert(self.tracks@.subrange(0, 0) =~= Seq::<TrackRow>::empty());
        }
        while i < self.tracks.len()
            invariant
                0 <= i <= self.tracks@.len(),
                out@ == missing_asset_ids(self.tracks@.subrange(0, i as int), self.local_assets@),
            decreases self.tracks@.len() - i,
        {
            proof {
                assert(self.tracks@.subrange(0, i + 1).drop_last() =~= self.tracks@.subrange(
                    0,
                    i as int,
                ));
                assert(self.tracks@.subrange(0, i + 1).last() == self.tracks@[i as int]);
            }
            let t = &self.tracks[i];
            let missing = match find_index(&self.local_assets, &t.track_id) {
                Some(j) => !self.local_assets[j].available,
                None => true,
            };
            if missing {
                out.push(t.track_id.clone());
            }
            i = i + 1;
        }
        proof {
            assert(self.tracks@.subrange(0, self.tracks@.len() as int) =~= self.tracks@);
        }
        Ok(crate::sorting::sort_rows(out))
    }
}

/// The on-disk location an imported track resolves to: the direct path when
/// present, else the normalized path.
pub open spec fn rb_location(tr: RekordboxTrack) -> Option<String> {
    match tr.location {
        Some(l) => Some(l),
        None => tr.normalized_path,
    }
}

/// Whether some incoming track carries the external id.
pub open spec fn incoming(tracks: Seq<RekordboxTrack>, rb: Seq<char>) -> bool {
    exists|k: int| 0 <= k < tracks.len() && tracks[k].rekordbox_id@ == rb
}

/// Whether an id is the identity of a track that this import makes stale.
pub open spec fn stale_tid(prev: LibraryStore, tracks: Seq<RekordboxTrack>, id: Seq<char>) -> bool {
    exists|rb: Seq<char>|
        #![trigger rb_track_id(rb)]
        prev.mapping(rb) is Some && !incoming(tracks, rb) && rb_track_id(rb) == id
}

impl LibraryStore {
    /// Upsert one imported track: its track row (descriptive fields replace,
    /// catalog summaries survive), its mapping, its local asset when a
    /// location resolved, and its DJ-library source row holding the full
    /// record.
    fn upsert_rb_track(&mut self, tr: RekordboxTrack)
        requires
            old(self).wf(),
            old(self).clock < u64::MAX,
            tr.duration_ms matches Some(d) ==> d <= i64::MAX as u64,
        ensures
            final(self).wf(),
            final(self).discogs_matches@ == old(self).discogs_matches@,
            final(self).musicbrainz_matches@ == old(self).musicbrainz_matches@,
            final(self).discogs_candidates@ == old(self).discogs_candidates@,
            final(self).musicbrainz_candidates@ == old(self).musicbrainz_candidates@,
            final(self).soundcloud_sources@ == old(self).soundcloud_sources@,
            old(self).clock <= final(self).clock <= old(self).clock + 1,
            ({
                let tid = rb_track_id(tr.rekordbox_id@);
                &&& final(self).mapping(tr.rekordbox_id@) matches Some(m) && m.track_id@ == tid
                &&& final(self).track(tid) matches Some(t) && t.title == tr.title && t.artist
                    == tr.artist && t.album == tr.album
                &&& (old(self).track(tid) matches Some(p) ==> {
                    let t = final(self).track(tid)->Some_0;
                    &&& t.discogs_release_id == p.discogs_release_id
                    &&& t.discogs_confidence == p.discogs_confidence
                    &&& t.musicbrainz_release_id == p.musicbrainz_release_id
                    &&& t.musicbrainz_confidence == p.musicbrainz_confidence
                    &&& t.discogs_payload == p.discogs_payload
                    &&& t.musicbrainz_payload == p.musicbrainz_payload
                })
                &&& (old(self).track(tid) is None ==> {
                    let t = final(self).track(tid)->Some_0;
                    &&& t.discogs_release_id is None
                    &&& t.discogs_confidence is None
                    &&& t.musicbrainz_release_id is None
                    &&& t.musicbrainz_confidence is None
                    &&& t.discogs_payload is None
                    &&& t.musicbrainz_payload is None
                })
                &&& final(self).rekordbox_source(tid) matches Some(s) && s.payload
                    == RekordboxPayload::LibraryTrack(tr)
                &&& (rb_location(tr) matches Some(l) ==> (final(self).asset(tid) matches Some(a)
                    && a.location == l && a.checksum == tr.checksum && a.available == tr.available
                    && a.duration_ms == (match tr.duration_ms {
                    Some(d) => Some(d as i64),
                    None => None,
                })))
                &&& (rb_location(tr) is None ==> final(self).asset(tid) == old(self).asset(tid))
                &&& (forall|id: Seq<char>|
                    id != tid ==> final(self).track(id) == old(self).track(id) && final(self).rekordbox_source(id) == old(self).rekordbox_source(id) && final(self).asset(
                        id,
                    ) == old(self).asset(id))
                &&& (forall|rb: Seq<char>|
                    rb != tr.rekordbox_id@ ==> final(self).mapping(rb) == old(self).mapping(rb))
            }),
    {
        let rb_id = tr.rekordbox_id.clone();
        let track_id = make_rb_track_id(&rb_id);
        let prev_idx = find_index(&self.tracks, &track_id);
        match prev_idx {
            Some(k) => {
                let prev = self.tracks.remove(k);
                proof {
                    lemma_find_row_remove_all(old(self).tracks@, k as int);
                }
                let row = TrackRow {
                    title: clone_opt_string(&tr.title),
                    artist: clone_opt_string(&tr.artist),
                    album: clone_opt_string(&tr.album),
                    updated_at: self.clock,
                    ..prev
                };
                proof {
                    lemma_find_row_push_all(self.tracks@, row);
                }
                self.tracks.push(row);
                self.clock = self.clock + 1;
                proof {
                    let orig = old(self).tracks@;
                    let mid = orig.remove(k as int);
                    assert(forall|j: int| 0 <= j < mid.len() ==> self.tracks@[j] == mid[j]);
                    assert(self.tracks@[mid.len() as int] == row);
                    assert forall|j: int| 0 <= j < mid.len() implies mid[j].updated_at < old(self).clock && mid[j].skey() != track_id@ by {
                        if j < k {
                            assert(mid[j] == orig[j]);
                        } else {
                            assert(mid[j] == orig[j + 1]);
                        }
                    }
                    assert forall|i: int, j: int| 0 <= i < j < mid.len() implies mid[i].updated_at
                        != mid[j].updated_at by {
                        if j < k {
                        } else if i < k {
                            assert(mid[i] == orig[i] && mid[j] == orig[j + 1]);
                        } else {
                            assert(mid[i] == orig[i + 1] && mid[j] == orig[j + 1]);
                        }
                    }
                }
            },
            None => {
                let row = TrackRow {
                    track_id: track_id.clone(),
                    title: clone_opt_string(&tr.title),
                    artist: clone_opt_string(&tr.artist),
                    album: clone_opt_string(&tr.album),
                    discogs_release_id: None,
                    discogs_confidence: None,
                    musicbrainz_release_id: None,
                    musicbrainz_confidence: None,
                    discogs_payload: None,
                    musicbrainz_payload: None,
                    updated_at: self.clock,
                };
                proof {
                    lemma_find_row_none(self.tracks@, track_id@);
                    lemma_find_row_push_all(self.tracks@, row);
                }
                self.tracks.push(row);
                self.clock = self.clock + 1;
                proof {
                    let prev = old(self).tracks@;
                    assert(forall|j: int| 0 <= j < prev.len() ==> self.tracks@[j] == prev[j]);
                    assert(self.tracks@[prev.len() as int] == row);
                }
            },
        }
        let ghost tracks_after = self.tracks@;
        let mrow = MappingRow { rekordbox_id: rb_id, track_id: track_id.clone() };
        let ghost old_maps = self.rekordbox_mappings@;
        upsert_row(&mut self.rekordbox_mappings, mrow);
        proof {
            assert forall|j: int| 0 <= j < self.rekordbox_mappings@.len() implies has_row(
                self.tracks@,
                (#[trigger] self.rekordbox_mappings@[j]).track_id@,
            ) && self.rekordbox_mappings@[j].track_id@ == rb_track_id(
                self.rekordbox_mappings@[j].rekordbox_id@,
            ) by {
                let m = self.rekordbox_mappings@[j];
                if m != mrow {
                    assert(old_maps.contains(m));
                    let w = choose|w: int| 0 <= w < old_maps.len() && old_maps[w] == m;
                    assert(has_row(old(self).tracks@, old_maps[w].track_id@));
                }
            }
        }
        let location = match &tr.location {
            Some(l) => Some(l.clone()),
            None => clone_opt_string(&tr.normalized_path),
        };
        match location {
            Some(loc) => {
                let arow = AssetRow {
                    track_id: track_id.clone(),
                    location: loc,
                    checksum: clone_opt_string(&tr.checksum),
                    available: tr.available,
                    duration_ms: match tr.duration_ms {
                        Some(d) => Some(d as i64),
                        None => None,
                    },
                };
                let ghost old_assets = self.local_assets@;
                upsert_row(&mut self.local_assets, arow);
                proof {
                    assert forall|j: int| 0 <= j < self.local_assets@.len() implies has_row(
                        self.tracks@,
                        (#[trigger] self.local_assets@[j]).skey(),
                    ) by {
                        let s = self.local_assets@[j];
                        if s != arow {
                            assert(old_assets.contains(s));
                            let w = choose|w: int| 0 <= w < old_assets.len() && old_assets[w] == s;
                            assert(has_row(old(self).tracks@, old_assets[w].skey()));
                        }
                    }
                }
            },
            None => {},
        }
        let srow = RekordboxSourceRow {
            track_id,
            payload: RekordboxPayload::LibraryTrack(tr),
        };
        let ghost old_rb = self.rekordbox_sources@;
        upsert_row(&mut self.rekordbox_sources, srow);
        proof {
            assert forall|j: int| 0 <= j < self.rekordbox_sources@.len() implies has_row(
                self.tracks@,
                (#[trigger] self.rekordbox_sources@[j]).skey(),
            ) by {
                let s = self.rekordbox_sources@[j];
                if s != srow {
                    assert(old_rb.contains(s));
                    let w = choose|w: int| 0 <= w < old_rb.len() && old_rb[w] == s;
                    assert(has_row(old(self).tracks@, old_rb[w].skey()));
                }
            }
        }
    }

    /// Remove one stale mapping and its track, cascading to every dependent
    /// row.
    fn remove_stale_mapping(&mut self, rb: &String)
        requires
            old(self).wf(),
            old(self).mapping(rb@) is Some,
        ensures
            final(self).wf(),
            final(self).clock == old(self).clock,
            final(self).mapping(rb@) is None,
            forall|rb2: Seq<char>| rb2 != rb@ ==> final(self).mapping(rb2) == old(self).mapping(rb2),
            ({
                let tid = rb_track_id(rb@);
                &&& final(self).track(tid) is None
                &&& final(self).soundcloud_source(tid) is None
                &&& final(self).rekordbox_source(tid) is None
                &&& final(self).asset(tid) is None
                &&& final(self).discogs_match(tid) is None
                &&& final(self).musicbrainz_match(tid) is None
                &&& final(self).discogs_cands(tid) == Seq::<CandidateRow>::empty()
                &&& final(self).musicbrainz_cands(tid) == Seq::<CandidateRow>::empty()
                &&& (forall|id: Seq<char>|
                    id != tid ==> final(self).track(id) == old(self).track(id) && final(self).soundcloud_source(id) == old(self).soundcloud_source(id) && final(self).rekordbox_source(id) == old(self).rekordbox_source(id) && final(self).asset(
                        id,
                    ) == old(self).asset(id) && final(self).discogs_match(id) == old(self).discogs_match(id) && final(self).musicbrainz_match(id) == old(self).musicbrainz_match(id) && final(self).discogs_cands(id) == old(self).discogs_cands(id) && final(self).musicbrainz_cands(id) == old(self).musicbrainz_cands(id))
            }),
    {
        let midx = match find_index(&self.rekordbox_mappings, rb) {
            Some(j) => j,
            None => {
                proof {
                    assert(false);
                }
                0
            },
        };
        let mapping = self.rekordbox_mappings.remove(midx);
        proof {
            lemma_find_row_remove_all(old(self).rekordbox_mappings@, midx as int);
        }
        let track_id = mapping.track_id;
        proof {
            assert(track_id@ == rb_track_id(rb@));
            // no other mapping points at this track: minted ids are injective
            assert forall|j: int| 0 <= j < self.rekordbox_mappings@.len() implies (
            #[trigger] self.rekordbox_mappings@[j]).track_id@ != track_id@ by {
                let m = self.rekordbox_mappings@[j];
                let orig = old(self).rekordbox_mappings@;
                if j < midx {
                    assert(m == orig[j]);
                } else {
                    assert(m == orig[j + 1]);
                }
                if m.track_id@ == track_id@ {
                    lemma_rb_track_id_injective(m.rekordbox_id@, rb@);
                }
            }
        }
        let ghost tracks_before = self.tracks@;
        remove_by_key(&mut self.tracks, &track_id);
        proof {
            let mid = self.tracks@;
            assert forall|a: int, b: int| 0 <= a < b < mid.len() implies mid[a].updated_at
                != mid[b].updated_at by {
                assert(tracks_before.contains(mid[a]) && tracks_before.contains(mid[b]));
                let wa = choose|w: int| 0 <= w < tracks_before.len() && tracks_before[w] == mid[a];
                let wb = choose|w: int| 0 <= w < tracks_before.len() && tracks_before[w] == mid[b];
                assert(mid[a].skey() != mid[b].skey());
                assert(wa != wb);
            }
            assert forall|a: int| 0 <= a < mid.len() implies mid[a].updated_at < self.clock by {
                let wa = choose|w: int| 0 <= w < tracks_before.len() && tracks_before[w] == mid[a];
            }
        }
        remove_by_key(&mut self.soundcloud_sources, &track_id);
        remove_by_key(&mut self.rekordbox_sources, &track_id);
        remove_by_key(&mut self.local_assets, &track_id);
        remove_by_key(&mut self.discogs_matches, &track_id);
        remove_by_key(&mut self.musicbrainz_matches, &track_id);
        let ghost dc_before = self.discogs_candidates@;
        retain_without(&mut self.discogs_candidates, &track_id);
        let ghost mb_before = self.musicbrainz_candidates@;
        retain_without(&mut self.musicbrainz_candidates, &track_id);
        proof {
            lemma_rows_without_members(dc_before, track_id@);
            lemma_rows_without_members(mb_before, track_id@);
            lemma_rows_with_without(dc_before, track_id@, track_id@);
            lemma_rows_with_without(mb_before, track_id@, track_id@);
            assert forall|id: Seq<char>| id != track_id@ implies rows_with(
                self.discogs_candidates@,
                id,
            ) == rows_with(dc_before, id) && rows_with(self.musicbrainz_candidates@, id)
                == rows_with(mb_before, id) by {
                lemma_rows_with_without(dc_before, track_id@, id);
                lemma_rows_with_without(mb_before, track_id@, id);
            }
            // surviving dependent rows keep their references
            assert forall|j: int| 0 <= j < self.soundcloud_sources@.len() implies has_row(
                self.tracks@,
                (#[trigger] self.soundcloud_sources@[j]).skey(),
            ) by {
                let s = self.soundcloud_sources@[j];
                assert(old(self).soundcloud_sources@.contains(s));
                let w = choose|w: int|
                    0 <= w < old(self).soundcloud_sources@.len() && old(self).soundcloud_sources@[w] == s;
            }
            assert forall|j: int| 0 <= j < self.rekordbox_sources@.len() implies has_row(
                self.tracks@,
                (#[trigger] self.rekordbox_sources@[j]).skey(),
            ) by {
                let s = self.rekordbox_sources@[j];
                assert(old(self).rekordbox_sources@.contains(s));
                let w = choose|w: int|
                    0 <= w < old(self).rekordbox_sources@.len() && old(self).rekordbox_sources@[w]
                        == s;
            }
            assert forall|j: int| 0 <= j < self.local_assets@.len() implies has_row(
                self.tracks@,
                (#[trigger] self.local_assets@[j]).skey(),
            ) by {
                let s = self.local_assets@[j];
                assert(old(self).local_assets@.contains(s));
                let w = choose|w: int|
                    0 <= w < old(self).local_assets@.len() && old(self).local_assets@[w] == s;
            }
            assert forall|j: int| 0 <= j < self.discogs_matches@.len() implies has_row(
                self.tracks@,
                (#[trigger] self.discogs_matches@[j]).skey(),
            ) by {
                let s = self.discogs_matches@[j];
                assert(old(self).discogs_matches@.contains(s));
                let w = choose|w: int|
                    0 <= w < old(self).discogs_matches@.len() && old(self).discogs_matches@[w]
                        == s;
            }
            assert forall|j: int| 0 <= j < self.musicbrainz_matches@.len() implies has_row(
                self.tracks@,
                (#[trigger] self.musicbrainz_matches@[j]).skey(),
            ) by {
                let s = self.musicbrainz_matches@[j];
                assert(old(self).musicbrainz_matches@.contains(s));
                let w = choose|w: int|
                    0 <= w < old(self).musicbrainz_matches@.len() && old(self).musicbrainz_matches@[w] == s;
            }
            // the remaining mappings reference surviving tracks
            assert forall|j: int| 0 <= j < self.rekordbox_mappings@.len() implies has_row(
                self.tracks@,
                (#[trigger] self.rekordbox_mappings@[j]).track_id@,
            ) by {
                let m = self.rekordbox_mappings@[j];
                let orig = old(self).rekordbox_mappings@;
                if j < midx {
                    assert(m == orig[j]);
                } else {
                    assert(m == orig[j + 1]);
                }
                assert(m.track_id@ != track_id@);
            }
            // surviving candidates reference surviving match rows
            assert forall|j: int| 0 <= j < self.discogs_candidates@.len() implies has_row(
                self.discogs_matches@,
                (#[trigger] self.discogs_candidates@[j]).skey(),
            ) by {
                let c = self.discogs_candidates@[j];
                assert(dc_before.contains(c));
                let w = choose|w: int| 0 <= w < dc_before.len() && dc_before[w] == c;
                assert(has_row(old(self).discogs_matches@, dc_before[w].skey()));
                assert(c.skey() != track_id@);
            }
            assert forall|j: int| 0 <= j < self.musicbrainz_candidates@.len() implies has_row(
                self.musicbrainz_matches@,
                (#[trigger] self.musicbrainz_candidates@[j]).skey(),
            ) by {
                let c = self.musicbrainz_candidates@[j];
                assert(mb_before.contains(c));
                let w = choose|w: int| 0 <= w < mb_before.len() && mb_before[w] == c;
                assert(has_row(old(self).musicbrainz_matches@, mb_before[w].skey()));
                assert(c.skey() != track_id@);
            }
        }
    }
}

/// How migration rewrites one track row for the Discogs side: the legacy
/// payload is cleared, the denormalized summary reflects its interpretation,
/// everything else is kept; a row without a payload is untouched.
pub open spec fn migrated_dc_row(new: TrackRow, prev: TrackRow) -> bool {
    &&& new.track_id == prev.track_id
    &&& new.title == prev.title
    &&& new.artist == prev.artist
    &&& new.album == prev.album
    &&& new.musicbrainz_release_id == prev.musicbrainz_release_id
    &&& new.musicbrainz_confidence == prev.musicbrainz_confidence
    &&& new.musicbrainz_payload == prev.musicbrainz_payload
    &&& new.discogs_payload is None
    &&& (prev.discogs_payload is None ==> new == prev)
    &&& (prev.discogs_payload matches Some(p) ==> new.discogs_release_id
        == crate::legacy::dc_legacy_record(prev.track_id, p).release_id && new.discogs_confidence
        == crate::legacy::dc_legacy_record(prev.track_id, p).confidence)
}

/// See [`migrated_dc_row`], for the MusicBrainz side.
pub open spec fn migrated_mb_row(new: TrackRow, prev: TrackRow) -> bool {
    &&& new.track_id == prev.track_id
    &&& new.title == prev.title
    &&& new.artist == prev.artist
    &&& new.album == prev.album
    &&& new.discogs_release_id == prev.discogs_release_id
    &&& new.discogs_confidence == prev.discogs_confidence
    &&& new.discogs_payload == prev.discogs_payload
    &&& new.musicbrainz_payload is None
    &&& (prev.musicbrainz_payload is None ==> new == prev)
    &&& (prev.musicbrainz_payload matches Some(p) ==> new.musicbrainz_release_id
        == crate::legacy::mb_legacy_record(prev.track_id, p).release_id
        && new.musicbrainz_confidence == crate::legacy::mb_legacy_record(
        prev.track_id,
        p,
    ).confidence)
}

impl LibraryStore {
    /// Migrate every legacy Discogs payload into the normalized match and
    /// candidate tables, clearing the payload column. Rows without a
    /// payload, and every other table, stay untouched, so running this
    /// again is a no-op.
    pub fn migrate_discogs_payloads(&mut self) -> (r: Result<(), LibraryError>)
        requires
            old(self).wf(),
            old(self).clock + old(self).tracks@.len() <= u64::MAX,
        ensures
            r is Ok,
            final(self).wf(),
            final(self).tracks@.len() == old(self).tracks@.len(),
            final(self).soundcloud_sources@ == old(self).soundcloud_sources@,
            final(self).rekordbox_sources@ == old(self).rekordbox_sources@,
            final(self).local_assets@ == old(self).local_assets@,
            final(self).rekordbox_mappings@ == old(self).rekordbox_mappings@,
            final(self).musicbrainz_matches@ == old(self).musicbrainz_matches@,
            final(self).musicbrainz_candidates@ == old(self).musicbrainz_candidates@,
            forall|j: int|
                0 <= j < old(self).tracks@.len() ==> migrated_dc_row(
                    #[trigger] final(self).tracks@[j],
                    old(self).tracks@[j],
                ),
            forall|j: int|
                #![trigger old(self).tracks@[j]]
                0 <= j < old(self).tracks@.len() ==> ({
                    let t = old(self).tracks@[j];
                    &&& (t.discogs_payload matches Some(p) ==> final(self).discogs_match(
                        t.track_id@,
                    ) == Some(discogs_match_row(crate::legacy::dc_legacy_record(t.track_id, p)))
                        && final(self).discogs_cands(t.track_id@) == dc_rows_for(
                        crate::legacy::dc_legacy_candidates(t.track_id, p),
                        t.track_id@,
                    ))
                    &&& (t.discogs_payload is None ==> final(self).discogs_match(t.track_id@)
                        == old(self).discogs_match(t.track_id@) && final(self).discogs_cands(
                        t.track_id@,
                    ) == old(self).discogs_cands(t.track_id@))
                }),
            forall|id: Seq<char>|
                old(self).track(id) is None ==> final(self).discogs_match(id) == old(self).discogs_match(id) && final(self).discogs_cands(id) == old(self).discogs_cands(id),
            old(self).clock <= final(self).clock <= old(self).clock + old(self).tracks@.len(),
            (forall|j: int|
                0 <= j < old(self).tracks@.len() ==> (#[trigger] old(self).tracks@[j]).discogs_payload is None) ==> final(self).tracks@ == old(self).tracks@
                && final(self).discogs_matches@ == old(self).discogs_matches@ && final(self).discogs_candidates@ == old(self).discogs_candidates@ && final(self).clock == old(self).clock,
    {
        let n = self.tracks.len();
        let mut i: usize = 0;
        while i < n
            invariant
                self.wf(),
                n == self.tracks@.len(),
                n == old(self).tracks@.len(),
                old(self).wf(),
                old(self).clock + n <= u64::MAX,
                self.soundcloud_sources@ == old(self).soundcloud_sources@,
                self.rekordbox_sources@ == old(self).rekordbox_sources@,
                self.local_assets@ == old(self).local_assets@,
                self.rekordbox_mappings@ == old(self).rekordbox_mappings@,
                self.musicbrainz_matches@ == old(self).musicbrainz_matches@,
                self.musicbrainz_candidates@ == old(self).musicbrainz_candidates@,
                0 <= i <= n,
                old(self).clock <= self.clock <= old(self).clock + i,
                forall|j: int| i <= j < n ==> #[trigger] self.tracks@[j] == old(self).tracks@[j],
                forall|j: int|
                    0 <= j < i ==> migrated_dc_row(
                        #[trigger] self.tracks@[j],
                        old(self).tracks@[j],
                    ),
                forall|j: int|
                    #![trigger old(self).tracks@[j]]
                    0 <= j < i ==> ({
                        let t = old(self).tracks@[j];
                        &&& (t.discogs_payload matches Some(p) ==> self.discogs_match(t.track_id@)
                            == Some(
                            discogs_match_row(crate::legacy::dc_legacy_record(t.track_id, p)),
                        ) && self.discogs_cands(t.track_id@) == dc_rows_for(
                            crate::legacy::dc_legacy_candidates(t.track_id, p),
                            t.track_id@,
                        ))
                        &&& (t.discogs_payload is None ==> self.discogs_match(t.track_id@) == old(self).discogs_match(t.track_id@) && self.discogs_cands(t.track_id@) == old(self).discogs_cands(t.track_id@))
                    }),
                forall|j: int|
                    i <= j < n ==> self.discogs_match(
                        (#[trigger] old(self).tracks@[j]).track_id@,
                    ) == old(self).discogs_match(old(self).tracks@[j].track_id@)
                        && self.discogs_cands(old(self).tracks@[j].track_id@) == old(self).discogs_cands(old(self).tracks@[j].track_id@),
                forall|id: Seq<char>|
                    old(self).track(id) is None ==> self.discogs_match(id) == old(self).discogs_match(id) && self.discogs_cands(id) == old(self).discogs_cands(id),
                (forall|j: int|
                    0 <= j < n ==> (#[trigger] old(self).tracks@[j]).discogs_payload is None)
                    ==> self.tracks@ == old(self).tracks@ && self.discogs_matches@ == old(self).discogs_matches@ && self.discogs_candidates@ == old(self).discogs_candidates@
                    && self.clock == old(self).clock,
            decreases n - i,
        {
            let has_payload = matches!(&self.tracks[i].discogs_payload, Some(_));
            if has_payload {
                let ghost pre = *self;
                let mut hold = TrackRow {
                    track_id: String::new(),
                    title: None,
                    artist: None,
                    album: None,
                    discogs_release_id: None,
                    discogs_confidence: None,
                    musicbrainz_release_id: None,
                    musicbrainz_confidence: None,
                    discogs_payload: None,
                    musicbrainz_payload: None,
                    updated_at: 0,
                };
                self.tracks.set_and_swap(i, &mut hold);
                let TrackRow {
                    track_id,
                    title,
                    artist,
                    album,
                    discogs_release_id: _,
                    discogs_confidence: _,
                    musicbrainz_release_id,
                    musicbrainz_confidence,
                    discogs_payload,
                    musicbrainz_payload,
                    updated_at: _,
                } = hold;
                let payload = match discogs_payload {
                    Some(p) => p,
                    None => {
                        proof {
                            assert(false);
                        }
                        LegacyMatchPayload {
                            status: String::new(),
                            query: None,
                            message: None,
                            release_id: None,
                            confidence: None,
                            release: None,
                            candidates: Vec::new(),
                        }
                    },
                };
                let (rec, cand_recs) = crate::legacy::interpret_legacy_discogs(
                    &track_id,
                    payload,
                );
                let new_row = TrackRow {
                    track_id: track_id.clone(),
                    title,
                    artist,
                    album,
                    discogs_release_id: clone_opt_string(&rec.release_id),
                    discogs_confidence: rec.confidence,
                    musicbrainz_release_id,
                    musicbrainz_confidence,
                    discogs_payload: None,
                    musicbrainz_payload,
                    updated_at: self.clock,
                };
                proof {
                    lemma_find_row_update_all(pre.tracks@, i as int, new_row);
                    assert(pre.tracks@.update(i as int, hold).update(i as int, new_row)
                        =~= pre.tracks@.update(i as int, new_row));
                }
                self.tracks.set(i, new_row);
                self.clock = self.clock + 1;
                proof {
                    let upd = pre.tracks@.update(i as int, new_row);
                    assert(self.tracks@ == upd);
                    assert forall|a: int, b: int| 0 <= a < b < upd.len() implies upd[a].updated_at
                        != upd[b].updated_at && upd[a].skey() != upd[b].skey() by {
                        if a != i && b != i {
                            assert(upd[a] == pre.tracks@[a] && upd[b] == pre.tracks@[b]);
                        } else if a == i {
                            assert(upd[b] == pre.tracks@[b]);
                        } else {
                            assert(upd[a] == pre.tracks@[a]);
                        }
                    }
                    assert forall|a: int| 0 <= a < upd.len() implies upd[a].updated_at
                        < self.clock by {
                        if a != i {
                            assert(upd[a] == pre.tracks@[a]);
                        }
                    }
                }
                let mrow = MatchRow {
                    track_id: rec.track_id,
                    release_id: rec.release_id,
                    confidence: rec.confidence,
                    status: rec.status.as_shared(),
                    query: rec.query,
                    message: rec.message,
                    checked_at: rec.checked_at,
                };
                proof {
                    assert(mrow == discogs_match_row(
                        crate::legacy::dc_legacy_record(
                            old(self).tracks@[i as int].track_id,
                            old(self).tracks@[i as int].discogs_payload->Some_0,
                        ),
                    ));
                }
                let ghost matches_mid = self.discogs_matches@;
                upsert_row(&mut self.discogs_matches, mrow);
                let ghost old_c = self.discogs_candidates@;
                let mut new_rows: Vec<CandidateRow> = Vec::new();
                let mut cands = cand_recs;
                let ghost orig_c = cands@;
                let ghost mut k: int = 0;
                proof {
                    assert(cands@ =~= orig_c.subrange(0, orig_c.len() as int));
                }
                while cands.len() > 0
                    invariant
                        0 <= k <= orig_c.len(),
                        cands@ == orig_c.subrange(k, orig_c.len() as int),
                        new_rows@ == dc_rows_for(orig_c.subrange(0, k), track_id@),
                    decreases cands@.len(),
                {
                    let c = cands.remove(0);
                    proof {
                        assert(c == orig_c[k]);
                        assert(cands@ =~= orig_c.subrange(k + 1, orig_c.len() as int));
                        assert(orig_c.subrange(0, k + 1).drop_last() =~= orig_c.subrange(0, k));
                        assert(orig_c.subrange(0, k + 1).last() == orig_c[k]);
                    }
                    if c.match_id.eq(&track_id) {
                        let crow = CandidateRow {
                            match_id: c.match_id,
                            release_id: c.release_id,
                            score: c.score,
                            raw_payload: c.raw_payload,
                        };
                        proof {
                            assert(crow == dc_cand_row(orig_c[k]));
                        }
                        new_rows.push(crow);
                    }
                    proof {
                        k = k + 1;
                    }
                }
                proof {
                    assert(orig_c.subrange(0, orig_c.len() as int) =~= orig_c);
                }
                retain_without(&mut self.discogs_candidates, &track_id);
                let ghost kept = self.discogs_candidates@;
                let ghost news = new_rows@;
                self.discogs_candidates.append(&mut new_rows);
                proof {
                    assert(self.discogs_candidates@ == kept + news);
                    lemma_dc_rows_for_members(orig_c, track_id@);
                    lemma_rows_without_members(old_c, track_id@);
                    lemma_rows_with_append(kept, news, track_id@);
                    lemma_rows_with_without(old_c, track_id@, track_id@);
                    lemma_rows_with_all(news, track_id@);
                    assert(rows_with(kept, track_id@) + news =~= news);
                    assert forall|id2: Seq<char>| id2 != track_id@ implies rows_with(
                        self.discogs_candidates@,
                        id2,
                    ) == rows_with(old_c, id2) by {
                        lemma_rows_with_append(kept, news, id2);
                        lemma_rows_with_without(old_c, track_id@, id2);
                        lemma_rows_with_none(news, id2);
                        assert(rows_with(kept, id2) + rows_with(news, id2) =~= rows_with(
                            kept,
                            id2,
                        ));
                    }
                    assert forall|j: int| 0 <= j < self.discogs_candidates@.len() implies has_row(
                        self.discogs_matches@,
                        (#[trigger] self.discogs_candidates@[j]).skey(),
                    ) by {
                        if j < kept.len() {
                            assert(self.discogs_candidates@[j] == kept[j]);
                            assert(old_c.contains(kept[j]));
                            let w = choose|w: int| 0 <= w < old_c.len() && old_c[w] == kept[j];
                            assert(has_row(matches_mid, old_c[w].skey()));
                        } else {
                            assert(self.discogs_candidates@[j] == news[j - kept.len()]);
                        }
                    }
                    // earlier effects survive: this id is distinct from theirs
                    assert forall|j: int| 0 <= j < i implies migrated_dc_row(
                        #[trigger] self.tracks@[j],
                        old(self).tracks@[j],
                    ) by {
                        assert(self.tracks@[j] == pre.tracks@[j]);
                    }
                    // ids without a track stay untouched: the migrated id has one
                    assert(old(self).tracks@[i as int].skey() == track_id@);
                    assert forall|id: Seq<char>| old(self).track(id) is None implies
                        self.discogs_match(id) == old(self).discogs_match(id)
                        && self.discogs_cands(id) == old(self).discogs_cands(id) by {
                        lemma_find_row_at_key(old(self).tracks@, track_id@, i as int);
                        assert(id != track_id@);
                    }
                }
            }
            i = i + 1;
            proof {
                if !has_payload {
                    assert(self.tracks@[i - 1] == old(self).tracks@[i - 1]);
                }
            }
        }
        Ok(())
    }
}

impl LibraryStore {
    /// Migrate every legacy MusicBrainz payload into the normalized match and
    /// candidate tables, clearing the payload column. Rows without a
    /// payload, and every other table, stay untouched, so running this
    /// again is a no-op.
    pub fn migrate_musicbrainz_payloads(&mut self) -> (r: Result<(), LibraryError>)
        requires
            old(self).wf(),
            old(self).clock + old(self).tracks@.len() <= u64::MAX,
        ensures
            r is Ok,
            final(self).wf(),
            final(self).tracks@.len() == old(self).tracks@.len(),
            final(self).soundcloud_sources@ == old(self).soundcloud_sources@,
            final(self).rekordbox_sources@ == old(self).rekordbox_sources@,
            final(self).local_assets@ == old(self).local_assets@,
            final(self).rekordbox_mappings@ == old(self).rekordbox_mappings@,
            final(self).discogs_matches@ == old(self).discogs_matches@,
            final(self).discogs_candidates@ == old(self).discogs_candidates@,
            forall|j: int|
                0 <= j < old(self).tracks@.len() ==> migrated_mb_row(
                    #[trigger] final(self).tracks@[j],
                    old(self).tracks@[j],
                ),
            forall|j: int|
                #![trigger old(self).tracks@[j]]
                0 <= j < old(self).tracks@.len() ==> ({
                    let t = old(self).tracks@[j];
                    &&& (t.musicbrainz_payload matches Some(p) ==> final(self).musicbrainz_match(
                        t.track_id@,
                    ) == Some(musicbrainz_match_row(crate::legacy::mb_legacy_record(t.track_id, p)))
                        && final(self).musicbrainz_cands(t.track_id@) == mb_rows_for(
                        crate::legacy::mb_legacy_candidates(t.track_id, p),
                        t.track_id@,
                    ))
                    &&& (t.musicbrainz_payload is None ==> final(self).musicbrainz_match(t.track_id@)
                        == old(self).musicbrainz_match(t.track_id@) && final(self).musicbrainz_cands(
                        t.track_id@,
                    ) == old(self).musicbrainz_cands(t.track_id@))
                }),
            forall|id: Seq<char>|
                old(self).track(id) is None ==> final(self).musicbrainz_match(id) == old(self).musicbrainz_match(id) && final(self).musicbrainz_cands(id) == old(self).musicbrainz_cands(id),
            old(self).clock <= final(self).clock <= old(self).clock + old(self).tracks@.len(),
            (forall|j: int|
                0 <= j < old(self).tracks@.len() ==> (#[trigger] old(self).tracks@[j]).musicbrainz_payload is None) ==> final(self).tracks@ == old(self).tracks@
                && final(self).musicbrainz_matches@ == old(self).musicbrainz_matches@ && final(self).musicbrainz_candidates@ == old(self).musicbrainz_candidates@ && final(self).clock == old(self).clock,
    {
        let n = self.tracks.len();
        let mut i: usize = 0;
        while i < n
            invariant
                self.wf(),
                n == self.tracks@.len(),
                n == old(self).tracks@.len(),
                old(self).wf(),
                old(self).clock + n <= u64::MAX,
                self.soundcloud_sources@ == old(self).soundcloud_sources@,
                self.rekordbox_sources@ == old(self).rekordbox_sources@,
                self.local_assets@ == old(self).local_assets@,
                self.rekordbox_mappings@ == old(self).rekordbox_mappings@,
                self.discogs_matches@ == old(self).discogs_matches@,
                self.discogs_candidates@ == old(self).discogs_candidates@,
                0 <= i <= n,
                old(self).clock <= self.clock <= old(self).clock + i,
                forall|j: int| i <= j < n ==> #[trigger] self.tracks@[j] == old(self).tracks@[j],
                forall|j: int|
                    0 <= j < i ==> migrated_mb_row(
                        #[trigger] self.tracks@[j],
                        old(self).tracks@[j],
                    ),
                forall|j: int|
                    #![trigger old(self).tracks@[j]]
                    0 <= j < i ==> ({
                        let t = old(self).tracks@[j];
                        &&& (t.musicbrainz_payload matches Some(p) ==> self.musicbrainz_match(t.track_id@)
                            == Some(
                            musicbrainz_match_row(crate::legacy::mb_legacy_record(t.track_id, p)),
                        ) && self.musicbrainz_cands(t.track_id@) == mb_rows_for(
                            crate::legacy::mb_legacy_candidates(t.track_id, p),
                            t.track_id@,
                        ))
                        &&& (t.musicbrainz_payload is None ==> self.musicbrainz_match(t.track_id@) == old(self).musicbrainz_match(t.track_id@) && self.musicbrainz_cands(t.track_id@) == old(self).musicbrainz_cands(t.track_id@))
                    }),
                forall|j: int|
                    i <= j < n ==> self.musicbrainz_match(
                        (#[trigger] old(self).tracks@[j]).track_id@,
                    ) == old(self).musicbrainz_match(old(self).tracks@[j].track_id@)
                        && self.musicbrainz_cands(old(self).tracks@[j].track_id@) == old(self).musicbrainz_cands(old(self).tracks@[j].track_id@),
                forall|id: Seq<char>|
                    old(self).track(id) is None ==> self.musicbrainz_match(id) == old(self).musicbrainz_match(id) && self.musicbrainz_cands(id) == old(self).musicbrainz_cands(id),
                (forall|j: int|
                    0 <= j < n ==> (#[trigger] old(self).tracks@[j]).musicbrainz_payload is None)
                    ==> self.tracks@ == old(self).tracks@ && self.musicbrainz_matches@ == old(self).musicbrainz_matches@ && self.musicbrainz_candidates@ == old(self).musicbrainz_candidates@
                    && self.clock == old(self).clock,
            decreases n - i,
        {
            let has_payload = matches!(&self.tracks[i].musicbrainz_payload, Some(_));
            if has_payload {
                let ghost pre = *self;
                let mut hold = TrackRow {
                    track_id: String::new(),
                    title: None,
                    artist: None,
                    album: None,
                    discogs_release_id: None,
                    discogs_confidence: None,
                    musicbrainz_release_id: None,
                    musicbrainz_confidence: None,
                    musicbrainz_payload: None,
                    discogs_payload: None,
                    updated_at: 0,
                };
                self.tracks.set_and_swap(i, &mut hold);
                let TrackRow {
                    track_id,
                    title,
                    artist,
                    album,
                    discogs_release_id,
                    discogs_confidence,
                    musicbrainz_release_id: _,
                    musicbrainz_confidence: _,
                    discogs_payload,
                    musicbrainz_payload,
                    updated_at: _,
                } = hold;
                let payload = match musicbrainz_payload {
                    Some(p) => p,
                    None => {
                        proof {
                            assert(false);
                        }
                        LegacyMatchPayload {
                            status: String::new(),
                            query: None,
                            message: None,
                            release_id: None,
                            confidence: None,
                            release: None,
                            candidates: Vec::new(),
                        }
                    },
                };
                let (rec, cand_recs) = crate::legacy::interpret_legacy_musicbrainz(
                    &track_id,
                    payload,
                );
                let new_row = TrackRow {
                    track_id: track_id.clone(),
                    title,
                    artist,
                    album,
                    discogs_release_id,
                    discogs_confidence,
                    musicbrainz_release_id: clone_opt_string(&rec.release_id),
                    musicbrainz_confidence: rec.confidence,
                    discogs_payload,
                    musicbrainz_payload: None,
                    updated_at: self.clock,
                };
                proof {
                    lemma_find_row_update_all(pre.tracks@, i as int, new_row);
                    assert(pre.tracks@.update(i as int, hold).update(i as int, new_row)
                        =~= pre.tracks@.update(i as int, new_row));
                }
                self.tracks.set(i, new_row);
                self.clock = self.clock + 1;
                proof {
                    let upd = pre.tracks@.update(i as int, new_row);
                    assert(self.tracks@ == upd);
                    assert forall|a: int, b: int| 0 <= a < b < upd.len() implies upd[a].updated_at
                        != upd[b].updated_at && upd[a].skey() != upd[b].skey() by {
                        if a != i && b != i {
                            assert(upd[a] == pre.tracks@[a] && upd[b] == pre.tracks@[b]);
                        } else if a == i {
                            assert(upd[b] == pre.tracks@[b]);
                        } else {
                            assert(upd[a] == pre.tracks@[a]);
                        }
                    }
                    assert forall|a: int| 0 <= a < upd.len() implies upd[a].updated_at
                        < self.clock by {
                        if a != i {
                            assert(upd[a] == pre.tracks@[a]);
                        }
                    }
                }
                let mrow = MatchRow {
                    track_id: rec.track_id,
                    release_id: rec.release_id,
                    confidence: rec.confidence,
                    status: rec.status.as_shared(),
                    query: rec.query,
                    message: rec.message,
                    checked_at: rec.checked_at,
                };
                proof {
                    assert(mrow == musicbrainz_match_row(
                        crate::legacy::mb_legacy_record(
                            old(self).tracks@[i as int].track_id,
                            old(self).tracks@[i as int].musicbrainz_payload->Some_0,
                        ),
                    ));
                }
                let ghost matches_mid = self.musicbrainz_matches@;
                upsert_row(&mut self.musicbrainz_matches, mrow);
                let ghost old_c = self.musicbrainz_candidates@;
                let mut new_rows: Vec<CandidateRow> = Vec::new();
                let mut cands = cand_recs;
                let ghost orig_c = cands@;
                let ghost mut k: int = 0;
                proof {
                    assert(cands@ =~= orig_c.subrange(0, orig_c.len() as int));
                }
                while cands.len() > 0
                    invariant
                        0 <= k <= orig_c.len(),
                        cands@ == orig_c.subrange(k, orig_c.len() as int),
                        new_rows@ == mb_rows_for(orig_c.subrange(0, k), track_id@),
                    decreases cands@.len(),
                {
                    let c = cands.remove(0);
                    proof {
                        assert(c == orig_c[k]);
                        assert(cands@ =~= orig_c.subrange(k + 1, orig_c.len() as int));
                        assert(orig_c.subrange(0, k + 1).drop_last() =~= orig_c.subrange(0, k));
                        assert(orig_c.subrange(0, k + 1).last() == orig_c[k]);
                    }
                    if c.match_id.eq(&track_id) {
                        let crow = CandidateRow {
                            match_id: c.match_id,
                            release_id: c.release_id,
                            score: c.score,
                            raw_payload: c.raw_payload,
                        };
                        proof {
                            assert(crow == mb_cand_row(orig_c[k]));
                        }
                        new_rows.push(crow);
                    }
                    proof {
                        k = k + 1;
                    }
                }
                proof {
                    assert(orig_c.subrange(0, orig_c.len() as int) =~= orig_c);
                }
                retain_without(&mut self.musicbrainz_candidates, &track_id);
                let ghost kept = self.musicbrainz_candidates@;
                let ghost news = new_rows@;
                self.musicbrainz_candidates.append(&mut new_rows);
                proof {
                    assert(self.musicbrainz_candidates@ == kept + news);
                    lemma_mb_rows_for_members(orig_c, track_id@);
                    lemma_rows_without_members(old_c, track_id@);
                    lemma_rows_with_append(kept, news, track_id@);
                    lemma_rows_with_without(old_c, track_id@, track_id@);
                    lemma_rows_with_all(news, track_id@);
                    assert(rows_with(kept, track_id@) + news =~= news);
                    assert forall|id2: Seq<char>| id2 != track_id@ implies rows_with(
                        self.musicbrainz_candidates@,
                        id2,
                    ) == rows_with(old_c, id2) by {
                        lemma_rows_with_append(kept, news, id2);
                        lemma_rows_with_without(old_c, track_id@, id2);
                        lemma_rows_with_none(news, id2);
                        assert(rows_with(kept, id2) + rows_with(news, id2) =~= rows_with(
                            kept,
                            id2,
                        ));
                    }
                    assert forall|j: int| 0 <= j < self.musicbrainz_candidates@.len() implies has_row(
                        self.musicbrainz_matches@,
                        (#[trigger] self.musicbrainz_candidates@[j]).skey(),
                    ) by {
                        if j < kept.len() {
                            assert(self.musicbrainz_candidates@[j] == kept[j]);
                            assert(old_c.contains(kept[j]));
                            let w = choose|w: int| 0 <= w < old_c.len() && old_c[w] == kept[j];
                            assert(has_row(matches_mid, old_c[w].skey()));
                        } else {
                            assert(self.musicbrainz_candidates@[j] == news[j - kept.len()]);
                        }
                    }
                    // earlier effects survive: this id is distinct from theirs
                    assert forall|j: int| 0 <= j < i implies migrated_mb_row(
                        #[trigger] self.tracks@[j],
                        old(self).tracks@[j],
                    ) by {
                        assert(self.tracks@[j] == pre.tracks@[j]);
                    }
                    // ids without a track stay untouched: the migrated id has one
                    assert(old(self).tracks@[i as int].skey() == track_id@);
                    assert forall|id: Seq<char>| old(self).track(id) is None implies
                        self.musicbrainz_match(id) == old(self).musicbrainz_match(id)
                        && self.musicbrainz_cands(id) == old(self).musicbrainz_cands(id) by {
                        lemma_find_row_at_key(old(self).tracks@, track_id@, i as int);
                        assert(id != track_id@);
                    }
                }
            }
            i = i + 1;
            proof {
                if !has_payload {
                    assert(self.tracks@[i - 1] == old(self).tracks@[i - 1]);
                }
            }
        }
        Ok(())
    }
}

impl LibraryStore {
    /// Run both legacy-payload migrations, in their own pass before normal
    /// operation. After it no track carries a legacy payload, so running it
    /// again changes nothing.
    pub fn apply_migrations(&mut self) -> (r: Result<(), LibraryError>)
        requires
            old(self).wf(),
            old(self).clock + 2 * old(self).tracks@.len() <= u64::MAX,
        ensures
            r is Ok,
            final(self).wf(),
            final(self).tracks@.len() == old(self).tracks@.len(),
            final(self).soundcloud_sources@ == old(self).soundcloud_sources@,
            final(self).rekordbox_sources@ == old(self).rekordbox_sources@,
            final(self).local_assets@ == old(self).local_assets@,
            final(self).rekordbox_mappings@ == old(self).rekordbox_mappings@,
            forall|j: int|
                #![trigger old(self).tracks@[j]]
                0 <= j < old(self).tracks@.len() ==> ({
                    let t = old(self).tracks@[j];
                    let t2 = final(self).tracks@[j];
                    &&& t2.track_id == t.track_id
                    &&& t2.title == t.title
                    &&& t2.artist == t.artist
                    &&& t2.album == t.album
                    &&& t2.discogs_payload is None
                    &&& t2.musicbrainz_payload is None
                    &&& (t.discogs_payload matches Some(p) ==> final(self).discogs_match(
                        t.track_id@,
                    ) == Some(discogs_match_row(crate::legacy::dc_legacy_record(t.track_id, p)))
                        && final(self).discogs_cands(t.track_id@) == dc_rows_for(
                        crate::legacy::dc_legacy_candidates(t.track_id, p),
                        t.track_id@,
                    ) && t2.discogs_release_id == crate::legacy::dc_legacy_record(
                        t.track_id,
                        p,
                    ).release_id && t2.discogs_confidence == crate::legacy::dc_legacy_record(
                        t.track_id,
                        p,
                    ).confidence)
                    &&& (t.discogs_payload is None ==> final(self).discogs_match(t.track_id@)
                        == old(self).discogs_match(t.track_id@) && final(self).discogs_cands(
                        t.track_id@,
                    ) == old(self).discogs_cands(t.track_id@) && t2.discogs_release_id
                        == t.discogs_release_id && t2.discogs_confidence == t.discogs_confidence)
                    &&& (t.musicbrainz_payload matches Some(p) ==> final(self).musicbrainz_match(
                        t.track_id@,
                    ) == Some(
                        musicbrainz_match_row(crate::legacy::mb_legacy_record(t.track_id, p)),
                    ) && final(self).musicbrainz_cands(t.track_id@) == mb_rows_for(
                        crate::legacy::mb_legacy_candidates(t.track_id, p),
                        t.track_id@,
                    ) && t2.musicbrainz_release_id == crate::legacy::mb_legacy_record(
                        t.track_id,
                        p,
                    ).release_id && t2.musicbrainz_confidence == crate::legacy::mb_legacy_record(
                        t.track_id,
                        p,
                    ).confidence)
                    &&& (t.musicbrainz_payload is None ==> final(self).musicbrainz_match(
                        t.track_id@,
                    ) == old(self).musicbrainz_match(t.track_id@) && final(self).musicbrainz_cands(t.track_id@) == old(self).musicbrainz_cands(t.track_id@)
                        && t2.musicbrainz_release_id == t.musicbrainz_release_id
                        && t2.musicbrainz_confidence == t.musicbrainz_confidence)
                }),
            forall|id: Seq<char>|
                old(self).track(id) is None ==> final(self).discogs_match(id) == old(self).discogs_match(id) && final(self).discogs_cands(id) == old(self).discogs_cands(id)
                    && final(self).musicbrainz_match(id) == old(self).musicbrainz_match(id)
                    && final(self).musicbrainz_cands(id) == old(self).musicbrainz_cands(id),
            old(self).clock <= final(self).clock <= old(self).clock + 2 * old(self).tracks@.len(),
            (forall|j: int|
                0 <= j < old(self).tracks@.len() ==> (#[trigger] old(self).tracks@[j]).discogs_payload is None && old(self).tracks@[j].musicbrainz_payload
                    is None) ==> final(self).tracks@ == old(self).tracks@ && final(self).discogs_matches@ == old(self).discogs_matches@ && final(self).discogs_candidates@
                == old(self).discogs_candidates@ && final(self).musicbrainz_matches@ == old(self).musicbrainz_matches@ && final(self).musicbrainz_candidates@ == old(self).musicbrainz_candidates@ && final(self).clock == old(self).clock,
    {
        let _ = self.migrate_discogs_payloads();
        let ghost mid = *self;
        let _ = self.migrate_musicbrainz_payloads();
        proof {
            // relate the second pass, stated over the intermediate state, back
            // to the input state: the first pass keeps every track's identity
            // and its MusicBrainz side
            assert forall|j: int|
                #![trigger old(self).tracks@[j]]
                0 <= j < old(self).tracks@.len() implies ({
                let t = old(self).tracks@[j];
                let t2 = self.tracks@[j];
                &&& t2.track_id == t.track_id
                &&& t2.title == t.title
                &&& t2.artist == t.artist
                &&& t2.album == t.album
                &&& t2.discogs_payload is None
                &&& t2.musicbrainz_payload is None
                &&& (t.discogs_payload matches Some(p) ==> self.discogs_match(t.track_id@)
                    == Some(discogs_match_row(crate::legacy::dc_legacy_record(t.track_id, p)))
                    && self.discogs_cands(t.track_id@) == dc_rows_for(
                    crate::legacy::dc_legacy_candidates(t.track_id, p),
                    t.track_id@,
                ) && t2.discogs_release_id == crate::legacy::dc_legacy_record(
                    t.track_id,
                    p,
                ).release_id && t2.discogs_confidence == crate::legacy::dc_legacy_record(
                    t.track_id,
                    p,
                ).confidence)
                &&& (t.discogs_payload is None ==> self.discogs_match(t.track_id@) == old(self).discogs_match(t.track_id@) && self.discogs_cands(t.track_id@) == old(self).discogs_cands(t.track_id@) && t2.discogs_release_id == t.discogs_release_id
                    && t2.discogs_confidence == t.discogs_confidence)
                &&& (t.musicbrainz_payload matches Some(p) ==> self.musicbrainz_match(
                    t.track_id@,
                ) == Some(musicbrainz_match_row(crate::legacy::mb_legacy_record(t.track_id, p)))
                    && self.musicbrainz_cands(t.track_id@) == mb_rows_for(
                    crate::legacy::mb_legacy_candidates(t.track_id, p),
                    t.track_id@,
                ) && t2.musicbrainz_release_id == crate::legacy::mb_legacy_record(
                    t.track_id,
                    p,
                ).release_id && t2.musicbrainz_confidence == crate::legacy::mb_legacy_record(
                    t.track_id,
                    p,
                ).confidence)
                &&& (t.musicbrainz_payload is None ==> self.musicbrainz_match(t.track_id@)
                    == old(self).musicbrainz_match(t.track_id@) && self.musicbrainz_cands(
                    t.track_id@,
                ) == old(self).musicbrainz_cands(t.track_id@) && t2.musicbrainz_release_id
                    == t.musicbrainz_release_id && t2.musicbrainz_confidence
                    == t.musicbrainz_confidence)
            }) by {
                let t = old(self).tracks@[j];
                let t1 = mid.tracks@[j];
                assert(migrated_dc_row(t1, t));
                assert(migrated_mb_row(self.tracks@[j], t1));
                assert(t1.track_id == t.track_id);
                assert(t1.musicbrainz_payload == t.musicbrainz_payload);
            }
            // ids without a track keep their match state: the first pass says
            // so of the input state, the second of the intermediate one, whose
            // track keys are the same
            assert forall|id: Seq<char>| old(self).track(id) is None implies self.discogs_match(
                id,
            ) == old(self).discogs_match(id) && self.discogs_cands(id) == old(self).discogs_cands(
                id,
            ) && self.musicbrainz_match(id) == old(self).musicbrainz_match(id)
                && self.musicbrainz_cands(id) == old(self).musicbrainz_cands(id) by {
                lemma_find_row_none(old(self).tracks@, id);
                assert forall|k: int| 0 <= k < mid.tracks@.len() implies (
                #[trigger] mid.tracks@[k]).skey() != id by {
                    assert(migrated_dc_row(mid.tracks@[k], old(self).tracks@[k]));
                }
                lemma_find_row_absent(mid.tracks@, id);
            }
        }
        Ok(())
    }
}

impl LibraryStore {
    /// Decide the store invariant. A caller that rebuilds a store from
    /// outside data (a persisted image, a foreign database) cannot be held
    /// to `wf` by the verifier, so it checks the result of this instead.
    pub fn check_wf(&self) -> (r: bool)
        ensures
            r == self.wf(),
    {
        if !check_unique(&self.tracks) {
            return false;
        }
        if !check_unique(&self.soundcloud_sources) {
            return false;
        }
        if !check_unique(&self.rekordbox_sources) {
            return false;
        }
        if !check_unique(&self.local_assets) {
            return false;
        }
        if !check_unique(&self.rekordbox_mappings) {
            return false;
        }
        if !check_unique(&self.discogs_matches) {
            return false;
        }
        if !check_unique(&self.musicbrainz_matches) {
            return false;
        }
        if !check_refs(&self.soundcloud_sources, &self.tracks) {
            return false;
        }
        if !check_refs(&self.rekordbox_sources, &self.tracks) {
            return false;
        }
        if !check_refs(&self.local_assets, &self.tracks) {
            return false;
        }
        if !check_refs(&self.discogs_matches, &self.tracks) {
            return false;
        }
        if !check_refs(&self.musicbrainz_matches, &self.tracks) {
            return false;
        }
        if !check_refs(&self.discogs_candidates, &self.discogs_matches) {
            return false;
        }
        if !check_refs(&self.musicbrainz_candidates, &self.musicbrainz_matches) {
            return false;
        }
        let mut k: usize = 0;
        while k < self.rekordbox_mappings.len()
            invariant
                0 <= k <= self.rekordbox_mappings@.len(),
                forall|w: int|
                    0 <= w < k ==> has_row(
                        self.tracks@,
                        (#[trigger] self.rekordbox_mappings@[w]).track_id@,
                    ) && self.rekordbox_mappings@[w].track_id@ == rb_track_id(
                        self.rekordbox_mappings@[w].rekordbox_id@,
                    ),
            decreases self.rekordbox_mappings@.len() - k,
        {
            let m = &self.rekordbox_mappings[k];
            match find_index(&self.tracks, &m.track_id) {
                Some(_) => {},
                None => {
                    return false;
                },
            }
            let minted = make_rb_track_id(&m.rekordbox_id);
            if !m.track_id.eq(&minted) {
                return false;
            }
            k = k + 1;
        }
        let mut i: usize = 0;
        while i < self.tracks.len()
            invariant
                0 <= i <= self.tracks@.len(),
                forall|w: int|
                    0 <= w < i ==> (#[trigger] self.tracks@[w]).updated_at < self.clock,
                forall|a: int, b: int|
                    0 <= a < b < self.tracks@.len() && a < i ==> self.tracks@[a].updated_at
                        != self.tracks@[b].updated_at,
            decreases self.tracks@.len() - i,
        {
            if self.tracks[i].updated_at >= self.clock {
                return false;
            }
            let mut j: usize = i + 1;
            while j < self.tracks.len()
                invariant
                    0 <= i < j <= self.tracks@.len(),
                    forall|w: int|
                        0 <= w < i ==> (#[trigger] self.tracks@[w]).updated_at < self.clock,
                    self.tracks@[i as int].updated_at < self.clock,
                    forall|a: int, b: int|
                        0 <= a < b < self.tracks@.len() && a < i ==> self.tracks@[a].updated_at
                            != self.tracks@[b].updated_at,
                    forall|b: int|
                        i < b < j ==> self.tracks@[i as int].updated_at != (
                        #[trigger] self.tracks@[b]).updated_at,
                decreases self.tracks@.len() - j,
            {
                if self.tracks[i].updated_at == self.tracks[j].updated_at {
                    return false;
                }
                j = j + 1;
            }
            i = i + 1;
        }
        true
    }
}

/// Whether some incoming track's identity is the given one.
pub open spec fn incoming_tid(tracks: Seq<RekordboxTrack>, id: Seq<char>) -> bool {
    exists|k: int| 0 <= k < tracks.len() && rb_track_id(tracks[k].rekordbox_id@) == id
}

/// The effect of importing one track, relative to the store before the
/// import.
pub open spec fn synced(post: LibraryStore, prev: LibraryStore, tr: RekordboxTrack) -> bool {
    let tid = rb_track_id(tr.rekordbox_id@);
    &&& post.mapping(tr.rekordbox_id@) matches Some(m) && m.track_id@ == tid
    &&& post.track(tid) matches Some(t) && t.title == tr.title && t.artist == tr.artist && t.album
        == tr.album
    &&& (prev.track(tid) matches Some(p) ==> {
        let t = post.track(tid)->Some_0;
        &&& t.discogs_release_id == p.discogs_release_id
        &&& t.discogs_confidence == p.discogs_confidence
        &&& t.musicbrainz_release_id == p.musicbrainz_release_id
        &&& t.musicbrainz_confidence == p.musicbrainz_confidence
    })
    &&& post.rekordbox_source(tid) matches Some(s) && s.payload == RekordboxPayload::LibraryTrack(
        tr,
    )
    &&& (rb_location(tr) matches Some(l) ==> (post.asset(tid) matches Some(a) && a.location == l
        && a.checksum == tr.checksum && a.available == tr.available && a.duration_ms == (
    match tr.duration_ms {
        Some(d) => Some(d as i64),
        None => None,
    })))
    &&& (rb_location(tr) is None ==> post.asset(tid) == prev.asset(tid))
}

/// Every row of a track made stale by an import is gone.
pub open spec fn cleared(post: LibraryStore, tid: Seq<char>) -> bool {
    &&& post.track(tid) is None
    &&& post.soundcloud_source(tid) is None
    &&& post.rekordbox_source(tid) is None
    &&& post.asset(tid) is None
    &&& post.discogs_match(tid) is None
    &&& post.musicbrainz_match(tid) is None
    &&& post.discogs_cands(tid) == Seq::<CandidateRow>::empty()
    &&& post.musicbrainz_cands(tid) == Seq::<CandidateRow>::empty()
}

/// The external ids of mappings that the incoming track list no longer
/// carries, in table order.
pub open spec fn stale_ids(maps: Seq<MappingRow>, tracks: Seq<RekordboxTrack>) -> Seq<String>
    decreases maps.len(),
{
    if maps.len() == 0 {
        Seq::empty()
    } else {
        let rest = stale_ids(maps.drop_last(), tracks);
        if !incoming(tracks, maps.last().rekordbox_id@) {
            rest.push(maps.last().rekordbox_id)
        } else {
            rest
        }
    }
}

proof fn lemma_stale_ids_sound(maps: Seq<MappingRow>, tracks: Seq<RekordboxTrack>)
    ensures
        forall|q: int|
            0 <= q < stale_ids(maps, tracks).len() ==> !incoming(
                tracks,
                (#[trigger] stale_ids(maps, tracks)[q])@,
            ) && exists|w: int|
                0 <= w < maps.len() && (#[trigger] maps[w]).rekordbox_id@ == stale_ids(
                    maps,
                    tracks,
                )[q]@,
    decreases maps.len(),
{
    if maps.len() > 0 {
        lemma_stale_ids_sound(maps.drop_last(), tracks);
        let out = stale_ids(maps, tracks);
        let rest = stale_ids(maps.drop_last(), tracks);
        assert forall|q: int| 0 <= q < out.len() implies !incoming(tracks, (#[trigger] out[q])@)
            && exists|w: int| 0 <= w < maps.len() && (#[trigger] maps[w]).rekordbox_id@ == out[q]@
            by {
            if !incoming(tracks, maps.last().rekordbox_id@) && q == out.len() - 1 {
                assert(out[q] == maps.last().rekordbox_id);
                assert(maps[maps.len() - 1].rekordbox_id@ == out[q]@);
            } else {
                assert(out[q] == rest[q]);
                let w0 = choose|w: int|
                    0 <= w < maps.drop_last().len() && (#[trigger] maps.drop_last()[w]).rekordbox_id@
                        == rest[q]@;
                assert(maps[w0].rekordbox_id@ == out[q]@);
            }
        }
    }
}

proof fn lemma_stale_ids_complete(maps: Seq<MappingRow>, tracks: Seq<RekordboxTrack>, w: int)
    requires
        0 <= w < maps.len(),
        !incoming(tracks, maps[w].rekordbox_id@),
    ensures
        exists|q: int|
            0 <= q < stale_ids(maps, tracks).len() && (#[trigger] stale_ids(maps, tracks)[q])@
                == maps[w].rekordbox_id@,
    decreases maps.len(),
{
    let out = stale_ids(maps, tracks);
    let rest = stale_ids(maps.drop_last(), tracks);
    if w == maps.len() - 1 {
        assert(out[out.len() - 1] == maps.last().rekordbox_id);
    } else {
        lemma_stale_ids_complete(maps.drop_last(), tracks, w);
        let q0 = choose|q: int|
            0 <= q < rest.len() && (#[trigger] rest[q])@ == maps.drop_last()[w].rekordbox_id@;
        assert(out[q0]@ == maps[w].rekordbox_id@);
    }
}

proof fn lemma_stale_ids_distinct(maps: Seq<MappingRow>, tracks: Seq<RekordboxTrack>)
    requires
        unique_keys(maps),
    ensures
        forall|q1: int, q2: int|
            0 <= q1 < q2 < stale_ids(maps, tracks).len() ==> (#[trigger] stale_ids(
                maps,
                tracks,
            )[q1])@ != (#[trigger] stale_ids(maps, tracks)[q2])@,
    decreases maps.len(),
{
    if maps.len() > 0 {
        let prefix = maps.drop_last();
        assert(unique_keys(prefix)) by {
            assert(forall|i: int, j: int|
                0 <= i < j < prefix.len() ==> prefix[i] == maps[i] && prefix[j] == maps[j]);
        }
        lemma_stale_ids_distinct(prefix, tracks);
        lemma_stale_ids_sound(prefix, tracks);
        let out = stale_ids(maps, tracks);
        let rest = stale_ids(prefix, tracks);
        assert forall|q1: int, q2: int| 0 <= q1 < q2 < out.len() implies (#[trigger] out[q1])@ != (
        #[trigger] out[q2])@ by {
            if q2 < rest.len() {
                assert(out[q1] == rest[q1] && out[q2] == rest[q2]);
            } else {
                assert(out[q1] == rest[q1]);
                assert(out[q2] == maps.last().rekordbox_id);
                let w0 = choose|w: int|
                    0 <= w < prefix.len() && (#[trigger] prefix[w]).rekordbox_id@ == rest[q1]@;
                assert(maps[w0].skey() != maps[maps.len() - 1].skey());
            }
        }
    }
}

/// Whether some incoming track carries the external id.
fn has_incoming(tracks: &Vec<RekordboxTrack>, rb: &String) -> (r: bool)
    ensures
        r == incoming(tracks@, rb@),
{
    let mut i: usize = 0;
    while i < tracks.len()
        invariant
            0 <= i <= tracks@.len(),
            forall|j: int| 0 <= j < i ==> (#[trigger] tracks@[j]).rekordbox_id@ != rb@,
        decreases tracks@.len() - i,
    {
        if tracks[i].rekordbox_id.eq(rb) {
            return true;
        }
        i = i + 1;
    }
    false
}

impl LibraryStore {
    /// Reconcile the whole DJ-library import: upsert every incoming track
    /// (reusing the identity minted for its external id), then delete every
    /// track whose mapping the import no longer carries, cascading to all
    /// dependent rows.
    pub fn sync_rekordbox_tracks(&mut self, tracks: Vec<RekordboxTrack>) -> (r: Result<
        (),
        LibraryError,
    >)
        requires
            old(self).wf(),
            forall|i: int, j: int|
                0 <= i < j < tracks@.len() ==> tracks@[i].rekordbox_id@
                    != tracks@[j].rekordbox_id@,
            forall|k: int|
                0 <= k < tracks@.len() ==> ((#[trigger] tracks@[k]).duration_ms matches Some(d)
                    ==> d <= i64::MAX as u64),
            old(self).clock + tracks@.len() <= u64::MAX,
        ensures
            r is Ok,
            final(self).wf(),
            forall|k: int|
                0 <= k < tracks@.len() ==> synced(*final(self), *old(self), #[trigger] tracks@[k]),
            forall|rb: Seq<char>|
                #![trigger old(self).mapping(rb)]
                old(self).mapping(rb) is Some && !incoming(tracks@, rb) ==> final(self).mapping(rb)
                    is None && cleared(*final(self), rb_track_id(rb)),
            forall|rb: Seq<char>|
                #![trigger final(self).mapping(rb)]
                !incoming(tracks@, rb) ==> final(self).mapping(rb) is None || old(self).mapping(rb)
                    is Some,
            forall|id: Seq<char>|
                #![trigger final(self).track(id)]
                !incoming_tid(tracks@, id) && !stale_tid(*old(self), tracks@, id) ==> final(self).track(id) == old(self).track(id) && final(self).rekordbox_source(id) == old(self).rekordbox_source(id) && final(self).asset(id) == old(self).asset(id),
            forall|id: Seq<char>|
                #![trigger final(self).soundcloud_source(id)]
                !stale_tid(*old(self), tracks@, id) ==> final(self).soundcloud_source(id) == old(self).soundcloud_source(id) && final(self).discogs_match(id) == old(self).discogs_match(
                    id,
                ) && final(self).musicbrainz_match(id) == old(self).musicbrainz_match(id) && final(self).discogs_cands(id) == old(self).discogs_cands(id) && final(self).musicbrainz_cands(id) == old(self).musicbrainz_cands(id),
            old(self).clock <= final(self).clock <= old(self).clock + tracks@.len(),
    {
        let ghost orig_t = tracks@;
        let ghost prev = *old(self);
        // collect the external ids that this import makes stale
        let mut stale: Vec<String> = Vec::new();
        let mut i: usize = 0;
        proof {
            assert(self.rekordbox_mappings@.subrange(0, 0) =~= Seq::<MappingRow>::empty());
        }
        while i < self.rekordbox_mappings.len()
            invariant
                0 <= i <= self.rekordbox_mappings@.len(),
                *self == prev,
                stale@ == stale_ids(prev.rekordbox_mappings@.subrange(0, i as int), orig_t),
                tracks@ == orig_t,
            decreases self.rekordbox_mappings@.len() - i,
        {
            proof {
                assert(prev.rekordbox_mappings@.subrange(0, i + 1).drop_last()
                    =~= prev.rekordbox_mappings@.subrange(0, i as int));
                assert(prev.rekordbox_mappings@.subrange(0, i + 1).last()
                    == prev.rekordbox_mappings@[i as int]);
            }
            let m = &self.rekordbox_mappings[i];
            if !has_incoming(&tracks, &m.rekordbox_id) {
                stale.push(m.rekordbox_id.clone());
            }
            i = i + 1;
        }
        proof {
            assert(prev.rekordbox_mappings@.subrange(0, prev.rekordbox_mappings@.len() as int)
                =~= prev.rekordbox_mappings@);
            lemma_stale_ids_sound(prev.rekordbox_mappings@, orig_t);
            lemma_stale_ids_distinct(prev.rekordbox_mappings@, orig_t);
        }
        let ghost stale_seq = stale@;
        proof {
            assert forall|q: int| 0 <= q < stale_seq.len() implies prev.mapping(
                (#[trigger] stale_seq[q])@,
            ) is Some by {
                let w = choose|w: int|
                    0 <= w < prev.rekordbox_mappings@.len() && (
                    #[trigger] prev.rekordbox_mappings@[w]).rekordbox_id@ == stale_seq[q]@;
                lemma_find_row_at_key(prev.rekordbox_mappings@, stale_seq[q]@, w);
            }
        }
        // upsert every incoming track
        let mut tracks = tracks;
        let ghost mut k: int = 0;
        proof {
            assert(tracks@ =~= orig_t.subrange(0, orig_t.len() as int));
        }
        while tracks.len() > 0
            invariant
                0 <= k <= orig_t.len(),
                tracks@ == orig_t.subrange(k, orig_t.len() as int),
                self.wf(),
                prev.wf(),
                prev.clock + orig_t.len() <= u64::MAX,
                forall|i2: int, j2: int|
                    0 <= i2 < j2 < orig_t.len() ==> orig_t[i2].rekordbox_id@
                        != orig_t[j2].rekordbox_id@,
                forall|k2: int|
                    0 <= k2 < orig_t.len() ==> ((#[trigger] orig_t[k2]).duration_ms matches Some(d)
                        ==> d <= i64::MAX as u64),
                prev.clock <= self.clock <= prev.clock + k,
                forall|j: int| 0 <= j < k ==> synced(*self, prev, #[trigger] orig_t[j]),
                forall|rb: Seq<char>|
                    #![trigger self.mapping(rb)]
                    !incoming(orig_t.subrange(0, k), rb) ==> self.mapping(rb) == prev.mapping(rb),
                forall|id: Seq<char>|
                    #![trigger self.track(id)]
                    !incoming_tid(orig_t.subrange(0, k), id) ==> self.track(id) == prev.track(id)
                        && self.rekordbox_source(id) == prev.rekordbox_source(id) && self.asset(id)
                        == prev.asset(id),
                self.soundcloud_sources@ == prev.soundcloud_sources@,
                self.discogs_matches@ == prev.discogs_matches@,
                self.musicbrainz_matches@ == prev.musicbrainz_matches@,
                self.discogs_candidates@ == prev.discogs_candidates@,
                self.musicbrainz_candidates@ == prev.musicbrainz_candidates@,
            decreases tracks@.len(),
        {
            let ghost pre_iter = *self;
            let tr = tracks.remove(0);
            proof {
                assert(tr == orig_t[k]);
                assert(tracks@ =~= orig_t.subrange(k + 1, orig_t.len() as int));
            }
            self.upsert_rb_track(tr);
            proof {
                let rb_k = orig_t[k].rekordbox_id@;
                let tid_k = rb_track_id(rb_k);
                // earlier effects survive: this step only touches its own ids
                assert forall|j: int| 0 <= j < k + 1 implies synced(
                    *self,
                    prev,
                    #[trigger] orig_t[j],
                ) by {
                    if j < k {
                        let rb_j = orig_t[j].rekordbox_id@;
                        let tid_j = rb_track_id(rb_j);
                        assert(rb_j != rb_k);
                        if tid_j == tid_k {
                            lemma_rb_track_id_injective(rb_j, rb_k);
                        }
                        assert(synced(pre_iter, prev, orig_t[j]));
                    } else {
                        assert(!incoming_tid(orig_t.subrange(0, k), tid_k)) by {
                            if incoming_tid(orig_t.subrange(0, k), tid_k) {
                                let w = choose|w: int|
                                    0 <= w < k && rb_track_id(
                                        (orig_t.subrange(0, k))[w].rekordbox_id@,
                                    ) == tid_k;
                                lemma_rb_track_id_injective(
                                    orig_t.subrange(0, k)[w].rekordbox_id@,
                                    rb_k,
                                );
                            }
                        }
                        assert(pre_iter.track(tid_k) == prev.track(tid_k));
                        assert(pre_iter.asset(tid_k) == prev.asset(tid_k));
                    }
                }
                assert forall|rb: Seq<char>|
                    !incoming(orig_t.subrange(0, k + 1), rb) implies #[trigger] self.mapping(rb)
                    == prev.mapping(rb) by {
                    assert(!incoming(orig_t.subrange(0, k), rb)) by {
                        if incoming(orig_t.subrange(0, k), rb) {
                            let w = choose|w: int|
                                0 <= w < k && (orig_t.subrange(0, k))[w].rekordbox_id@ == rb;
                            assert((orig_t.subrange(0, k + 1))[w].rekordbox_id@ == rb);
                        }
                    }
                    assert(rb != rb_k) by {
                        if rb == rb_k {
                            assert((orig_t.subrange(0, k + 1))[k].rekordbox_id@ == rb);
                        }
                    }
                }
                assert forall|id: Seq<char>|
                    !incoming_tid(orig_t.subrange(0, k + 1), id) implies #[trigger] self.track(id)
                    == prev.track(id) && self.rekordbox_source(id) == prev.rekordbox_source(id)
                    && self.asset(id) == prev.asset(id) by {
                    assert(!incoming_tid(orig_t.subrange(0, k), id)) by {
                        if incoming_tid(orig_t.subrange(0, k), id) {
                            let w = choose|w: int|
                                0 <= w < k && rb_track_id(
                                    (orig_t.subrange(0, k))[w].rekordbox_id@,
                                ) == id;
                            assert(rb_track_id((orig_t.subrange(0, k + 1))[w].rekordbox_id@) == id);
                        }
                    }
                    assert(id != tid_k) by {
                        if id == tid_k {
                            assert(rb_track_id((orig_t.subrange(0, k + 1))[k].rekordbox_id@) == id);
                        }
                    }
                }
                k = k + 1;
            }
        }
        proof {
            assert(orig_t.subrange(0, orig_t.len() as int) =~= orig_t);
        }
        // delete the stale tracks
        let mut stale = stale;
        let ghost mut p: int = 0;
        proof {
            assert(stale@ =~= stale_seq.subrange(0, stale_seq.len() as int));
        }
        while stale.len() > 0
            invariant
                0 <= p <= stale_seq.len(),
                stale@ == stale_seq.subrange(p, stale_seq.len() as int),
                self.wf(),
                prev.wf(),
                forall|q: int|
                    0 <= q < stale_seq.len() ==> !incoming(
                        orig_t,
                        (#[trigger] stale_seq[q])@,
                    ) && prev.mapping(stale_seq[q]@) is Some,
                forall|q1: int, q2: int|
                    0 <= q1 < q2 < stale_seq.len() ==> (#[trigger] stale_seq[q1])@ != (
                    #[trigger] stale_seq[q2])@,
                forall|i2: int, j2: int|
                    0 <= i2 < j2 < orig_t.len() ==> orig_t[i2].rekordbox_id@
                        != orig_t[j2].rekordbox_id@,
                prev.clock <= self.clock <= prev.clock + orig_t.len(),
                forall|j: int| 0 <= j < orig_t.len() ==> synced(*self, prev, #[trigger] orig_t[j]),
                forall|q: int|
                    0 <= q < p ==> self.mapping((#[trigger] stale_seq[q])@) is None && cleared(
                        *self,
                        rb_track_id(stale_seq[q]@),
                    ),
                forall|rb: Seq<char>|
                    #![trigger self.mapping(rb)]
                    !incoming(orig_t, rb) && !(exists|q: int|
                        0 <= q < p && (#[trigger] stale_seq[q])@ == rb) ==> self.mapping(rb)
                        == prev.mapping(rb),
                forall|id: Seq<char>|
                    #![trigger self.track(id)]
                    !incoming_tid(orig_t, id) && !(exists|q: int|
                        0 <= q < p && rb_track_id((#[trigger] stale_seq[q])@) == id) ==> self.track(
                        id,
                    ) == prev.track(id) && self.rekordbox_source(id) == prev.rekordbox_source(id)
                        && self.asset(id) == prev.asset(id),
                forall|id: Seq<char>|
                    #![trigger self.soundcloud_source(id)]
                    !(exists|q: int|
                        0 <= q < p && rb_track_id((#[trigger] stale_seq[q])@) == id)
                        ==> self.soundcloud_source(id) == prev.soundcloud_source(id)
                        && self.discogs_match(id) == prev.discogs_match(id)
                        && self.musicbrainz_match(id) == prev.musicbrainz_match(id)
                        && self.discogs_cands(id) == prev.discogs_cands(id)
                        && self.musicbrainz_cands(id) == prev.musicbrainz_cands(id),
            decreases stale@.len(),
        {
            let ghost pre_iter = *self;
            let rb = stale.remove(0);
            proof {
                assert(rb == stale_seq[p]);
                assert(stale@ =~= stale_seq.subrange(p + 1, stale_seq.len() as int));
                // this mapping is still present: it was never incoming and
                // no earlier stale entry shares its id
                assert(self.mapping(rb@) == prev.mapping(rb@));
            }
            self.remove_stale_mapping(&rb);
            proof {
                let tid_p = rb_track_id(stale_seq[p]@);
                assert forall|j: int| 0 <= j < orig_t.len() implies synced(
                    *self,
                    prev,
                    #[trigger] orig_t[j],
                ) by {
                    let rb_j = orig_t[j].rekordbox_id@;
                    let tid_j = rb_track_id(rb_j);
                    assert(rb_j != stale_seq[p]@) by {
                        if rb_j == stale_seq[p]@ {
                            assert(incoming(orig_t, stale_seq[p]@));
                        }
                    }
                    if tid_j == tid_p {
                        lemma_rb_track_id_injective(rb_j, stale_seq[p]@);
                    }
                    assert(synced(pre_iter, prev, orig_t[j]));
                }
                assert forall|q: int| 0 <= q < p + 1 implies self.mapping(
                    (#[trigger] stale_seq[q])@,
                ) is None && cleared(*self, rb_track_id(stale_seq[q]@)) by {
                    if q < p {
                        if rb_track_id(stale_seq[q]@) == tid_p {
                            lemma_rb_track_id_injective(stale_seq[q]@, stale_seq[p]@);
                        }
                    }
                }
                p = p + 1;
            }
        }
        proof {
            assert forall|rb: Seq<char>|
                old(self).mapping(rb) is Some && !incoming(orig_t, rb) implies #[trigger] self.mapping(
                rb,
            ) is None && cleared(*self, rb_track_id(rb)) by {
                let w = lemma_find_row_witness(prev.rekordbox_mappings@, rb);
                lemma_stale_ids_complete(prev.rekordbox_mappings@, orig_t, w);
                let q = choose|q: int|
                    0 <= q < stale_seq.len() && (#[trigger] stale_seq[q])@ == rb;
            }
            assert forall|id: Seq<char>|
                !incoming_tid(orig_t, id) && !stale_tid(prev, orig_t, id) implies #[trigger] self.track(
                id,
            ) == prev.track(id) && self.rekordbox_source(id) == prev.rekordbox_source(id)
                && self.asset(id) == prev.asset(id) by {
                assert(!(exists|q: int|
                    0 <= q < stale_seq.len() && rb_track_id((#[trigger] stale_seq[q])@) == id))
                    by {
                    if exists|q: int|
                        0 <= q < stale_seq.len() && rb_track_id((#[trigger] stale_seq[q])@) == id {
                        let q = choose|q: int|
                            0 <= q < stale_seq.len() && rb_track_id((#[trigger] stale_seq[q])@)
                                == id;
                        let w = choose|w: int|
                            0 <= w < prev.rekordbox_mappings@.len() && (
                            #[trigger] prev.rekordbox_mappings@[w]).rekordbox_id@
                                == stale_seq[q]@;
                        lemma_find_row_at_key(prev.rekordbox_mappings@, stale_seq[q]@, w);
                        assert(stale_tid(prev, orig_t, id));
                    }
                }
            }
            assert forall|id: Seq<char>|
                !stale_tid(prev, orig_t, id) implies #[trigger] self.soundcloud_source(id)
                == prev.soundcloud_source(id) && self.discogs_match(id) == prev.discogs_match(id)
                && self.musicbrainz_match(id) == prev.musicbrainz_match(id) && self.discogs_cands(
                id,
            ) == prev.discogs_cands(id) && self.musicbrainz_cands(id) == prev.musicbrainz_cands(id)
                by {
                assert(!(exists|q: int|
                    0 <= q < stale_seq.len() && rb_track_id((#[trigger] stale_seq[q])@) == id))
                    by {
                    if exists|q: int|
                        0 <= q < stale_seq.len() && rb_track_id((#[trigger] stale_seq[q])@) == id {
                        let q = choose|q: int|
                            0 <= q < stale_seq.len() && rb_track_id((#[trigger] stale_seq[q])@)
                                == id;
                        let w = choose|w: int|
                            0 <= w < prev.rekordbox_mappings@.len() && (
                            #[trigger] prev.rekordbox_mappings@[w]).rekordbox_id@
                                == stale_seq[q]@;
                        lemma_find_row_at_key(prev.rekordbox_mappings@, stale_seq[q]@, w);
                        assert(stale_tid(prev, orig_t, id));
                    }
                }
            }
            assert forall|rb: Seq<char>|
                !incoming(orig_t, rb) implies #[trigger] self.mapping(rb) is None || old(self).mapping(rb) is Some by {
                if prev.mapping(rb) is None {
                    assert(!(exists|q: int|
                        0 <= q < stale_seq.len() && (#[trigger] stale_seq[q])@ == rb));
                }
            }
        }
        Ok(())
    }
}

} // verus!
