//! The reconciliation worker's decisions: what to do with one queued
//! lookup job, and how a lookup's outcome is persisted and surfaced. The
//! queue itself and the network calls run outside; every decision and
//! every store write is here.

use vstd::prelude::*;

verus! {

use crate::records::{CandidateSeed, LibraryError, MatchStatus};
use crate::store::{CandidateRow, LibraryStore, MatchRow, dc_ambiguity_records, mb_ambiguity_records, dc_cand_row, mb_cand_row};
use crate::lookup::{
    LookupFailure, LookupResult, build_search_query, build_search_term, join_and, mb_query_parts,
    search_term_spec,
};

/// What the worker does with one queued job.
pub enum JobPlan {
    /// The job carries no track identity: drop it.
    Skip,
    /// The metadata yields no usable query: record this failure reason
    /// without any network call.
    FailMissing { query: String, reason: String },
    /// Run the lookup with this query.
    Lookup { query: String },
}

/// Plan a Discogs job: skip jobs without a track id, fail jobs whose
/// metadata yields an empty free-text term, and look the rest up.
pub fn discogs_plan(track_id: &String, artist: Option<&String>, title: Option<&String>) -> (r:
    JobPlan)
    ensures
        ({
            let term = search_term_spec(
                match artist {
                    Some(a) => Some(a@),
                    None => None,
                },
                match title {
                    Some(t) => Some(t@),
                    None => None,
                },
            );
            &&& (track_id@.len() == 0 ==> r matches JobPlan::Skip)
            &&& (track_id@.len() > 0 && term.len() == 0 ==> (r matches JobPlan::FailMissing {
                query,
                reason,
            } && query@ == term && reason@ == "missing title or artist"@))
            &&& (track_id@.len() > 0 && term.len() > 0 ==> (r matches JobPlan::Lookup { query }
                && query@ == term))
        }),
{
    if track_id.as_str().unicode_len() == 0 {
        return JobPlan::Skip;
    }
    let query = build_search_term(artist, title);
    if query.as_str().unicode_len() == 0 {
        JobPlan::FailMissing { query, reason: "missing title or artist".to_owned() }
    } else {
        JobPlan::Lookup { query }
    }
}

/// Plan a MusicBrainz job: skip jobs without a track id, fail jobs whose
/// metadata yields an empty field-scoped query, and look the rest up.
pub fn musicbrainz_plan(
    track_id: &String,
    artist: Option<&String>,
    title: Option<&String>,
    tags: &Vec<String>,
) -> (r: JobPlan)
    ensures
        ({
            let term = join_and(
                mb_query_parts(
                    match artist {
                        Some(a) => Some(a@),
                        None => None,
                    },
                    match title {
                        Some(t) => Some(t@),
                        None => None,
                    },
                    tags@,
                ),
            );
            &&& (track_id@.len() == 0 ==> r matches JobPlan::Skip)
            &&& (track_id@.len() > 0 && term.len() == 0 ==> (r matches JobPlan::FailMissing {
                query,
                reason,
            } && query@ == term && reason@ == "missing title or artist"@))
            &&& (track_id@.len() > 0 && term.len() > 0 ==> (r matches JobPlan::Lookup { query }
                && query@ == term))
        }),
{
    if track_id.as_str().unicode_len() == 0 {
        return JobPlan::Skip;
    }
    let query = build_search_query(artist, title, tags);
    if query.as_str().unicode_len() == 0 {
        JobPlan::FailMissing { query, reason: "missing title or artist".to_owned() }
    } else {
        JobPlan::Lookup { query }
    }
}

/// An ambiguity notification for manual resolution: which track, which
/// query, and the candidates found.
pub struct AmbiguityNotice {
    pub track_id: String,
    pub query: String,
    pub candidates: Vec<CandidateSeed>,
}

/// The failure text a lookup failure denotes.
pub open spec fn failure_text(f: LookupFailure) -> Seq<char> {
    match f {
        LookupFailure::Message(m) => m@,
        LookupFailure::Error(m) => m@,
    }
}

impl LibraryStore {
    /// Persist a Discogs lookup outcome: a success, ambiguity or failure
    /// row, exactly as the convenience recorders write them; an ambiguous
    /// outcome additionally yields a notice for the presentation layer.
    pub fn apply_discogs_outcome(
        &mut self,
        track_id: &String,
        query: &String,
        outcome: Result<LookupResult, LookupFailure>,
    ) -> (r: Result<Option<AmbiguityNotice>, LibraryError>)
        requires
            old(self).wf(),
            old(self).clock + 2 <= u64::MAX,
            outcome matches Ok(LookupResult::Success { release, .. }) ==> release.release_id
                is Some,
        ensures
            r is Ok,
            final(self).wf(),
            outcome matches Ok(LookupResult::Success { release, confidence }) ==> (final(self).discogs_match(track_id@) == Some(
                MatchRow {
                    track_id: *track_id,
                    release_id: release.release_id,
                    confidence: Some(confidence),
                    status: MatchStatus::Success,
                    query: Some(*query),
                    message: None,
                    checked_at: None,
                },
            ) && final(self).discogs_cands(track_id@) == seq![
                CandidateRow {
                    match_id: *track_id,
                    release_id: release.release_id,
                    score: match release.score {
                        Some(s) => Some(s),
                        None => Some(confidence),
                    },
                    raw_payload: release.raw_payload,
                },
            ] && (final(self).track(track_id@) matches Some(t) && t.discogs_release_id
                == release.release_id && t.discogs_confidence == Some(confidence)) && r->Ok_0
                is None),
            outcome matches Ok(LookupResult::Ambiguous { candidates }) ==> (final(self).discogs_match(track_id@) == Some(
                MatchRow {
                    track_id: *track_id,
                    release_id: None,
                    confidence: None,
                    status: MatchStatus::Ambiguous,
                    query: Some(*query),
                    message: None,
                    checked_at: None,
                },
            ) && final(self).discogs_cands(track_id@) == dc_ambiguity_records(
                *track_id,
                candidates@,
            ).map_values(|c| dc_cand_row(c)) && (final(self).track(track_id@) matches Some(t)
                && t.discogs_release_id is None && t.discogs_confidence is None) && (r->Ok_0 matches Some(n) && n.track_id@
                == track_id@ && n.query@ == query@ && n.candidates@.len() == candidates@.len()
                && (forall|i: int|
                0 <= i < candidates@.len() ==> (#[trigger] n.candidates@[i])@
                    == candidates@[i]@))),
            outcome matches Err(f) ==> (final(self).discogs_match(track_id@) matches Some(m)
                && m.status == MatchStatus::Error && crate::records::ov(m.message) == Some(
                failure_text(f),
            ) && crate::records::ov(m.query) == Some(query@) && final(self).discogs_cands(
                track_id@,
            ) == Seq::<CandidateRow>::empty() && (final(self).track(track_id@) matches Some(t)
                && t.discogs_release_id is None && t.discogs_confidence is None) && r->Ok_0
                is None),
    {
        match outcome {
            Ok(LookupResult::Success { release, confidence }) => {
                let _ = self.record_discogs_success(track_id, query, release, confidence);
                Ok(None)
            },
            Ok(LookupResult::Ambiguous { candidates }) => {
                let mut copies: Vec<CandidateSeed> = Vec::new();
                let mut i: usize = 0;
                while i < candidates.len()
                    invariant
                        0 <= i <= candidates@.len(),
                        copies@.len() == i,
                        forall|j: int| 0 <= j < i ==> (#[trigger] copies@[j])@ == candidates@[j]@,
                    decreases candidates@.len() - i,
                {
                    copies.push(candidates[i].duplicate());
                    i = i + 1;
                }
                let _ = self.record_discogs_ambiguity(track_id, query, candidates);
                Ok(
                    Some(
                        AmbiguityNotice {
                            track_id: track_id.clone(),
                            query: query.clone(),
                            candidates: copies,
                        },
                    ),
                )
            },
            Err(failure) => {
                let reason = failure.into_message();
                let _ = self.record_discogs_failure(track_id, query, &reason);
                Ok(None)
            },
        }
    }

    /// Persist a MusicBrainz lookup outcome; see
    /// [`Self::apply_discogs_outcome`].
    pub fn apply_musicbrainz_outcome(
        &mut self,
        track_id: &String,
        query: &String,
        outcome: Result<LookupResult, LookupFailure>,
    ) -> (r: Result<Option<AmbiguityNotice>, LibraryError>)
        requires
            old(self).wf(),
            old(self).clock + 2 <= u64::MAX,
            outcome matches Ok(LookupResult::Success { release, .. }) ==> release.release_id
                is Some,
        ensures
            r is Ok,
            final(self).wf(),
            outcome matches Ok(LookupResult::Success { release, confidence }) ==> (final(self).musicbrainz_match(track_id@) == Some(
                MatchRow {
                    track_id: *track_id,
                    release_id: release.release_id,
                    confidence: Some(confidence),
                    status: MatchStatus::Success,
                    query: Some(*query),
                    message: None,
                    checked_at: None,
                },
            ) && final(self).musicbrainz_cands(track_id@) == seq![
                CandidateRow {
                    match_id: *track_id,
                    release_id: release.release_id,
                    score: Some(confidence),
                    raw_payload: release.raw_payload,
                },
            ] && (final(self).track(track_id@) matches Some(t) && t.musicbrainz_release_id
                == release.release_id && t.musicbrainz_confidence == Some(confidence)) && r->Ok_0
                is None),
            outcome matches Ok(LookupResult::Ambiguous { candidates }) ==> (final(self).musicbrainz_match(track_id@) == Some(
                MatchRow {
                    track_id: *track_id,
                    release_id: None,
                    confidence: None,
                    status: MatchStatus::Ambiguous,
                    query: Some(*query),
                    message: None,
                    checked_at: None,
                },
            ) && final(self).musicbrainz_cands(track_id@) == mb_ambiguity_records(
                *track_id,
                candidates@,
            ).map_values(|c| mb_cand_row(c)) && (final(self).track(track_id@) matches Some(t)
                && t.musicbrainz_release_id is None && t.musicbrainz_confidence is None) && (r->Ok_0 matches Some(n) && n.track_id@
                == track_id@ && n.query@ == query@ && n.candidates@.len() == candidates@.len()
                && (forall|i: int|
                0 <= i < candidates@.len() ==> (#[trigger] n.candidates@[i])@
                    == candidates@[i]@))),
            outcome matches Err(f) ==> (final(self).musicbrainz_match(track_id@) matches Some(m)
                && m.status == MatchStatus::Error && crate::records::ov(m.message) == Some(
                failure_text(f),
            ) && crate::records::ov(m.query) == Some(query@) && final(self).musicbrainz_cands(
                track_id@,
            ) == Seq::<CandidateRow>::empty() && (final(self).track(track_id@) matches Some(t)
                && t.musicbrainz_release_id is None && t.musicbrainz_confidence is None)
                && r->Ok_0 is None),
    {
        match outcome {
            Ok(LookupResult::Success { release, confidence }) => {
                let _ = self.record_musicbrainz_success(track_id, query, release, confidence);
                Ok(None)
            },
            Ok(LookupResult::Ambiguous { candidates }) => {
                let mut copies: Vec<CandidateSeed> = Vec::new();
                let mut i: usize = 0;
                while i < candidates.len()
                    invariant
                        0 <= i <= candidates@.len(),
                        copies@.len() == i,
                        forall|j: int| 0 <= j < i ==> (#[trigger] copies@[j])@ == candidates@[j]@,
                    decreases candidates@.len() - i,
                {
                    copies.push(candidates[i].duplicate());
                    i = i + 1;
                }
                let _ = self.record_musicbrainz_ambiguity(track_id, query, candidates);
                Ok(
                    Some(
                        AmbiguityNotice {
                            track_id: track_id.clone(),
                            query: query.clone(),
                            candidates: copies,
                        },
                    ),
                )
            },
            Err(failure) => {
                let reason = failure.into_message();
                let _ = self.record_musicbrainz_failure(track_id, query, &reason);
                Ok(None)
            },
        }
    }
}

} // verus!
