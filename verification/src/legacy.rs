//! Interpretation of the historical single-document match representation:
//! how one legacy payload maps onto a normalized match record and its
//! candidate rows. A success that lacks a resolvable release id or a
//! confidence cannot satisfy the match-state invariant and reads as an
//! error state instead, its descriptive fields kept.

use vstd::prelude::*;

verus! {

use crate::records::{
    CandidateSeed, DiscogsCandidateRecord, DiscogsMatchRecord, DiscogsMatchStatus,
    LegacyMatchPayload, MusicbrainzCandidateRecord, MusicbrainzMatchRecord,
    MusicbrainzMatchStatus, clone_opt_string,
};
use crate::store::{dc_ambiguity_records, mb_ambiguity_records};

/// Whether a legacy Discogs payload denotes a well-formed success: its
/// status text reads "success", its release document carries a resolvable
/// id, and a confidence is present.
pub open spec fn dc_success_ok(p: LegacyMatchPayload) -> bool {
    &&& DiscogsMatchStatus::of_name(p.status@) == DiscogsMatchStatus::Success
    &&& p.release matches Some(seed) && seed.release_id is Some
    &&& p.confidence is Some
}

/// The status a legacy Discogs payload migrates to.
pub open spec fn dc_legacy_status(p: LegacyMatchPayload) -> DiscogsMatchStatus {
    let s0 = DiscogsMatchStatus::of_name(p.status@);
    if s0 == DiscogsMatchStatus::Success && !dc_success_ok(p) {
        DiscogsMatchStatus::Error
    } else {
        s0
    }
}

/// The match record a legacy Discogs payload migrates to.
pub open spec fn dc_legacy_record(track_id: String, p: LegacyMatchPayload) -> DiscogsMatchRecord {
    let status = dc_legacy_status(p);
    DiscogsMatchRecord {
        track_id,
        release_id: if status == DiscogsMatchStatus::Success {
            p.release->Some_0.release_id
        } else {
            None
        },
        confidence: if status == DiscogsMatchStatus::Success {
            p.confidence
        } else {
            None
        },
        status,
        query: p.query,
        message: p.message,
        checked_at: None,
    }
}

/// The candidate records a legacy Discogs payload migrates to: the accepted
/// release for a success (scored by its own score, else the confidence),
/// the id-bearing candidates for an ambiguity, nothing otherwise.
pub open spec fn dc_legacy_candidates(track_id: String, p: LegacyMatchPayload) -> Seq<
    DiscogsCandidateRecord,
> {
    let status = dc_legacy_status(p);
    if status == DiscogsMatchStatus::Success {
        let seed = p.release->Some_0;
        seq![
            DiscogsCandidateRecord {
                match_id: track_id,
                release_id: seed.release_id,
                score: match seed.score {
                    Some(s) => Some(s),
                    None => p.confidence,
                },
                raw_payload: seed.raw_payload,
            },
        ]
    } else if status == DiscogsMatchStatus::Ambiguous {
        dc_ambiguity_records(track_id, p.candidates@)
    } else {
        Seq::empty()
    }
}

/// Interpret one legacy Discogs payload.
pub fn interpret_legacy_discogs(track_id: &String, payload: LegacyMatchPayload) -> (r: (
    DiscogsMatchRecord,
    Vec<DiscogsCandidateRecord>,
))
    ensures
        r.0 == dc_legacy_record(*track_id, payload),
        r.1@ == dc_legacy_candidates(*track_id, payload),
        r.0.wf(),
        r.0.status == DiscogsMatchStatus::Error ==> r.1@.len() == 0,
{
    let status0 = DiscogsMatchStatus::from_str(payload.status.as_str());
    let success_ok = matches!(status0, DiscogsMatchStatus::Success) && matches!(
        &payload.release,
        Some(_)
    ) && (match &payload.release {
        Some(seed) => matches!(&seed.release_id, Some(_)),
        None => false,
    }) && matches!(&payload.confidence, Some(_));
    let status = if matches!(status0, DiscogsMatchStatus::Success) && !success_ok {
        DiscogsMatchStatus::Error
    } else {
        status0
    };
    match status {
        DiscogsMatchStatus::Success => {
            let seed = match payload.release {
                Some(seed) => seed,
                None => {
                    proof {
                        assert(false);
                    }
                    CandidateSeed { release_id: None, score: None, raw_payload: String::new() }
                },
            };
            let score = match seed.score {
                Some(s) => Some(s),
                None => payload.confidence,
            };
            let cand = DiscogsCandidateRecord {
                match_id: track_id.clone(),
                release_id: clone_opt_string(&seed.release_id),
                score,
                raw_payload: seed.raw_payload,
            };
            let record = DiscogsMatchRecord {
                track_id: track_id.clone(),
                release_id: seed.release_id,
                confidence: payload.confidence,
                status,
                query: payload.query,
                message: payload.message,
                checked_at: None,
            };
            let mut cands: Vec<DiscogsCandidateRecord> = Vec::new();
            cands.push(cand);
            proof {
                assert(cands@ =~= dc_legacy_candidates(*track_id, payload));
            }
            (record, cands)
        },
        DiscogsMatchStatus::Ambiguous => {
            let record = DiscogsMatchRecord {
                track_id: track_id.clone(),
                release_id: None,
                confidence: None,
                status,
                query: payload.query,
                message: payload.message,
                checked_at: None,
            };
            let mut recs: Vec<DiscogsCandidateRecord> = Vec::new();
            let mut seeds = payload.candidates;
            let ghost orig = seeds@;
            let ghost mut k: int = 0;
            proof {
                assert(seeds@ =~= orig.subrange(0, orig.len() as int));
            }
            while seeds.len() > 0
                invariant
                    0 <= k <= orig.len(),
                    seeds@ == orig.subrange(k, orig.len() as int),
                    recs@ == dc_ambiguity_records(*track_id, orig.subrange(0, k)),
                decreases seeds@.len(),
            {
                let s = seeds.remove(0);
                proof {
                    assert(s == orig[k]);
                    assert(seeds@ =~= orig.subrange(k + 1, orig.len() as int));
                    assert(orig.subrange(0, k + 1).drop_last() =~= orig.subrange(0, k));
                    assert(orig.subrange(0, k + 1).last() == orig[k]);
                }
                match s.release_id {
                    Some(rid) => {
                        recs.push(
                            DiscogsCandidateRecord {
                                match_id: track_id.clone(),
                                release_id: Some(rid),
                                score: s.score,
                                raw_payload: s.raw_payload,
                            },
                        );
                    },
                    None => {},
                }
                proof {
                    k = k + 1;
                }
            }
            proof {
                assert(orig.subrange(0, orig.len() as int) =~= orig);
            }
            (record, recs)
        },
        DiscogsMatchStatus::Error => {
            let record = DiscogsMatchRecord {
                track_id: track_id.clone(),
                release_id: None,
                confidence: None,
                status,
                query: payload.query,
                message: payload.message,
                checked_at: None,
            };
            (record, Vec::new())
        },
    }
}

/// Whether a legacy MusicBrainz payload denotes a well-formed success: a
/// release id (the payload's own, else the release document's) and a
/// confidence (the document's score, else the payload's) are both present.
pub open spec fn mb_success_ok(p: LegacyMatchPayload) -> bool {
    &&& MusicbrainzMatchStatus::of_name(p.status@) == MusicbrainzMatchStatus::Success
    &&& mb_legacy_release_id(p) is Some
    &&& mb_legacy_confidence(p) is Some
}

/// The release id a legacy MusicBrainz payload resolves to.
pub open spec fn mb_legacy_release_id(p: LegacyMatchPayload) -> Option<String> {
    match p.release_id {
        Some(rid) => Some(rid),
        None => match p.release {
            Some(seed) => seed.release_id,
            None => None,
        },
    }
}

/// The confidence a legacy MusicBrainz payload resolves to: the release
/// document's own score overrides the stored confidence.
pub open spec fn mb_legacy_confidence(p: LegacyMatchPayload) -> Option<u32> {
    match p.release {
        Some(seed) => match seed.score {
            Some(s) => Some(s),
            None => p.confidence,
        },
        None => p.confidence,
    }
}

/// The status a legacy MusicBrainz payload migrates to.
pub open spec fn mb_legacy_status(p: LegacyMatchPayload) -> MusicbrainzMatchStatus {
    let s0 = MusicbrainzMatchStatus::of_name(p.status@);
    if s0 == MusicbrainzMatchStatus::Success && !mb_success_ok(p) {
        MusicbrainzMatchStatus::Error
    } else {
        s0
    }
}

/// The match record a legacy MusicBrainz payload migrates to.
pub open spec fn mb_legacy_record(track_id: String, p: LegacyMatchPayload) -> MusicbrainzMatchRecord {
    let status = mb_legacy_status(p);
    MusicbrainzMatchRecord {
        track_id,
        release_id: if status == MusicbrainzMatchStatus::Success {
            mb_legacy_release_id(p)
        } else {
            None
        },
        confidence: if status == MusicbrainzMatchStatus::Success {
            mb_legacy_confidence(p)
        } else {
            None
        },
        status,
        query: p.query,
        message: p.message,
        checked_at: None,
    }
}

/// The candidate records a legacy MusicBrainz payload migrates to: the
/// release document for a success, the id-bearing candidates for an
/// ambiguity, nothing otherwise.
pub open spec fn mb_legacy_candidates(track_id: String, p: LegacyMatchPayload) -> Seq<
    MusicbrainzCandidateRecord,
> {
    let status = mb_legacy_status(p);
    if status == MusicbrainzMatchStatus::Success {
        match p.release {
            Some(seed) => seq![
                MusicbrainzCandidateRecord {
                    match_id: track_id,
                    release_id: seed.release_id,
                    score: match seed.score {
                        Some(s) => Some(s),
                        None => mb_legacy_confidence(p),
                    },
                    raw_payload: seed.raw_payload,
                },
            ],
            None => Seq::empty(),
        }
    } else if status == MusicbrainzMatchStatus::Ambiguous {
        mb_ambiguity_records(track_id, p.candidates@)
    } else {
        Seq::empty()
    }
}

/// Interpret one legacy MusicBrainz payload.
pub fn interpret_legacy_musicbrainz(track_id: &String, payload: LegacyMatchPayload) -> (r: (
    MusicbrainzMatchRecord,
    Vec<MusicbrainzCandidateRecord>,
))
    ensures
        r.0 == mb_legacy_record(*track_id, payload),
        r.1@ == mb_legacy_candidates(*track_id, payload),
        r.0.wf(),
        r.0.status == MusicbrainzMatchStatus::Error ==> r.1@.len() == 0,
{
    let status0 = if crate::text::str_eq(payload.status.as_str(), "success") {
        MusicbrainzMatchStatus::Success
    } else if crate::text::str_eq(payload.status.as_str(), "ambiguous") {
        MusicbrainzMatchStatus::Ambiguous
    } else {
        MusicbrainzMatchStatus::Error
    };
    let rid = match &payload.release_id {
        Some(r0) => Some(r0.clone()),
        None => match &payload.release {
            Some(seed) => clone_opt_string(&seed.release_id),
            None => None,
        },
    };
    let conf: Option<u32> = match &payload.release {
        Some(seed) => match seed.score {
            Some(s) => Some(s),
            None => payload.confidence,
        },
        None => payload.confidence,
    };
    let success_ok = matches!(status0, MusicbrainzMatchStatus::Success) && matches!(
        &rid,
        Some(_)
    ) && matches!(&conf, Some(_));
    let status = if matches!(status0, MusicbrainzMatchStatus::Success) && !success_ok {
        MusicbrainzMatchStatus::Error
    } else {
        status0
    };
    match status {
        MusicbrainzMatchStatus::Success => {
            let mut cands: Vec<MusicbrainzCandidateRecord> = Vec::new();
            match payload.release {
                Some(seed) => {
                    cands.push(
                        MusicbrainzCandidateRecord {
                            match_id: track_id.clone(),
                            release_id: seed.release_id,
                            score: match seed.score {
                                Some(s) => Some(s),
                                None => conf,
                            },
                            raw_payload: seed.raw_payload,
                        },
                    );
                },
                None => {},
            }
            let record = MusicbrainzMatchRecord {
                track_id: track_id.clone(),
                release_id: rid,
                confidence: conf,
                status,
                query: payload.query,
                message: payload.message,
                checked_at: None,
            };
            proof {
                assert(cands@ =~= mb_legacy_candidates(*track_id, payload));
            }
            (record, cands)
        },
        MusicbrainzMatchStatus::Ambiguous => {
            let record = MusicbrainzMatchRecord {
                track_id: track_id.clone(),
                release_id: None,
                confidence: None,
                status,
                query: payload.query,
                message: payload.message,
                checked_at: None,
            };
            let mut recs: Vec<MusicbrainzCandidateRecord> = Vec::new();
            let mut seeds = payload.candidates;
            let ghost orig = seeds@;
            let ghost mut k: int = 0;
            proof {
                assert(seeds@ =~= orig.subrange(0, orig.len() as int));
            }
            while seeds.len() > 0
                invariant
                    0 <= k <= orig.len(),
                    seeds@ == orig.subrange(k, orig.len() as int),
                    recs@ == mb_ambiguity_records(*track_id, orig.subrange(0, k)),
                decreases seeds@.len(),
            {
                let s = seeds.remove(0);
                proof {
                    assert(s == orig[k]);
                    assert(seeds@ =~= orig.subrange(k + 1, orig.len() as int));
                    assert(orig.subrange(0, k + 1).drop_last() =~= orig.subrange(0, k));
                    assert(orig.subrange(0, k + 1).last() == orig[k]);
                }
                match s.release_id {
                    Some(rid2) => {
                        recs.push(
                            MusicbrainzCandidateRecord {
                                match_id: track_id.clone(),
                                release_id: Some(rid2),
                                score: s.score,
                                raw_payload: s.raw_payload,
                            },
                        );
                    },
                    None => {},
                }
                proof {
                    k = k + 1;
                }
            }
            proof {
                assert(orig.subrange(0, orig.len() as int) =~= orig);
            }
            (record, recs)
        },
        MusicbrainzMatchStatus::Error => {
            let record = MusicbrainzMatchRecord {
                track_id: track_id.clone(),
                release_id: None,
                confidence: None,
                status,
                query: payload.query,
                message: payload.message,
                checked_at: None,
            };
            (record, Vec::new())
        },
    }
}

} // verus!
