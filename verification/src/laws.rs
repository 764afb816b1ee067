//! The library's cross-cutting guarantees, stated and proved against the
//! operations' contracts: match-state well-formedness, wholesale candidate
//! replacement, idempotent upserts and imports, stale removal, and the
//! pagination tiling of the status listing.

use vstd::prelude::*;

verus! {

use crate::records::{DiscogsCandidateRecord, DiscogsMatchRecord, MatchStatus, TrackRecord};
use crate::importer::{RekordboxTrack, rb_track_id};
use crate::status::{StatusKey, page_end, page_start};
use crate::store::{
    LibraryStore, cleared, dc_rows_for, discogs_match_row, incoming, lemma_dc_rows_for_members,
    synced, upserted_track_row,
};

/// After a match is recorded, the stored row respects the match-state
/// invariant — a success carries a release id and a confidence, anything
/// else neither — and the stored candidates never exceed the ones passed.
/// The hypotheses are exactly what `record_discogs_match` ensures.
pub proof fn law_match_state_invariant(
    post: LibraryStore,
    record: DiscogsMatchRecord,
    candidates: Seq<DiscogsCandidateRecord>,
)
    requires
        record.wf(),
        post.discogs_match(record.track_id@) == Some(discogs_match_row(record)),
        post.discogs_cands(record.track_id@) == dc_rows_for(candidates, record.track_id@),
    ensures
        ({
            let row = post.discogs_match(record.track_id@)->Some_0;
            &&& row.status == MatchStatus::Success ==> row.release_id is Some && row.confidence
                is Some
            &&& row.status != MatchStatus::Success ==> row.release_id is None && row.confidence
                is None
        }),
        post.discogs_cands(record.track_id@).len() <= candidates.len(),
{
    lemma_dc_rows_for_members(candidates, record.track_id@);
}

/// Recording a match replaces the candidate set wholesale: afterwards,
/// every track's candidate set is either its previous set or exactly the
/// new one — never a mixture. The hypotheses are exactly what
/// `record_discogs_match` ensures of the candidate tables.
pub proof fn law_record_match_atomic(
    pre: LibraryStore,
    post: LibraryStore,
    record: DiscogsMatchRecord,
    candidates: Seq<DiscogsCandidateRecord>,
)
    requires
        post.discogs_cands(record.track_id@) == dc_rows_for(candidates, record.track_id@),
        forall|id: Seq<char>|
            id != record.track_id@ ==> #[trigger] post.discogs_cands(id) == pre.discogs_cands(id),
    ensures
        forall|id: Seq<char>|
            #[trigger] post.discogs_cands(id) == (if id == record.track_id@ {
                dc_rows_for(candidates, id)
            } else {
                pre.discogs_cands(id)
            }),
{
}

/// See [`law_match_state_invariant`], for the MusicBrainz side.
pub proof fn law_mb_match_state_invariant(
    post: LibraryStore,
    record: crate::records::MusicbrainzMatchRecord,
    candidates: Seq<crate::records::MusicbrainzCandidateRecord>,
)
    requires
        record.wf(),
        post.musicbrainz_match(record.track_id@) == Some(
            crate::store::musicbrainz_match_row(record),
        ),
        post.musicbrainz_cands(record.track_id@) == crate::store::mb_rows_for(
            candidates,
            record.track_id@,
        ),
    ensures
        ({
            let row = post.musicbrainz_match(record.track_id@)->Some_0;
            &&& row.status == MatchStatus::Success ==> row.release_id is Some && row.confidence
                is Some
            &&& row.status != MatchStatus::Success ==> row.release_id is None && row.confidence
                is None
        }),
        post.musicbrainz_cands(record.track_id@).len() <= candidates.len(),
{
    crate::store::lemma_mb_rows_for_members(candidates, record.track_id@);
}

/// Upserting the same record twice yields a single row carrying the
/// record's values: the second upsert adds no row and leaves the legacy
/// payload that the first kept. The hypotheses are two chained instances
/// of what `upsert_track` ensures.
pub proof fn law_upsert_idempotent(
    s0: LibraryStore,
    s1: LibraryStore,
    s2: LibraryStore,
    record: TrackRecord,
)
    requires
        s1.track(record.track_id@) == Some(
            upserted_track_row(record, s0.track(record.track_id@), s0.clock),
        ),
        s1.tracks@.len() == s0.tracks@.len() + (if s0.track(record.track_id@) is Some {
            0int
        } else {
            1int
        }),
        s2.track(record.track_id@) == Some(
            upserted_track_row(record, s1.track(record.track_id@), s1.clock),
        ),
        s2.tracks@.len() == s1.tracks@.len() + (if s1.track(record.track_id@) is Some {
            0int
        } else {
            1int
        }),
    ensures
        s2.tracks@.len() == s1.tracks@.len(),
        ({
            let t1 = s1.track(record.track_id@)->Some_0;
            let t2 = s2.track(record.track_id@)->Some_0;
            &&& t2.title == record.title
            &&& t2.artist == record.artist
            &&& t2.album == record.album
            &&& t2.musicbrainz_payload == record.musicbrainz_payload
            &&& t2.discogs_payload == t1.discogs_payload
        }),
{
}

/// Importing the same track list twice leaves the mappings and the track
/// identities unchanged: each external id still maps to the identity
/// minted for it, and that track still exists. The hypotheses are two
/// chained instances of what `sync_rekordbox_tracks` ensures of the
/// incoming tracks.
pub proof fn law_sync_idempotent(
    s0: LibraryStore,
    s1: LibraryStore,
    s2: LibraryStore,
    tracks: Seq<RekordboxTrack>,
    k: int,
)
    requires
        0 <= k < tracks.len(),
        synced(s1, s0, tracks[k]),
        synced(s2, s1, tracks[k]),
    ensures
        ({
            let rb = tracks[k].rekordbox_id@;
            &&& s1.mapping(rb) matches Some(m1) && m1.track_id@ == rb_track_id(rb)
            &&& s2.mapping(rb) matches Some(m2) && m2.track_id@ == rb_track_id(rb)
            &&& s2.mapping(rb)->Some_0.track_id@ == s1.mapping(rb)->Some_0.track_id@
            &&& s1.track(rb_track_id(rb)) is Some
            &&& s2.track(rb_track_id(rb)) is Some
        }),
{
}

/// A mapping the re-import no longer carries is removed together with its
/// track and every dependent row, while every imported external id keeps
/// its identity. The hypotheses are what `sync_rekordbox_tracks` ensures.
pub proof fn law_stale_removed(
    prev: LibraryStore,
    post: LibraryStore,
    tracks: Seq<RekordboxTrack>,
    rb: Seq<char>,
)
    requires
        prev.mapping(rb) is Some,
        !incoming(tracks, rb),
        post.mapping(rb) is None,
        cleared(post, rb_track_id(rb)),
    ensures
        post.track(rb_track_id(rb)) is None,
        post.soundcloud_source(rb_track_id(rb)) is None,
        post.rekordbox_source(rb_track_id(rb)) is None,
        post.asset(rb_track_id(rb)) is None,
        post.discogs_match(rb_track_id(rb)) is None,
        post.musicbrainz_match(rb_track_id(rb)) is None,
        post.discogs_cands(rb_track_id(rb)).len() == 0,
        post.musicbrainz_cands(rb_track_id(rb)).len() == 0,
{
}

/// Consecutive status pages tile the ordered key sequence: the page at
/// `offset` ends exactly where the page at `offset + limit` begins, and
/// together they cover the rows between both bounds, so each row appears
/// exactly once across the pages.
pub proof fn law_pagination_partition(keys: Seq<StatusKey>, limit: u32, offset: u32)
    requires
        offset + limit <= u32::MAX,
    ensures
        ({
            let s1 = page_start(keys, offset);
            let e1 = page_end(keys, offset, limit);
            let s2 = page_start(keys, (offset + limit) as u32);
            let e2 = page_end(keys, (offset + limit) as u32, limit);
            &&& e1 == s2
            &&& keys.subrange(s1, e1) + keys.subrange(s2, e2) == keys.subrange(s1, e2)
        }),
{
    let s1 = page_start(keys, offset);
    let e1 = page_end(keys, offset, limit);
    let s2 = page_start(keys, (offset + limit) as u32);
    let e2 = page_end(keys, (offset + limit) as u32, limit);
    assert(keys.subrange(s1, e1) + keys.subrange(s2, e2) =~= keys.subrange(s1, e2));
}

} // verus!
