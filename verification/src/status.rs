//! The status listing: a filterable, paginated projection of every track
//! joined with its sources, matches and local asset, ordered most recently
//! updated first and tie-broken by id.

use vstd::prelude::*;

verus! {

use crate::records::{LibraryError, LibraryStatusPage, LibraryStatusRow, MatchStatus, StatusFilter, ov, clone_opt_string};
use crate::sorting::{RowOrd, sort_spec, sort_rows};
use crate::store::{LibraryStore, TrackRow};
use crate::table::{KeyedRow, find_index, find_row, lemma_find_row_at_key};
use crate::text::{lex_le, lemma_lex_le_total, lemma_lex_le_trans};

/// The sort key of one row: freshest update first, then id order.
pub struct StatusKey {
    pub updated_at: u64,
    pub track_id: String,
}

impl RowOrd for StatusKey {
    open spec fn leq(self, other: Self) -> bool {
        self.updated_at > other.updated_at || (self.updated_at == other.updated_at && lex_le(
            self.track_id@,
            other.track_id@,
        ))
    }

    proof fn leq_total(a: Self, b: Self) {
        if a.updated_at == b.updated_at {
            lemma_lex_le_total(a.track_id@, b.track_id@);
        }
    }

    proof fn leq_trans(a: Self, b: Self, c: Self) {
        if a.updated_at == b.updated_at && b.updated_at == c.updated_at {
            lemma_lex_le_trans(a.track_id@, b.track_id@, c.track_id@);
        }
    }

    fn le(&self, other: &Self) -> (r: bool) {
        if self.updated_at > other.updated_at {
            true
        } else if self.updated_at < other.updated_at {
            false
        } else {
            crate::text::lex_le_str(&self.track_id, &other.track_id)
        }
    }
}

/// The sort key of a track row.
pub open spec fn key_of(t: TrackRow) -> StatusKey {
    StatusKey { updated_at: t.updated_at, track_id: t.track_id }
}

/// Whether a track passes the filter: every requested restriction must
/// hold of its joined rows.
pub open spec fn passes(store: LibraryStore, f: StatusFilter, t: TrackRow) -> bool {
    let id = t.track_id@;
    let available = match store.asset(id) {
        Some(a) => a.available,
        None => false,
    };
    let matched = match store.discogs_match(id) {
        Some(m) => m.status == MatchStatus::Success && m.release_id is Some,
        None => false,
    };
    let liked = match store.soundcloud_source(id) {
        Some(s) => s.liked_at is Some,
        None => false,
    };
    &&& f.missing_assets_only ==> !available
    &&& f.unresolved_discogs_only ==> !matched
    &&& f.liked_only ==> liked
    &&& f.rekordbox_only ==> store.rekordbox_source(id) is Some
}

/// The sort keys of the tracks that pass the filter, in table order.
pub open spec fn filtered_keys(
    store: LibraryStore,
    f: StatusFilter,
    tracks: Seq<TrackRow>,
) -> Seq<StatusKey>
    decreases tracks.len(),
{
    if tracks.len() == 0 {
        Seq::empty()
    } else {
        let rest = filtered_keys(store, f, tracks.drop_last());
        if passes(store, f, tracks.last()) {
            rest.push(key_of(tracks.last()))
        } else {
            rest
        }
    }
}

proof fn lemma_filtered_keys_members(store: LibraryStore, f: StatusFilter, tracks: Seq<TrackRow>)
    ensures
        forall|k: int|
            0 <= k < filtered_keys(store, f, tracks).len() ==> exists|w: int|
                0 <= w < tracks.len() && #[trigger] filtered_keys(store, f, tracks)[k] == key_of(
                    tracks[w],
                ),
    decreases tracks.len(),
{
    if tracks.len() > 0 {
        lemma_filtered_keys_members(store, f, tracks.drop_last());
        let out = filtered_keys(store, f, tracks);
        let rest = filtered_keys(store, f, tracks.drop_last());
        assert forall|k: int| 0 <= k < out.len() implies exists|w: int|
            0 <= w < tracks.len() && #[trigger] out[k] == key_of(tracks[w]) by {
            if passes(store, f, tracks.last()) && k == out.len() - 1 {
                assert(out[k] == key_of(tracks[tracks.len() - 1]));
            } else {
                assert(out[k] == rest[k]);
                let w0 = choose|w: int|
                    0 <= w < tracks.drop_last().len() && #[trigger] rest[k] == key_of(
                        tracks.drop_last()[w],
                    );
                assert(out[k] == key_of(tracks[w0]));
            }
        }
    }
}

/// The page size actually applied: the requested one (100 when none),
/// raised to at least one row and capped at five hundred.
pub open spec fn clamped_limit(requested: Option<u32>) -> u32 {
    let r = match requested {
        Some(l) => l,
        None => 100u32,
    };
    if r < 1 {
        1u32
    } else if r > 500 {
        500u32
    } else {
        r
    }
}

/// Whether a listed row faithfully projects the track behind the key and
/// the rows joined to it.
pub open spec fn row_matches(store: LibraryStore, row: LibraryStatusRow, key: StatusKey) -> bool {
    let id = key.track_id@;
    find_row(store.tracks@, id) matches Some(t) && {
        let sc = store.soundcloud_source(id);
        let dm = store.discogs_match(id);
        let mb = store.musicbrainz_match(id);
        let la = store.asset(id);
        &&& row.track_id@ == id
        &&& ov(row.title) == ov(t.title)
        &&& ov(row.artist) == ov(t.artist)
        &&& ov(row.album) == ov(t.album)
        &&& row.updated_at == t.updated_at
        &&& key.updated_at == t.updated_at
        &&& row.liked == (sc matches Some(s) && s.liked_at is Some)
        &&& row.matched == (dm matches Some(m) && m.status == MatchStatus::Success && m.release_id
            is Some)
        &&& row.has_local_file == (la is Some)
        &&& row.local_available == (la matches Some(a) && a.available)
        &&& row.in_rekordbox == (store.rekordbox_source(id) is Some)
        &&& (dm matches Some(m) ==> ov(row.discogs_status) == Some(m.status.name()) && ov(
            row.discogs_release_id,
        ) == ov(m.release_id) && row.discogs_confidence == m.confidence && ov(
            row.discogs_checked_at,
        ) == ov(m.checked_at) && ov(row.discogs_message) == ov(m.message))
        &&& (dm is None ==> row.discogs_status is None && row.discogs_release_id is None
            && row.discogs_confidence is None && row.discogs_checked_at is None
            && row.discogs_message is None)
        &&& (mb matches Some(m) ==> ov(row.musicbrainz_status) == Some(m.status.name()) && ov(
            row.musicbrainz_release_id,
        ) == ov(m.release_id) && row.musicbrainz_confidence == m.confidence && ov(
            row.musicbrainz_checked_at,
        ) == ov(m.checked_at) && ov(row.musicbrainz_message) == ov(m.message))
        &&& (mb is None ==> row.musicbrainz_status is None && row.musicbrainz_release_id is None
            && row.musicbrainz_confidence is None && row.musicbrainz_checked_at is None
            && row.musicbrainz_message is None)
        &&& (sc matches Some(s) ==> ov(row.soundcloud_permalink_url) == ov(s.permalink_url) && ov(
            row.soundcloud_liked_at,
        ) == ov(s.liked_at))
        &&& (sc is None ==> row.soundcloud_permalink_url is None && row.soundcloud_liked_at
            is None)
        &&& (la matches Some(a) ==> ov(row.local_location) == Some(a.location@))
        &&& (la is None ==> row.local_location is None)
    }
}

/// The first row index of the page.
pub open spec fn page_start(keys: Seq<StatusKey>, offset: u32) -> int {
    if offset as int <= keys.len() {
        offset as int
    } else {
        keys.len() as int
    }
}

/// One past the last row index of the page.
pub open spec fn page_end(keys: Seq<StatusKey>, offset: u32, limit: u32) -> int {
    if page_start(keys, offset) + limit as int <= keys.len() {
        page_start(keys, offset) + limit as int
    } else {
        keys.len() as int
    }
}

impl LibraryStore {
    /// Decide the filter for one track.
    fn passes_filter(&self, f: &StatusFilter, idx: usize) -> (r: bool)
        requires
            idx < self.tracks@.len(),
        ensures
            r == passes(*self, *f, self.tracks@[idx as int]),
    {
        let id = &self.tracks[idx].track_id;
        if f.missing_assets_only {
            let available = match find_index(&self.local_assets, id) {
                Some(j) => self.local_assets[j].available,
                None => false,
            };
            if available {
                return false;
            }
        }
        if f.unresolved_discogs_only {
            let matched = match find_index(&self.discogs_matches, id) {
                Some(j) => matches!(self.discogs_matches[j].status, MatchStatus::Success)
                    && matches!(&self.discogs_matches[j].release_id, Some(_)),
                None => false,
            };
            if matched {
                return false;
            }
        }
        if f.liked_only {
            let liked = match find_index(&self.soundcloud_sources, id) {
                Some(j) => matches!(&self.soundcloud_sources[j].liked_at, Some(_)),
                None => false,
            };
            if !liked {
                return false;
            }
        }
        if f.rekordbox_only {
            let present = matches!(find_index(&self.rekordbox_sources, id), Some(_));
            if !present {
                return false;
            }
        }
        true
    }

    /// Build the listed row for one key.
    fn project_row(&self, key: &StatusKey) -> (row: LibraryStatusRow)
        requires
            self.wf(),
            find_row(self.tracks@, key.track_id@) matches Some(t) && t.updated_at
                == key.updated_at,
        ensures
            row_matches(*self, row, *key),
    {
        let tidx = match find_index(&self.tracks, &key.track_id) {
            Some(k) => k,
            None => {
                proof {
                    assert(false);
                }
                0
            },
        };
        let t = &self.tracks[tidx];
        let sc = find_index(&self.soundcloud_sources, &key.track_id);
        let dm = find_index(&self.discogs_matches, &key.track_id);
        let mb = find_index(&self.musicbrainz_matches, &key.track_id);
        let la = find_index(&self.local_assets, &key.track_id);
        let rb = find_index(&self.rekordbox_sources, &key.track_id);
        let liked = match sc {
            Some(j) => matches!(&self.soundcloud_sources[j].liked_at, Some(_)),
            None => false,
        };
        let matched = match dm {
            Some(j) => matches!(self.discogs_matches[j].status, MatchStatus::Success) && matches!(
                &self.discogs_matches[j].release_id,
                Some(_)
            ),
            None => false,
        };
        let (has_local, local_available, local_location) = match la {
            Some(j) => (
                true,
                self.local_assets[j].available,
                Some(self.local_assets[j].location.clone()),
            ),
            None => (false, false, None),
        };
        let (d_status, d_release, d_conf, d_checked, d_msg) = match dm {
            Some(j) => {
                let m = &self.discogs_matches[j];
                (
                    Some(m.status.as_str().to_owned()),
                    clone_opt_string(&m.release_id),
                    m.confidence,
                    clone_opt_string(&m.checked_at),
                    clone_opt_string(&m.message),
                )
            },
            None => (None, None, None, None, None),
        };
        let (m_status, m_release, m_conf, m_checked, m_msg) = match mb {
            Some(j) => {
                let m = &self.musicbrainz_matches[j];
                (
                    Some(m.status.as_str().to_owned()),
                    clone_opt_string(&m.release_id),
                    m.confidence,
                    clone_opt_string(&m.checked_at),
                    clone_opt_string(&m.message),
                )
            },
            None => (None, None, None, None, None),
        };
        let (permalink, liked_at) = match sc {
            Some(j) => (
                clone_opt_string(&self.soundcloud_sources[j].permalink_url),
                clone_opt_string(&self.soundcloud_sources[j].liked_at),
            ),
            None => (None, None),
        };
        LibraryStatusRow {
            track_id: t.track_id.clone(),
            title: clone_opt_string(&t.title),
            artist: clone_opt_string(&t.artist),
            album: clone_opt_string(&t.album),
            liked,
            matched,
            has_local_file: has_local,
            local_available,
            in_rekordbox: matches!(rb, Some(_)),
            discogs_status: d_status,
            discogs_release_id: d_release,
            discogs_confidence: d_conf,
            discogs_checked_at: d_checked,
            discogs_message: d_msg,
            musicbrainz_status: m_status,
            musicbrainz_release_id: m_release,
            musicbrainz_confidence: m_conf,
            musicbrainz_checked_at: m_checked,
            musicbrainz_message: m_msg,
            soundcloud_permalink_url: permalink,
            soundcloud_liked_at: liked_at,
            local_location,
            updated_at: t.updated_at,
        }
    }

    /// List the status page the filter selects: the filtered tracks ordered
    /// most recently updated first (ids breaking ties), the page cut out by
    /// offset and clamped limit, and the total count of filtered rows.
    pub fn list_library_status(&self, filter: &StatusFilter) -> (r: Result<
        LibraryStatusPage,
        LibraryError,
    >)
        requires
            self.wf(),
        ensures
            r is Ok,
            ({
                let page = r->Ok_0;
                let keys = sort_spec(filtered_keys(*self, *filter, self.tracks@));
                let limit = clamped_limit(filter.limit);
                let offset = match filter.offset {
                    Some(o) => o,
                    None => 0u32,
                };
                let start = page_start(keys, offset);
                let end = page_end(keys, offset, limit);
                &&& page.limit == limit
                &&& page.offset == offset
                &&& page.total == (if keys.len() <= u32::MAX {
                    keys.len() as int
                } else {
                    u32::MAX as int
                })
                &&& page.rows@.len() == end - start
                &&& forall|i: int|
                    0 <= i < end - start ==> row_matches(
                        *self,
                        #[trigger] page.rows@[i],
                        keys[start + i],
                    )
            }),
    {
        let mut keys: Vec<StatusKey> = Vec::new();
        let mut i: usize = 0;
        proof {
            assert(self.tracks@.subrange(0, 0) =~= Seq::<TrackRow>::empty());
        }
        while i < self.tracks.len()
            invariant
                self.wf(),
                0 <= i <= self.tracks@.len(),
                keys@ == filtered_keys(*self, *filter, self.tracks@.subrange(0, i as int)),
            decreases self.tracks@.len() - i,
        {
            proof {
                assert(self.tracks@.subrange(0, i + 1).drop_last() =~= self.tracks@.subrange(
                    0,
                    i as int,
                ));
                assert(self.tracks@.subrange(0, i + 1).last() == self.tracks@[i as int]);
            }
            if self.passes_filter(filter, i) {
                keys.push(
                    StatusKey {
                        updated_at: self.tracks[i].updated_at,
                        track_id: self.tracks[i].track_id.clone(),
                    },
                );
            }
            i = i + 1;
        }
        proof {
            assert(self.tracks@.subrange(0, self.tracks@.len() as int) =~= self.tracks@);
        }
        let ghost all_keys = filtered_keys(*self, *filter, self.tracks@);
        let sorted = sort_rows(keys);
        let ghost ordered = sorted@;
        proof {
            crate::sorting::lemma_sort_spec_len(all_keys);
            crate::sorting::lemma_sort_spec_multiset(all_keys);
            lemma_filtered_keys_members(*self, *filter, self.tracks@);
        }
        let total: u32 = if sorted.len() <= u32::MAX as usize {
            sorted.len() as u32
        } else {
            u32::MAX
        };
        let requested: u32 = match filter.limit {
            Some(l) => l,
            None => 100,
        };
        let limit: u32 = if requested < 1 {
            1
        } else if requested > 500 {
            500
        } else {
            requested
        };
        let offset: u32 = match filter.offset {
            Some(o) => o,
            None => 0,
        };
        let start: usize = if (offset as usize) <= sorted.len() {
            offset as usize
        } else {
            sorted.len()
        };
        let remaining: usize = sorted.len() - start;
        let end: usize = if remaining >= (limit as usize) {
            start + (limit as usize)
        } else {
            sorted.len()
        };
        let mut rows: Vec<LibraryStatusRow> = Vec::new();
        let mut q: usize = start;
        while q < end
            invariant
                self.wf(),
                ordered == sort_spec(all_keys),
                all_keys == filtered_keys(*self, *filter, self.tracks@),
                ordered.to_multiset() == all_keys.to_multiset(),
                forall|k: int|
                    0 <= k < all_keys.len() ==> exists|w: int|
                        0 <= w < self.tracks@.len() && #[trigger] all_keys[k] == key_of(
                            self.tracks@[w],
                        ),
                start <= q <= end,
                end <= ordered.len(),
                ordered.len() == sorted@.len(),
                sorted@ == ordered,
                rows@.len() == q - start,
                forall|i: int|
                    0 <= i < q - start ==> row_matches(*self, #[trigger] rows@[i], ordered[start
                        + i]),
            decreases end - q,
        {
            proof {
                broadcast use vstd::seq_lib::group_to_multiset_ensures;

                assert(ordered.contains(ordered[q as int]));
                assert(ordered.to_multiset().contains(ordered[q as int]));
                assert(all_keys.to_multiset().contains(ordered[q as int]));
                assert(all_keys.contains(ordered[q as int]));
                let w0 = choose|w: int| 0 <= w < all_keys.len() && all_keys[w] == ordered[q as int];
                let w = choose|w: int|
                    0 <= w < self.tracks@.len() && all_keys[w0] == key_of(
                        #[trigger] self.tracks@[w],
                    );
                lemma_find_row_at_key(self.tracks@, self.tracks@[w].track_id@, w);
                assert(find_row(self.tracks@, ordered[q as int].track_id@) == Some(
                    self.tracks@[w],
                )) by {
                    let found = crate::table::lemma_find_row_witness(
                        self.tracks@,
                        self.tracks@[w].track_id@,
                    );
                }
            }
            let row = self.project_row(&sorted[q]);
            rows.push(row);
            q = q + 1;
        }
        Ok(
            LibraryStatusPage {
                rows,
                total,
                limit,
                offset,
            },
        )
    }
}

} // verus!
