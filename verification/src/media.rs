//! Media-session bookkeeping: the payloads received from the player page,
//! the normalized update derived from them, the cache of the last known
//! state, and the media-sink capability the core hands updates to.

use vstd::prelude::*;

verus! {

use crate::records::ov;
use crate::text::str_eq;

/// Metadata as received from the player page.
#[derive(Debug)]
pub struct MediaMetadataPayload {
    pub title: Option<String>,
    pub artist: Option<String>,
    pub album: Option<String>,
    pub artwork: Option<Vec<ArtworkEntry>>,
    pub artwork_url: Option<String>,
}

/// One artwork entry of the raw payload.
#[derive(Debug)]
pub struct ArtworkEntry {
    pub src: Option<String>,
}

/// Normalized metadata.
#[derive(Debug)]
pub struct MediaMetadata {
    pub title: Option<String>,
    pub artist: Option<String>,
    pub album: Option<String>,
    pub artwork_url: Option<String>,
}

/// The first artwork source among the entries, scanning in order.
pub open spec fn first_artwork_src(entries: Seq<ArtworkEntry>) -> Option<String>
    decreases entries.len(),
{
    if entries.len() == 0 {
        None
    } else if entries[0].src is Some {
        entries[0].src
    } else {
        first_artwork_src(entries.drop_first())
    }
}

/// The artwork URL an update resolves to: the explicit one, else the first
/// entry that carries a source.
pub open spec fn resolved_artwork(p: MediaMetadataPayload) -> Option<String> {
    match p.artwork_url {
        Some(url) => Some(url),
        None => match p.artwork {
            Some(entries) => first_artwork_src(entries@),
            None => None,
        },
    }
}

impl MediaMetadataPayload {
    /// Normalize the payload: keep the fields, resolve the artwork URL.
    pub fn into_metadata(self) -> (r: MediaMetadata)
        ensures
            r.title == self.title,
            r.artist == self.artist,
            r.album == self.album,
            r.artwork_url == resolved_artwork(self),
    {
        let artwork_url = match self.artwork_url {
            Some(url) => Some(url),
            None => {
                match self.artwork {
                    Some(entries) => {
                        let mut found: Option<String> = None;
                        let mut entries = entries;
                        let ghost orig = entries@;
                        proof {
                            assert(entries@ =~= orig.subrange(0, orig.len() as int));
                        }
                        let ghost mut k: int = 0;
                        while entries.len() > 0 && matches!(found, None)
                            invariant
                                0 <= k <= orig.len(),
                                entries@ == orig.subrange(k, orig.len() as int),
                                found is None ==> first_artwork_src(orig) == first_artwork_src(
                                    orig.subrange(k, orig.len() as int),
                                ),
                                found is Some ==> found == first_artwork_src(orig),
                            decreases entries@.len(),
                        {
                            let e = entries.remove(0);
                            proof {
                                assert(e == orig[k]);
                                assert(entries@ =~= orig.subrange(k + 1, orig.len() as int));
                                let t = orig.subrange(k, orig.len() as int);
                                assert(t[0] == orig[k]);
                                assert(t.drop_first() =~= orig.subrange(k + 1, orig.len() as int));
                            }
                            match e.src {
                                Some(src) => {
                                    found = Some(src);
                                },
                                None => {},
                            }
                            proof {
                                k = k + 1;
                            }
                        }
                        proof {
                            if found is None {
                                assert(orig.subrange(k, orig.len() as int).len() == 0);
                            }
                        }
                        found
                    },
                    None => None,
                }
            },
        };
        MediaMetadata { title: self.title, artist: self.artist, album: self.album, artwork_url }
    }
}

/// An update payload as received from the player page.
#[derive(Debug)]
pub struct MediaUpdatePayload {
    pub playback_state: Option<String>,
    pub metadata: Option<MediaMetadataPayload>,
}

/// A theme change notification from the player page.
#[derive(Debug)]
pub struct ThemeChangePayload {
    pub theme: Option<String>,
    pub metadata: Option<MediaMetadataPayload>,
}

/// Playback state.
#[derive(Clone, Copy, Debug, PartialEq, Eq, Structural)]
pub enum PlaybackStatus {
    Playing,
    Paused,
    Stopped,
}

impl Default for PlaybackStatus {
    fn default() -> (r: Self)
        ensures
            r == PlaybackStatus::Paused,
    {
        PlaybackStatus::Paused
    }
}

impl PlaybackStatus {
    /// The status a state name denotes.
    pub open spec fn of_name(s: Seq<char>) -> Option<PlaybackStatus> {
        if s == "playing"@ {
            Some(PlaybackStatus::Playing)
        } else if s == "paused"@ {
            Some(PlaybackStatus::Paused)
        } else if s == "stopped"@ {
            Some(PlaybackStatus::Stopped)
        } else {
            None
        }
    }

    pub fn from_str(value: &str) -> (r: Option<Self>)
        ensures
            r == Self::of_name(value@),
    {
        if str_eq(value, "playing") {
            Some(PlaybackStatus::Playing)
        } else if str_eq(value, "paused") {
            Some(PlaybackStatus::Paused)
        } else if str_eq(value, "stopped") {
            Some(PlaybackStatus::Stopped)
        } else {
            None
        }
    }
}

/// A normalized media update.
#[derive(Debug)]
pub struct MediaUpdate {
    pub playback: PlaybackStatus,
    pub metadata: Option<MediaMetadata>,
}

impl MediaUpdate {
    /// Normalize a raw payload; a payload carrying neither a playback state
    /// nor metadata denotes nothing.
    pub fn from_payload(payload: MediaUpdatePayload) -> (r: Option<Self>)
        ensures
            payload.playback_state is None && payload.metadata is None ==> r is None,
            !(payload.playback_state is None && payload.metadata is None) ==> (r matches Some(u) && {
                &&& u.playback == (match payload.playback_state {
                    Some(s) => match PlaybackStatus::of_name(s@) {
                        Some(p) => p,
                        None => PlaybackStatus::Paused,
                    },
                    None => PlaybackStatus::Paused,
                })
                &&& (payload.metadata is None ==> u.metadata is None)
                &&& (payload.metadata matches Some(m) ==> (u.metadata matches Some(md)
                    && md.title == m.title && md.artist == m.artist && md.album == m.album
                    && md.artwork_url == resolved_artwork(m)))
            }),
    {
        let has_state = matches!(&payload.playback_state, Some(_));
        let playback = match &payload.playback_state {
            Some(s) => {
                match PlaybackStatus::from_str(s.as_str()) {
                    Some(p) => p,
                    None => PlaybackStatus::Paused,
                }
            },
            None => PlaybackStatus::Paused,
        };
        match payload.metadata {
            Some(m) => Some(MediaUpdate { playback, metadata: Some(m.into_metadata()) }),
            None => {
                if has_state {
                    Some(MediaUpdate { playback, metadata: None })
                } else {
                    None
                }
            },
        }
    }

    /// The playback state of this update.
    pub fn playback(&self) -> (r: PlaybackStatus)
        ensures
            r == self.playback,
    {
        self.playback
    }

    /// The metadata of this update, if any.
    pub fn metadata(&self) -> (r: &Option<MediaMetadata>)
        ensures
            r == &self.metadata,
    {
        &self.metadata
    }
}

/// The last known playback state and metadata.
#[derive(Debug)]
pub struct MediaCache {
    pub playback: PlaybackStatus,
    pub metadata: Option<MediaMetadata>,
}

impl MediaCache {
    /// An empty cache: paused, nothing known.
    pub fn new() -> (r: Self)
        ensures
            r.playback == PlaybackStatus::Paused,
            r.metadata is None,
    {
        MediaCache { playback: PlaybackStatus::Paused, metadata: None }
    }

    /// Take over an update's playback state; metadata only when the update
    /// carries some, else the cached metadata stays.
    pub fn update(&mut self, update: MediaUpdate)
        ensures
            final(self).playback == update.playback,
            update.metadata is Some ==> final(self).metadata == update.metadata,
            update.metadata is None ==> final(self).metadata == old(self).metadata,
    {
        self.playback = update.playback;
        match update.metadata {
            Some(metadata) => {
                self.metadata = Some(metadata);
            },
            None => {},
        }
    }
}

/// The media-sink capability the core hands updates to. OS now-playing
/// integrations live outside the core; this sink deliberately does
/// nothing, so the core never depends on a concrete one.
#[derive(Debug)]
pub struct MediaIntegration {
    pub enabled: bool,
}

impl MediaIntegration {
    /// A sink that accepts updates and discards them.
    pub fn initialize() -> (r: Self)
        ensures
            !r.enabled,
    {
        MediaIntegration { enabled: false }
    }

    /// Hand an update to the sink; the no-op sink ignores it.
    pub fn update(&self, update: &MediaUpdate) {
    }
}

} // verus!
