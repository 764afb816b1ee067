//! DJ-library import: the imported track shape, location resolution, file
//! metadata (checksum and duration) and format selection. Reading the
//! export file itself is the caller's concern; the functions here work on
//! the plain values read out of it.

use vstd::prelude::*;

verus! {

use crate::records::ov;
use sha2::Digest;

/// A hot-cue attached to an imported track.
#[derive(Debug)]
pub struct RekordboxCue {
    pub slot: i64,
    pub name: Option<String>,
    pub color: Option<String>,
    pub position_ms: i64,
    pub cue_type: Option<String>,
}

/// One track of the DJ-library export, after both physical formats have
/// been read into the same shape.
#[derive(Debug)]
pub struct RekordboxTrack {
    pub rekordbox_id: String,
    pub track_reference: Option<String>,
    pub title: Option<String>,
    pub artist: Option<String>,
    pub album: Option<String>,
    pub location: Option<String>,
    pub normalized_path: Option<String>,
    pub checksum: Option<String>,
    pub duration_ms: Option<u64>,
    pub available: bool,
    pub cues: Vec<RekordboxCue>,
}

/// The track identity minted for a DJ-library external id.
pub open spec fn rb_track_id(rekordbox_id: Seq<char>) -> Seq<char> {
    "rekordbox:"@ + rekordbox_id
}

/// Mint the track identity for a DJ-library external id.
pub fn make_rb_track_id(rekordbox_id: &String) -> (r: String)
    ensures
        r@ == rb_track_id(rekordbox_id@),
{
    let mut out = "rekordbox:".to_owned();
    out.append(rekordbox_id.as_str());
    out
}

/// Minted identities are injective in the external id.
pub proof fn lemma_rb_track_id_injective(a: Seq<char>, b: Seq<char>)
    requires
        rb_track_id(a) == rb_track_id(b),
    ensures
        a == b,
{
    let p = "rekordbox:"@;
    assert(a =~= (p + a).subrange(p.len() as int, (p + a).len() as int));
    assert(b =~= (p + b).subrange(p.len() as int, (p + b).len() as int));
}

/// The on-disk location a song row resolves to: the direct file path when
/// non-empty, else the folder joined with the file name.
pub open spec fn resolved_location(
    file_path: Option<Seq<char>>,
    folder_path: Option<Seq<char>>,
    file_name: Option<Seq<char>>,
) -> Option<Seq<char>> {
    if file_path matches Some(p) && p.len() > 0 {
        file_path
    } else {
        match (folder_path, file_name) {
            (Some(folder), Some(name)) => if folder.len() > 0 && folder.last() == '/' {
                Some(folder + name)
            } else {
                Some(folder + seq!['/'] + name)
            },
            _ => None,
        }
    }
}

/// Resolve a song row's on-disk location.
pub fn resolve_location(
    file_path: &Option<String>,
    folder_path: &Option<String>,
    file_name: &Option<String>,
) -> (r: Option<String>)
    ensures
        ov(r) == resolved_location(
            match file_path {
                Some(p) => Some(p@),
                None => None,
            },
            match folder_path {
                Some(p) => Some(p@),
                None => None,
            },
            match file_name {
                Some(p) => Some(p@),
                None => None,
            },
        ),
{
    match file_path {
        Some(p) => {
            if p.as_str().unicode_len() > 0 {
                return Some(p.clone());
            }
        },
        None => {},
    }
    match (folder_path, file_name) {
        (Some(folder), Some(name)) => {
            let fl: usize = folder.as_str().unicode_len();
            let ends_slash = fl > 0 && folder.as_str().get_char(fl - 1) == '/';
            let mut out = folder.clone();
            if !ends_slash {
                crate::text::push_char(&mut out, '/');
            }
            out.append(name.as_str());
            Some(out)
        },
        _ => None,
    }
}

/// Whether a location is a file URL.
pub open spec fn is_file_url(s: Seq<char>) -> bool {
    s.len() >= 7 && s.subrange(0, 7) == "file://"@
}

/// Relies on the `url` crate: parse a location as a URL and, when it is a
/// file URL, convert it to a local path. Nothing further is assumed of the
/// conversion, which is platform-dependent.
#[verifier::external_body]
fn file_url_to_path(value: &str) -> (r: Option<Option<String>>) {
    match url::Url::parse(value) {
        Ok(parsed) => {
            if parsed.scheme() == "file" {
                match parsed.to_file_path() {
                    Ok(path) => Some(Some(path.to_string_lossy().into_owned())),
                    Err(_) => Some(None),
                }
            } else {
                None
            }
        },
        Err(_) => None,
    }
}

/// Decode a location into a local path: a file URL goes through URL
/// decoding; anything else is taken verbatim, as is a file URL that does
/// not parse.
pub fn decode_location(value: &String) -> (r: Option<String>)
    ensures
        !is_file_url(value@) ==> (r matches Some(p) && p@ == value@),
{
    let n: usize = value.as_str().unicode_len();
    let mut is_url = n >= 7;
    if is_url {
        let prefix = value.as_str().substring_char(0, 7);
        is_url = crate::text::str_eq(prefix, "file://");
        proof {
            if !is_url {
                assert(value@.subrange(0, 7) != "file://"@);
            }
        }
    }
    if is_url {
        match file_url_to_path(value.as_str()) {
            Some(converted) => converted,
            None => Some(value.clone()),
        }
    } else {
        Some(value.clone())
    }
}

/// Whether a path names the XML export form: its extension, taken
/// ASCII-case-insensitively, is "xml". The binary form supports reliable
/// change watching; the XML export is one-shot.
pub open spec fn is_xml_path(s: Seq<char>) -> bool {
    exists|i: int|
        #![trigger s[i]]
        0 < i < s.len() && s[i] == '.' && s[i - 1] != '/' && (forall|k: int|
            i < k < s.len() ==> s[k] != '.' && s[k] != '/') && crate::text::lower_spec(
            s.subrange(i + 1, s.len() as int),
        ) == "xml"@
}

/// Whether the watcher may poll this library path for changes.
pub fn supports_auto_refresh(path: &String) -> (r: bool)
    ensures
        r == !is_xml_path(path@),
{
    let n: usize = path.as_str().unicode_len();
    let mut j: usize = n;
    // scan backwards for the last '.' not followed by a '/' or another '.'
    while j > 0
        invariant
            n == path@.len(),
            0 <= j <= n,
            forall|k: int| j <= k < n ==> path@[k] != '.' && path@[k] != '/',
        decreases j,
    {
        let c = path.as_str().get_char(j - 1);
        if c == '.' {
            // a file name that is nothing but the dot and what follows it
            // carries no extension
            let bare = j - 1 == 0 || path.as_str().get_char(j - 2) == '/';
            if bare {
                proof {
                    assert forall|i: int|
                        #![trigger path@[i]]
                        0 < i < path@.len() && path@[i] == '.' implies !(path@[i - 1] != '/'
                        && (forall|k: int|
                        i < k < path@.len() ==> path@[k] != '.' && path@[k] != '/')) by {
                        if i > j - 1 {
                            assert(path@[i] != '.');
                        } else if i < j - 1 {
                            assert(path@[(j - 1) as int] == '.');
                        }
                    }
                    assert(!is_xml_path(path@));
                }
                return true;
            }
            let ext = path.as_str().substring_char(j, n);
            let low = crate::text::to_ascii_lower(ext);
            let is_xml = crate::text::str_eq(low.as_str(), "xml");
            proof {
                if is_xml {
                    assert(path@[(j - 1) as int] == '.');
                    assert(path@[(j - 2) as int] != '/');
                    assert(crate::text::lower_spec(path@.subrange(j as int, path@.len() as int))
                        == "xml"@);
                    assert(is_xml_path(path@));
                } else {
                    assert forall|i: int|
                        #![trigger path@[i]]
                        0 < i < path@.len() && path@[i] == '.' && path@[i - 1] != '/' && (forall|
                            k: int,
                        |
                            i < k < path@.len() ==> path@[k] != '.' && path@[k] != '/') implies
                        crate::text::lower_spec(path@.subrange(i + 1, path@.len() as int))
                            != "xml"@ by {
                        if i > j - 1 {
                            assert(path@[i] != '.');
                        } else if i < j - 1 {
                            assert(path@[(j - 1) as int] == '.');
                        }
                        assert(i == j - 1);
                    }
                    assert(!is_xml_path(path@));
                }
            }
            return !is_xml;
        }
        if c == '/' {
            proof {
                assert forall|i: int|
                    #![trigger path@[i]]
                    0 < i < path@.len() && path@[i] == '.' implies !(forall|k: int|
                    i < k < path@.len() ==> path@[k] != '.' && path@[k] != '/') by {
                    assert(path@[(j - 1) as int] == '/');
                    if i >= j {
                        assert(path@[i] != '.');
                    }
                    assert(i < j - 1 < path@.len());
                }
                assert(!is_xml_path(path@));
            }
            return true;
        }
        j = j - 1;
    }
    proof {
        assert(!is_xml_path(path@));
    }
    true
}

/// One hot-cue row of the binary export, keyed by its song.
#[derive(Debug)]
pub struct CueEntry {
    pub song_id: String,
    pub cue: RekordboxCue,
}

/// The cues belonging to one song, in table order.
pub open spec fn cues_for_spec(entries: Seq<CueEntry>, song_id: Seq<char>) -> Seq<RekordboxCue>
    decreases entries.len(),
{
    if entries.len() == 0 {
        Seq::empty()
    } else {
        let rest = cues_for_spec(entries.drop_last(), song_id);
        if entries.last().song_id@ == song_id {
            rest.push(entries.last().cue)
        } else {
            rest
        }
    }
}

impl RekordboxCue {
    /// Copy a cue; the copy denotes the same values.
    pub fn duplicate(&self) -> (r: Self)
        ensures
            r.slot == self.slot,
            r.position_ms == self.position_ms,
            ov(r.name) == ov(self.name),
            ov(r.color) == ov(self.color),
            ov(r.cue_type) == ov(self.cue_type),
    {
        RekordboxCue {
            slot: self.slot,
            name: crate::records::clone_opt_string(&self.name),
            color: crate::records::clone_opt_string(&self.color),
            position_ms: self.position_ms,
            cue_type: crate::records::clone_opt_string(&self.cue_type),
        }
    }
}

/// Collect the cues of one song from the hot-cue table.
pub fn cues_for(entries: &Vec<CueEntry>, song_id: &String) -> (r: Vec<RekordboxCue>)
    ensures
        r@.len() == cues_for_spec(entries@, song_id@).len(),
        forall|i: int|
            0 <= i < r@.len() ==> {
                let c = #[trigger] r@[i];
                let s = cues_for_spec(entries@, song_id@)[i];
                c.slot == s.slot && c.position_ms == s.position_ms && ov(c.name) == ov(s.name)
                    && ov(c.color) == ov(s.color) && ov(c.cue_type) == ov(s.cue_type)
            },
{
    let mut out: Vec<RekordboxCue> = Vec::new();
    let mut i: usize = 0;
    proof {
        assert(entries@.subrange(0, 0) =~= Seq::<CueEntry>::empty());
    }
    while i < entries.len()
        invariant
            0 <= i <= entries@.len(),
            out@.len() == cues_for_spec(entries@.subrange(0, i as int), song_id@).len(),
            forall|w: int|
                0 <= w < out@.len() ==> {
                    let c = #[trigger] out@[w];
                    let s = cues_for_spec(entries@.subrange(0, i as int), song_id@)[w];
                    c.slot == s.slot && c.position_ms == s.position_ms && ov(c.name) == ov(s.name)
                        && ov(c.color) == ov(s.color) && ov(c.cue_type) == ov(s.cue_type)
                },
        decreases entries@.len() - i,
    {
        proof {
            assert(entries@.subrange(0, i + 1).drop_last() =~= entries@.subrange(0, i as int));
            assert(entries@.subrange(0, i + 1).last() == entries@[i as int]);
        }
        if entries[i].song_id.eq(song_id) {
            out.push(entries[i].cue.duplicate());
        }
        i = i + 1;
    }
    proof {
        assert(entries@.subrange(0, entries@.len() as int) =~= entries@);
    }
    out
}

/// What probing a referenced file yields.
#[derive(Debug)]
pub struct FileMetadata {
    pub checksum: Option<String>,
    pub duration_ms: Option<u64>,
    pub available: bool,
}

impl FileMetadata {
    /// The metadata of a file that is not there.
    pub fn missing() -> (r: Self)
        ensures
            r.checksum is None,
            r.duration_ms is None,
            !r.available,
    {
        FileMetadata { checksum: None, duration_ms: None, available: false }
    }
}

/// The SHA-256 digest of a byte sequence, named; the digest has 32 bytes.
pub uninterp spec fn sha256_of(bytes: Seq<u8>) -> Seq<u8>;

/// Relies on sha2's `Sha256`: the digest of the full input, a function of
/// the bytes alone, 32 bytes long.
#[verifier::external_body]
fn sha256_digest(bytes: &[u8]) -> (r: Vec<u8>)
    ensures
        r@ == sha256_of(bytes@),
        r@.len() == 32,
{
    sha2::Sha256::digest(bytes).to_vec()
}

/// The lowercase hex digit of a nibble.
pub open spec fn hex_digit(n: int) -> char {
    if n == 0 {
        '0'
    } else if n == 1 {
        '1'
    } else if n == 2 {
        '2'
    } else if n == 3 {
        '3'
    } else if n == 4 {
        '4'
    } else if n == 5 {
        '5'
    } else if n == 6 {
        '6'
    } else if n == 7 {
        '7'
    } else if n == 8 {
        '8'
    } else if n == 9 {
        '9'
    } else if n == 10 {
        'a'
    } else if n == 11 {
        'b'
    } else if n == 12 {
        'c'
    } else if n == 13 {
        'd'
    } else if n == 14 {
        'e'
    } else {
        'f'
    }
}

/// The lowercase hex encoding of a byte sequence: two digits per byte.
pub open spec fn hex_of(bytes: Seq<u8>) -> Seq<char>
    decreases bytes.len(),
{
    if bytes.len() == 0 {
        Seq::empty()
    } else {
        hex_of(bytes.drop_last()) + seq![
            hex_digit(bytes.last() as int / 16),
            hex_digit(bytes.last() as int % 16),
        ]
    }
}

pub proof fn lemma_hex_of_len(bytes: Seq<u8>)
    ensures
        hex_of(bytes).len() == 2 * bytes.len(),
    decreases bytes.len(),
{
    if bytes.len() > 0 {
        lemma_hex_of_len(bytes.drop_last());
    }
}

/// One nibble as a lowercase hex character.
fn hex_digit_exec(n: u8) -> (r: char)
    requires
        n < 16,
    ensures
        r == hex_digit(n as int),
{
    if n == 0 {
        '0'
    } else if n == 1 {
        '1'
    } else if n == 2 {
        '2'
    } else if n == 3 {
        '3'
    } else if n == 4 {
        '4'
    } else if n == 5 {
        '5'
    } else if n == 6 {
        '6'
    } else if n == 7 {
        '7'
    } else if n == 8 {
        '8'
    } else if n == 9 {
        '9'
    } else if n == 10 {
        'a'
    } else if n == 11 {
        'b'
    } else if n == 12 {
        'c'
    } else if n == 13 {
        'd'
    } else if n == 14 {
        'e'
    } else {
        'f'
    }
}

/// The streaming content checksum of a file: the lowercase hex form of its
/// SHA-256 digest, 64 characters.
pub fn content_checksum(bytes: &Vec<u8>) -> (r: String)
    ensures
        r@ == hex_of(sha256_of(bytes@)),
        r@.len() == 64,
{
    let digest = sha256_digest(bytes.as_slice());
    let mut out = String::new();
    let mut i: usize = 0;
    proof {
        assert(digest@.subrange(0, 0) =~= Seq::<u8>::empty());
    }
    while i < digest.len()
        invariant
            digest@.len() == 32,
            digest@ == sha256_of(bytes@),
            0 <= i <= 32,
            out@ == hex_of(digest@.subrange(0, i as int)),
            out@.len() == 2 * i,
        decreases digest@.len() - i,
    {
        proof {
            assert(digest@.subrange(0, i + 1).drop_last() =~= digest@.subrange(0, i as int));
            assert(digest@.subrange(0, i + 1).last() == digest@[i as int]);
            lemma_hex_of_len(digest@.subrange(0, i + 1));
        }
        let b = digest[i];
        crate::text::push_char(&mut out, hex_digit_exec(b / 16));
        crate::text::push_char(&mut out, hex_digit_exec(b % 16));
        i = i + 1;
    }
    proof {
        assert(digest@.subrange(0, 32) =~= digest@);
    }
    out
}

/// The total frame count of the decoded packets.
pub open spec fn total_frames(frames: Seq<u64>) -> int
    decreases frames.len(),
{
    if frames.len() == 0 {
        0
    } else {
        total_frames(frames.drop_last()) + frames.last()
    }
}

proof fn lemma_total_frames_bound(frames: Seq<u64>)
    ensures
        0 <= total_frames(frames) <= frames.len() * (u64::MAX as int),
    decreases frames.len(),
{
    if frames.len() > 0 {
        lemma_total_frames_bound(frames.drop_last());
        assert((frames.len() - 1) * (u64::MAX as int) + (u64::MAX as int) == frames.len() * (
        u64::MAX as int)) by (nonlinear_arith);
    }
}

/// The duration the decoded frames denote: frames summed over all packets,
/// divided by the sample rate, in milliseconds; no usable rate means no
/// duration. A result beyond the representable range saturates.
pub open spec fn duration_of(frames: Seq<u64>, sample_rate: u32) -> Option<u64> {
    if sample_rate == 0 {
        None
    } else {
        let ms = total_frames(frames) * 1000 / (sample_rate as int);
        if ms <= u64::MAX {
            Some(ms as u64)
        } else {
            Some(u64::MAX)
        }
    }
}

/// Compute a duration from per-packet frame counts and the sample rate.
pub fn duration_from_frames(frames: &Vec<u64>, sample_rate: u32) -> (r: Option<u64>)
    requires
        frames@.len() <= 1000000000,
    ensures
        r == duration_of(frames@, sample_rate),
{
    if sample_rate == 0 {
        return None;
    }
    let mut total: u128 = 0;
    let mut i: usize = 0;
    proof {
        assert(frames@.subrange(0, 0) =~= Seq::<u64>::empty());
    }
    while i < frames.len()
        invariant
            frames@.len() <= 1000000000,
            0 <= i <= frames@.len(),
            total == total_frames(frames@.subrange(0, i as int)),
            total <= i * (u64::MAX as int),
        decreases frames@.len() - i,
    {
        proof {
            assert(frames@.subrange(0, i + 1).drop_last() =~= frames@.subrange(0, i as int));
            assert(frames@.subrange(0, i + 1).last() == frames@[i as int]);
            assert(i * (u64::MAX as int) + (u64::MAX as int) == (i + 1) * (u64::MAX as int))
                by (nonlinear_arith);
            assert((i + 1) * (u64::MAX as int) <= 1000000001 * (u64::MAX as int))
                by (nonlinear_arith)
                requires
                    i + 1 <= 1000000001,
            ;
        }
        total = total + (frames[i] as u128);
        i = i + 1;
    }
    proof {
        assert(frames@.subrange(0, frames@.len() as int) =~= frames@);
        assert(total * 1000 <= 1000000000 * (u64::MAX as int) * 1000) by (nonlinear_arith)
            requires
                total <= 1000000000 * (u64::MAX as int),
        ;
    }
    let ms_wide: u128 = total * 1000 / (sample_rate as u128);
    proof {
        assert(ms_wide == total_frames(frames@) * 1000 / (sample_rate as int));
    }
    if ms_wide <= u64::MAX as u128 {
        Some(ms_wide as u64)
    } else {
        Some(u64::MAX)
    }
}

} // verus!
