//! Track resolution: follow the alternatives chain of an unavailable
//! item and pick an encoding from a fixed preference order.
//!
//! Metadata fetches are network work done by the caller; the functions
//! here take the fetched items as plain values and make every decision,
//! so resolution is deterministic and fully specified.

use vstd::prelude::*;

verus! {

use crate::errors::{AudioError, ServerError};
use vstd::string::StringSliceAdditionalSpecFns;

/// Encodings a track may be offered in, as the protocol tags them.
#[derive(Clone, Copy, Debug, PartialEq, Eq, Structural)]
pub enum FileFormat {
    OggVorbis96,
    OggVorbis160,
    OggVorbis320,
    Mp3256,
    Mp3320,
    Mp3160,
    Mp396,
    Mp3160Enc,
    Mp4128Dual,
    Other3,
    Aac160,
    Aac320,
    Mp4128,
    Other5,
}

/// Opaque locator for one encoded rendition of a track.
#[derive(Debug)]
pub struct FileId(pub Vec<u8>);

impl View for FileId {
    type V = Seq<u8>;

    open spec fn view(&self) -> Seq<u8> {
        self.0@
    }
}

impl Clone for FileId {
    fn clone(&self) -> (r: Self)
        ensures
            r@ == self@,
    {
        FileId(self.0.clone())
    }
}

/// Track metadata as the protocol session reports it.
#[derive(Debug)]
pub struct AudioItemMeta {
    /// The track's own identifier.
    pub id: String,
    /// Whether the catalog marks the item playable at all.
    pub available: bool,
    /// Map from format to content locator, in the order reported.
    pub files: Vec<(FileFormat, FileId)>,
    /// Identifiers of interchangeable recordings, if any are declared.
    pub alternatives: Option<Vec<String>>,
}

/// Playable rendition the resolver settled on.
#[derive(Clone, Debug)]
pub struct ResolvedTrack {
    /// An encoding confirmed present in the chosen item's file map.
    pub format: FileFormat,
    /// Locator of the encrypted content body for that encoding.
    pub content_id: FileId,
    /// Byte offset at which real audio data begins.
    pub container_header_len: u64,
}

/// End of the vendor's custom leading packet in its Ogg container
/// variants; the packet is not valid stream data and must be skipped.
pub const OGG_CUSTOM_HEADER_END: u64 = 0xa7;

/// The fixed format preference order: highest quality first, covering
/// both codec families.
pub open spec fn spec_preference() -> Seq<FileFormat> {
    seq![
        FileFormat::OggVorbis320,
        FileFormat::Mp3320,
        FileFormat::Mp3256,
        FileFormat::OggVorbis160,
        FileFormat::Mp3160,
        FileFormat::OggVorbis96,
        FileFormat::Mp396,
    ]
}

/// Index of the first entry for `f` in a file map, or -1 if absent.
pub open spec fn spec_format_index(files: Seq<(FileFormat, FileId)>, f: FileFormat) -> int
    decreases files.len(),
{
    if files.len() == 0 {
        -1
    } else if files[0].0 == f {
        0
    } else {
        let r = spec_format_index(files.drop_first(), f);
        if r < 0 {
            -1
        } else {
            r + 1
        }
    }
}

/// The first format of the preference list `prefs` present in `files`.
pub open spec fn spec_first_present(
    prefs: Seq<FileFormat>,
    files: Seq<(FileFormat, FileId)>,
) -> Option<FileFormat>
    decreases prefs.len(),
{
    if prefs.len() == 0 {
        None
    } else if spec_format_index(files, prefs[0]) >= 0 {
        Some(prefs[0])
    } else {
        spec_first_present(prefs.drop_first(), files)
    }
}

/// The format the resolver picks for a file map, if any.
pub open spec fn spec_selected_format(files: Seq<(FileFormat, FileId)>) -> Option<FileFormat> {
    spec_first_present(spec_preference(), files)
}

/// Whether a format is one of the vendor's custom Ogg variants.
pub open spec fn spec_is_ogg_vorbis(f: FileFormat) -> bool {
    f == FileFormat::OggVorbis320 || f == FileFormat::OggVorbis160 || f
        == FileFormat::OggVorbis96
}

/// Header length to skip for a format: the custom leading packet for
/// the Ogg variants, nothing for every other format.
pub open spec fn spec_header_len(f: FileFormat) -> u64 {
    if spec_is_ogg_vorbis(f) {
        OGG_CUSTOM_HEADER_END
    } else {
        0
    }
}

/// An item needs the alternatives chain when it is marked unavailable
/// or offers no files at all.
pub open spec fn spec_needs_alternative(item: AudioItemMeta) -> bool {
    !item.available || item.files@.len() == 0
}

/// Index of the first fetched alternative that both succeeded and is
/// marked available, or -1 if none qualifies.
pub open spec fn spec_first_qualifying(results: Seq<Option<AudioItemMeta>>) -> int
    decreases results.len(),
{
    if results.len() == 0 {
        -1
    } else if results[0] matches Some(item) && item.available {
        0
    } else {
        let r = spec_first_qualifying(results.drop_first());
        if r < 0 {
            -1
        } else {
            r + 1
        }
    }
}

/// The item resolution settles on, if any: the primary when playable,
/// else the first qualifying fetched alternative when the primary
/// declares alternatives, else the primary again when it is available
/// (its empty file map is then reported as a format failure).
pub open spec fn spec_choice(
    primary: AudioItemMeta,
    results: Seq<Option<AudioItemMeta>>,
) -> Option<AudioItemMeta> {
    if !spec_needs_alternative(primary) {
        Some(primary)
    } else if primary.alternatives is Some {
        let q = spec_first_qualifying(results);
        if q >= 0 {
            Some(results[q]->0)
        } else {
            None
        }
    } else if primary.available {
        Some(primary)
    } else {
        None
    }
}

/// Whether a byte is a base-62 digit, the alphabet of track ids.
pub open spec fn spec_is_base62(b: u8) -> bool {
    (48 <= b && b <= 57) || (97 <= b && b <= 122) || (65 <= b && b <= 90)
}

/// A well-formed track id: exactly 22 base-62 characters, the
/// canonical form of the protocol's track identifiers.
pub open spec fn spec_track_id_ok(s: Seq<u8>) -> bool {
    s.len() == 22 && forall|i: int| 0 <= i < s.len() ==> spec_is_base62(#[trigger] s[i])
}

/// Check a track id before any protocol work: rejects anything but 22
/// base-62 characters as a parameter error, carrying the id back.
pub fn validate_track_id(id: &str) -> (r: Result<(), ServerError>)
    ensures
        r is Ok <==> spec_track_id_ok(id.spec_bytes()),
        r matches Err(e) ==> e matches ServerError::ParamsError(_),
{
    let bytes = id.as_bytes();
    if bytes.len() != 22 {
        return Err(ServerError::ParamsError(String::from_str("invalid track id")));
    }
    let mut i: usize = 0;
    while i < bytes.len()
        invariant
            i <= bytes@.len(),
            bytes@ == id.spec_bytes(),
            bytes@.len() == 22,
            forall|j: int| 0 <= j < i ==> spec_is_base62(#[trigger] bytes@[j]),
        decreases bytes@.len() - i,
    {
        let b = bytes[i];
        let ok = (48 <= b && b <= 57) || (97 <= b && b <= 122) || (65 <= b && b <= 90);
        if !ok {
            return Err(ServerError::ParamsError(String::from_str("invalid track id")));
        }
        i = i + 1;
    }
    Ok(())
}

/// The fixed preference order as a value.
pub fn preferred_formats() -> (r: Vec<FileFormat>)
    ensures
        r@ == spec_preference(),
{
    let mut r: Vec<FileFormat> = Vec::new();
    r.push(FileFormat::OggVorbis320);
    r.push(FileFormat::Mp3320);
    r.push(FileFormat::Mp3256);
    r.push(FileFormat::OggVorbis160);
    r.push(FileFormat::Mp3160);
    r.push(FileFormat::OggVorbis96);
    r.push(FileFormat::Mp396);
    proof {
        assert(r@ =~= spec_preference());
    }
    r
}

fn find_format(files: &Vec<(FileFormat, FileId)>, f: FileFormat) -> (r: Option<usize>)
    ensures
        r is Some <==> spec_format_index(files@, f) >= 0,
        r matches Some(i) ==> i == spec_format_index(files@, f) && i < files@.len()
            && files@[i as int].0 == f,
{
    let mut i: usize = 0;
    while i < files.len()
        invariant
            i <= files@.len(),
            forall|j: int| 0 <= j < i ==> files@[j].0 != f,
            spec_format_index(files@, f) >= 0 ==> spec_format_index(files@, f) >= i,
        decreases files@.len() - i,
    {
        if files[i].0 == f {
            proof {
                lemma_format_index_first(files@, f, i as int);
            }
            return Some(i);
        }
        i = i + 1;
        proof {
            if spec_format_index(files@, f) >= 0 {
                lemma_format_index_bound(files@, f, i as int);
            }
        }
    }
    proof {
        lemma_format_index_none(files@, f);
    }
    None
}

proof fn lemma_format_index_first(files: Seq<(FileFormat, FileId)>, f: FileFormat, i: int)
    requires
        0 <= i < files.len(),
        files[i].0 == f,
        forall|j: int| 0 <= j < i ==> files[j].0 != f,
    ensures
        spec_format_index(files, f) == i,
    decreases files.len(),
{
    if i > 0 {
        lemma_format_index_first(files.drop_first(), f, i - 1);
    }
}

proof fn lemma_format_index_bound(files: Seq<(FileFormat, FileId)>, f: FileFormat, i: int)
    requires
        0 <= i <= files.len(),
        forall|j: int| 0 <= j < i ==> files[j].0 != f,
        spec_format_index(files, f) >= 0,
    ensures
        spec_format_index(files, f) >= i,
    decreases i,
{
    if i > 0 {
        lemma_format_index_bound(files.drop_first(), f, i - 1);
    }
}

proof fn lemma_format_index_none(files: Seq<(FileFormat, FileId)>, f: FileFormat)
    requires
        forall|j: int| 0 <= j < files.len() ==> files[j].0 != f,
    ensures
        spec_format_index(files, f) < 0,
    decreases files.len(),
{
    if files.len() > 0 {
        lemma_format_index_none(files.drop_first(), f);
    }
}

/// Scan the preference order and pick the first format present in the
/// file map, with that format's content locator.
pub fn select_format(files: &Vec<(FileFormat, FileId)>) -> (r: Option<(FileFormat, FileId)>)
    ensures
        r is Some <==> spec_selected_format(files@) is Some,
        r matches Some(p) ==> spec_selected_format(files@) == Some(p.0) && p.1@ == files@[
            spec_format_index(files@, p.0)
        ].1@,
{
    let prefs = preferred_formats();
    proof {
        assert(prefs@.skip(0) =~= prefs@);
    }
    let mut pi: usize = 0;
    while pi < prefs.len()
        invariant
            pi <= prefs@.len(),
            prefs@ == spec_preference(),
            forall|j: int| 0 <= j < pi ==> spec_format_index(files@, prefs@[j]) < 0,
            spec_first_present(prefs@.skip(pi as int), files@) == spec_selected_format(files@),
        decreases prefs@.len() - pi,
    {
        let f = prefs[pi];
        proof {
            assert(prefs@.skip(pi as int)[0] == f);
            assert(prefs@.skip(pi as int).drop_first() =~= prefs@.skip(pi as int + 1));
        }
        match find_format(files, f) {
            Some(i) => {
                let id = files[i].1.clone();
                return Some((f, id));
            },
            None => {},
        }
        pi = pi + 1;
    }
    proof {
        assert(prefs@.skip(prefs@.len() as int) =~= Seq::<FileFormat>::empty());
    }
    None
}

/// Header length to skip for a format.
pub fn container_header_len(f: FileFormat) -> (n: u64)
    ensures
        n == spec_header_len(f),
{
    match f {
        FileFormat::OggVorbis320 => OGG_CUSTOM_HEADER_END,
        FileFormat::OggVorbis160 => OGG_CUSTOM_HEADER_END,
        FileFormat::OggVorbis96 => OGG_CUSTOM_HEADER_END,
        _ => 0,
    }
}

/// Whether the item needs the alternatives chain before streaming.
pub fn needs_alternative(item: &AudioItemMeta) -> (b: bool)
    ensures
        b == spec_needs_alternative(*item),
{
    !item.available || item.files.len() == 0
}

/// Index of the first fetched alternative that qualifies: its fetch
/// succeeded and the item is marked available.
pub fn choose_alternative(results: &Vec<Option<AudioItemMeta>>) -> (r: Option<usize>)
    ensures
        r is Some <==> spec_first_qualifying(results@) >= 0,
        r matches Some(i) ==> i == spec_first_qualifying(results@) && i < results@.len() && (
        results@[i as int] matches Some(item) && item.available),
{
    let mut i: usize = 0;
    while i < results.len()
        invariant
            i <= results@.len(),
            forall|j: int|
                0 <= j < i ==> !(#[trigger] results@[j] matches Some(item) && item.available),
            spec_first_qualifying(results@) >= 0 ==> spec_first_qualifying(results@) >= i,
        decreases results@.len() - i,
    {
        match &results[i] {
            Some(item) => {
                if item.available {
                    proof {
                        lemma_qualifying_first(results@, i as int);
                    }
                    return Some(i);
                }
            },
            None => {},
        }
        i = i + 1;
        proof {
            if spec_first_qualifying(results@) >= 0 {
                lemma_qualifying_bound(results@, i as int);
            }
        }
    }
    proof {
        lemma_qualifying_none(results@);
    }
    None
}

proof fn lemma_qualifying_first(results: Seq<Option<AudioItemMeta>>, i: int)
    requires
        0 <= i < results.len(),
        results[i] matches Some(item) && item.available,
        forall|j: int| 0 <= j < i ==> !(#[trigger] results[j] matches Some(item) && item.available),
    ensures
        spec_first_qualifying(results) == i,
    decreases results.len(),
{
    if i > 0 {
        lemma_qualifying_first(results.drop_first(), i - 1);
    }
}

proof fn lemma_qualifying_bound(results: Seq<Option<AudioItemMeta>>, i: int)
    requires
        0 <= i <= results.len(),
        forall|j: int| 0 <= j < i ==> !(#[trigger] results[j] matches Some(item) && item.available),
        spec_first_qualifying(results) >= 0,
    ensures
        spec_first_qualifying(results) >= i,
    decreases i,
{
    if i > 0 {
        lemma_qualifying_bound(results.drop_first(), i - 1);
    }
}

proof fn lemma_qualifying_none(results: Seq<Option<AudioItemMeta>>)
    requires
        forall|j: int| 0 <= j < results.len() ==> !(#[trigger] results[j] matches Some(item) && item.available),
    ensures
        spec_first_qualifying(results) < 0,
    decreases results.len(),
{
    if results.len() > 0 {
        lemma_qualifying_none(results.drop_first());
    }
}

/// Resolve a playable rendition from the primary item and the fetched
/// alternatives: pick the item `spec_choice` names, then the first
/// format of the preference order present in its file map, with the
/// header offset that format demands.  Fails with `Unplayable` when no
/// item qualifies and with `NoPlayableFormat` when the chosen item
/// offers none of the preferred encodings.
pub fn resolve_item(primary: &AudioItemMeta, results: &Vec<Option<AudioItemMeta>>) -> (r: Result<
    ResolvedTrack,
    AudioError,
>)
    ensures
        r is Ok <==> (spec_choice(*primary, results@) matches Some(c) && spec_selected_format(
            c.files@,
        ) is Some),
        r matches Ok(t) ==> (spec_choice(*primary, results@) matches Some(c)
            && spec_selected_format(c.files@) == Some(t.format) && t.content_id@ == c.files@[
            spec_format_index(c.files@, t.format)
        ].1@ && t.container_header_len == spec_header_len(t.format)),
        r matches Err(e) ==> e == (if spec_choice(*primary, results@) is None {
            AudioError::Unplayable
        } else {
            AudioError::NoPlayableFormat
        }),
{
    let use_primary: bool = if !needs_alternative(primary) {
        true
    } else if primary.alternatives.is_some() {
        false
    } else if primary.available {
        true
    } else {
        return Err(AudioError::Unplayable);
    };
    let chosen: &AudioItemMeta = if use_primary {
        primary
    } else {
        match choose_alternative(results) {
            Some(i) => {
                match &results[i] {
                    Some(item) => item,
                    None => {
                        proof {
                            assert(false);
                        }
                        primary
                    },
                }
            },
            None => {
                return Err(AudioError::Unplayable);
            },
        }
    };
    match select_format(&chosen.files) {
        Some((format, content_id)) => {
            let header = container_header_len(format);
            Ok(ResolvedTrack { format, content_id, container_header_len: header })
        },
        None => Err(AudioError::NoPlayableFormat),
    }
}

} // verus!
