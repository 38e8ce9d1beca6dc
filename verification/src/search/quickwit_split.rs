//! Reader for Quickwit's `.split` container.
//!
//! A split is one file that holds a small static filesystem: the bytes of its files one
//! behind the other, the file metadata (a header of eight bytes and a JSON map from names
//! to offsets), the length of that, the hotcache, and the length of that. Any machine can
//! so read a split without a cluster. The hotcache is skipped, and no offset is believed
//! before it has been checked.

use vstd::prelude::*;

use crate::little_endian::{lemma_bases, lemma_value_bound, read, value};
use crate::numbers::{decimal, decimal_text};
use crate::sort::{sort, stable_sorted};
use crate::text::{contains_char, quoted, quoted_text, same_text};

verus! {

/// Number that the file metadata starts with.
pub const FILE_METADATA_MAGIC: u32 = 403_881_646;

/// Version of the header of the file metadata.
pub const FILE_METADATA_VERSION: u32 = 1;

/// Bytes of each length.
pub const FOOTER_LENGTH_BYTES: usize = 8;

/// Bytes of the header of the file metadata.
pub const COMPONENT_HEADER_BYTES: usize = 8;

/// Where a split keeps its map of offsets.
#[derive(Debug, Clone, Copy, PartialEq, Eq, Structural)]
pub struct Footer {
    /// First byte of the JSON map.
    pub map_start: usize,
    /// First byte behind it.
    pub map_end: usize,
    /// Bytes of the hotcache.
    pub hotcache_bytes: usize,
}

/// Why bytes are no split.
#[derive(Debug, Clone, Copy, PartialEq, Eq, Structural)]
pub enum FooterError {
    /// There are too few bytes.
    TooSmall(usize),
    /// A length does not fit into memory.
    LengthTooLarge,
    /// The hotcache would be longer than the file.
    HotcacheExceedsFile(usize),
    /// The hotcache leaves no room for file metadata.
    NoRoomForMetadata(usize),
    /// The file metadata would be longer than the file.
    MetadataExceedsFile(usize),
    /// The file metadata is shorter than its header.
    MetadataTruncated,
    /// The file metadata starts with another number.
    WrongMagic(u32),
    /// The header is of another version.
    WrongVersion(u32),
}

/// What is said of a footer that is none.
pub open spec fn footer_message(error: FooterError) -> Seq<char> {
    match error {
        FooterError::TooSmall(n) => "file is too small to be a split ("@ + decimal(n as nat)
            + " bytes)"@,
        FooterError::LengthTooLarge => "footer length does not fit in usize"@,
        FooterError::HotcacheExceedsFile(n) => "hotcache length "@ + decimal(n as nat)
            + " exceeds the file"@,
        FooterError::NoRoomForMetadata(n) => "hotcache length "@ + decimal(n as nat)
            + " leaves no room for file metadata"@,
        FooterError::MetadataExceedsFile(n) => "metadata length "@ + decimal(n as nat)
            + " exceeds the file"@,
        FooterError::MetadataTruncated => "file metadata is truncated"@,
        FooterError::WrongMagic(n) => "not a quickwit split: metadata magic "@ + decimal(n as nat)
            + " != "@ + decimal(FILE_METADATA_MAGIC as nat),
        FooterError::WrongVersion(n) => "unsupported split metadata version "@ + decimal(
            n as nat,
        ),
    }
}

impl FooterError {
    /// What is said of a footer that is none.
    pub fn message(&self) -> (text: String)
        ensures
            text@ == footer_message(*self),
    {
        let mut text: String = String::new();
        match self {
            FooterError::TooSmall(n) => {
                text = "file is too small to be a split (".to_owned();
                text.append(decimal_text(*n as u64).as_str());
                text.append(" bytes)");
            },
            FooterError::LengthTooLarge => {
                text = "footer length does not fit in usize".to_owned();
            },
            FooterError::HotcacheExceedsFile(n) => {
                text = "hotcache length ".to_owned();
                text.append(decimal_text(*n as u64).as_str());
                text.append(" exceeds the file");
            },
            FooterError::NoRoomForMetadata(n) => {
                text = "hotcache length ".to_owned();
                text.append(decimal_text(*n as u64).as_str());
                text.append(" leaves no room for file metadata");
            },
            FooterError::MetadataExceedsFile(n) => {
                text = "metadata length ".to_owned();
                text.append(decimal_text(*n as u64).as_str());
                text.append(" exceeds the file");
            },
            FooterError::MetadataTruncated => {
                text = "file metadata is truncated".to_owned();
            },
            FooterError::WrongMagic(n) => {
                text = "not a quickwit split: metadata magic ".to_owned();
                text.append(decimal_text(*n as u64).as_str());
                text.append(" != ");
                text.append(decimal_text(FILE_METADATA_MAGIC as u64).as_str());
            },
            FooterError::WrongVersion(n) => {
                text = "unsupported split metadata version ".to_owned();
                text.append(decimal_text(*n as u64).as_str());
            },
        }
        text
    }
}

/// The number that the `n` bytes at `at` spell.
pub open spec fn number_at(bytes: Seq<u8>, at: int, n: int) -> nat {
    value(bytes.subrange(at, at + n))
}

/// The footer of a split, read from its end: the length of the hotcache, the length of
/// the file metadata before it, and the header of that.
pub open spec fn footer_in(bytes: Seq<u8>) -> Result<Footer, FooterError> {
    let len = bytes.len() as int;
    if len < 24 {
        Err(FooterError::TooSmall(len as usize))
    } else {
        let hotcache = number_at(bytes, len - 8, 8) as int;
        let behind = len - 8 - hotcache;
        if hotcache > usize::MAX {
            Err(FooterError::LengthTooLarge)
        } else if behind < 0 {
            Err(FooterError::HotcacheExceedsFile(hotcache as usize))
        } else if behind < 16 {
            Err(FooterError::NoRoomForMetadata(hotcache as usize))
        } else {
            let length = number_at(bytes, behind - 8, 8) as int;
            let start = behind - 8 - length;
            if length > usize::MAX {
                Err(FooterError::LengthTooLarge)
            } else if start < 0 {
                Err(FooterError::MetadataExceedsFile(length as usize))
            } else if length < 8 {
                Err(FooterError::MetadataTruncated)
            } else if number_at(bytes, start, 4) != FILE_METADATA_MAGIC {
                Err(FooterError::WrongMagic(number_at(bytes, start, 4) as u32))
            } else if number_at(bytes, start + 4, 4) != FILE_METADATA_VERSION {
                Err(FooterError::WrongVersion(number_at(bytes, start + 4, 4) as u32))
            } else {
                Ok(
                    Footer {
                        map_start: (start + 8) as usize,
                        map_end: (behind - 8) as usize,
                        hotcache_bytes: hotcache as usize,
                    },
                )
            }
        }
    }
}

fn read_u32(bytes: &[u8], at: usize) -> (number: u32)
    requires
        at + 4 <= bytes@.len(),
    ensures
        number as nat == number_at(bytes@, at as int, 4),
{
    proof {
        lemma_value_bound(bytes@.subrange(at as int, at + 4));
        lemma_bases();
    }
    read(bytes, at, 4) as u32
}

/// Reads the footer of a split.
pub fn parse_footer(bytes: &[u8]) -> (footer: Result<Footer, FooterError>)
    ensures
        footer == footer_in(bytes@),
{
    let len: usize = bytes.len();
    if len < 2 * FOOTER_LENGTH_BYTES + COMPONENT_HEADER_BYTES {
        return Err(FooterError::TooSmall(len));
    }
    let stated: u64 = read(bytes, len - FOOTER_LENGTH_BYTES, FOOTER_LENGTH_BYTES);
    if stated > usize::MAX as u64 {
        return Err(FooterError::LengthTooLarge);
    }
    let hotcache_bytes: usize = stated as usize;
    if hotcache_bytes > len - FOOTER_LENGTH_BYTES {
        return Err(FooterError::HotcacheExceedsFile(hotcache_bytes));
    }
    let behind: usize = len - FOOTER_LENGTH_BYTES - hotcache_bytes;
    if behind < FOOTER_LENGTH_BYTES + COMPONENT_HEADER_BYTES {
        return Err(FooterError::NoRoomForMetadata(hotcache_bytes));
    }
    let said: u64 = read(bytes, behind - FOOTER_LENGTH_BYTES, FOOTER_LENGTH_BYTES);
    if said > usize::MAX as u64 {
        return Err(FooterError::LengthTooLarge);
    }
    let length: usize = said as usize;
    let map_end: usize = behind - FOOTER_LENGTH_BYTES;
    if length > map_end {
        return Err(FooterError::MetadataExceedsFile(length));
    }
    if length < COMPONENT_HEADER_BYTES {
        return Err(FooterError::MetadataTruncated);
    }
    let start: usize = map_end - length;
    let magic: u32 = read_u32(bytes, start);
    if magic != FILE_METADATA_MAGIC {
        return Err(FooterError::WrongMagic(magic));
    }
    let version: u32 = read_u32(bytes, start + 4);
    if version != FILE_METADATA_VERSION {
        return Err(FooterError::WrongVersion(version));
    }
    Ok(Footer { map_start: start + COMPONENT_HEADER_BYTES, map_end, hotcache_bytes })
}

/// Where a file of a split lies.
#[derive(Debug, Clone, Copy, PartialEq, Eq, Structural)]
pub struct Offsets {
    /// First byte.
    pub start: u64,
    /// First byte behind it.
    pub end: u64,
}

/// The map of offsets: the files of a split by name, each name once.
#[derive(Debug)]
pub struct FileMetadata {
    /// Files, in no order that matters.
    pub files: Vec<(String, Offsets)>,
}

/// Whether bytes are a split: they have a footer, and what stands where it says the map
/// of offsets is was read as one.
pub fn is_split(bytes: &[u8], map: &Option<FileMetadata>) -> (found: bool)
    ensures
        found == (footer_in(bytes@) is Ok && map is Some),
{
    parse_footer(bytes).is_ok() && map.is_some()
}

/// What one extraction produced.
#[derive(Debug)]
pub struct ExtractReport {
    /// Files that were written, sorted.
    pub files: Vec<String>,
    /// Size of the hotcache that was skipped.
    pub hotcache_bytes: usize,
}

/// Whether a name is that of a plain file: nothing that could lead out of the directory
/// it is written to.
pub open spec fn plain_name(name: Seq<char>) -> bool {
    &&& name.len() > 0
    &&& !name.contains('/')
    &&& !name.contains('\\')
    &&& name != "."@
    &&& name != ".."@
}

/// Whether a range lies within a file of so many bytes.
pub open spec fn in_range(offsets: Offsets, len: nat) -> bool {
    offsets.start <= offsets.end <= len
}

/// What is said of a file that is not extracted.
pub open spec fn refusal(name: Seq<char>, offsets: Offsets, len: nat) -> Seq<char> {
    if !plain_name(name) {
        "refusing unsafe file name in split metadata: "@ + quoted(name)
    } else if offsets.start > usize::MAX || offsets.end > usize::MAX {
        "offset too large"@
    } else {
        "split metadata range for "@ + quoted(name) + " is "@ + decimal(offsets.start as nat)
            + ".."@ + decimal(offsets.end as nat) + ", file is "@ + decimal(len) + " bytes"@
    }
}

/// The range of a file, when it may be extracted. The name comes from the file that is
/// read, so it is not trusted.
pub fn checked_range(name: &str, offsets: Offsets, len: usize) -> (range: Result<
    (usize, usize),
    String,
>)
    ensures
        match range {
            Ok(r) => plain_name(name@) && in_range(offsets, len as nat) && r.0 == offsets.start
                && r.1 == offsets.end,
            Err(why) => !(plain_name(name@) && in_range(offsets, len as nat)) && why@ == refusal(
                name@,
                offsets,
                len as nat,
            ),
        },
{
    if name.is_empty() || contains_char(name, '/') || contains_char(name, '\\') || same_text(
        name,
        ".",
    ) || same_text(name, "..") {
        let mut why: String = "refusing unsafe file name in split metadata: ".to_owned();
        why.append(quoted_text(name).as_str());
        return Err(why);
    }
    if offsets.start > usize::MAX as u64 || offsets.end > usize::MAX as u64 {
        return Err("offset too large".to_owned());
    }
    if offsets.start > offsets.end || offsets.end > len as u64 {
        let mut why: String = "split metadata range for ".to_owned();
        why.append(quoted_text(name).as_str());
        why.append(" is ");
        why.append(decimal_text(offsets.start).as_str());
        why.append("..");
        why.append(decimal_text(offsets.end).as_str());
        why.append(", file is ");
        why.append(decimal_text(len as u64).as_str());
        why.append(" bytes");
        return Err(why);
    }
    Ok((offsets.start as usize, offsets.end as usize))
}

/// Whether a file of a map may be extracted.
pub open spec fn extractable(file: (String, Offsets), len: nat) -> bool {
    plain_name(file.0@) && in_range(file.1, len)
}

/// How many files of a map may be extracted before one that may not.
pub open spec fn good_files(files: Seq<(String, Offsets)>, len: nat, from: int) -> int
    decreases files.len() - from,
{
    if 0 <= from < files.len() && extractable(files[from], len) {
        good_files(files, len, from + 1)
    } else {
        from
    }
}

/// What is written for a file: its name and its bytes.
pub open spec fn is_cut(piece: (String, Vec<u8>), file: (String, Offsets), bytes: Seq<u8>) -> bool {
    &&& piece.0@ == file.0@
    &&& piece.1@ == bytes.subrange(file.1.start as int, file.1.end as int)
}

/// Cuts the bytes of a range.
fn cut(bytes: &[u8], from: usize, to: usize) -> (piece: Vec<u8>)
    requires
        from <= to <= bytes@.len(),
    ensures
        piece@ == bytes@.subrange(from as int, to as int),
{
    let mut piece: Vec<u8> = Vec::new();
    let mut i: usize = from;
    while i < to
        invariant
            from <= i <= to <= bytes@.len(),
            piece@ == bytes@.subrange(from as int, i as int),
        decreases to - i,
    {
        assert(bytes@.subrange(from as int, i + 1) =~= bytes@.subrange(from as int, i as int).push(
            bytes@[i as int],
        ));
        piece.push(bytes[i]);
        i += 1;
    }
    piece
}

/// The names of the first files of a map.
pub open spec fn names_of(files: Seq<(String, Offsets)>) -> Seq<String> {
    Seq::new(files.len(), |i: int| files[i].0)
}

/// Extracts the files of a split: what is to be written, file by file, and the report.
/// The first file that may not be extracted ends it with an error, after what came before
/// it.
pub fn extract_split(bytes: &[u8], footer: &Footer, map: &FileMetadata) -> (extracted: (
    Vec<(String, Vec<u8>)>,
    Result<ExtractReport, String>,
))
    ensures
        ({
            let files = map.files@;
            let good = good_files(files, bytes@.len(), 0);
            &&& extracted.0@.len() == good
            &&& forall|i: int|
                0 <= i < good ==> is_cut(#[trigger] extracted.0@[i], files[i], bytes@)
            &&& match extracted.1 {
                Ok(report) => good == files.len() && report.files@ == stable_sorted(
                    names_of(files),
                ) && report.hotcache_bytes == footer.hotcache_bytes,
                Err(why) => good < files.len() && why@ == refusal(
                    files[good].0@,
                    files[good].1,
                    bytes@.len(),
                ),
            }
        }),
{
    let ghost files = map.files@;
    let mut pieces: Vec<(String, Vec<u8>)> = Vec::new();
    let mut names: Vec<String> = Vec::new();
    let mut i: usize = 0;
    while i < map.files.len()
        invariant
            files == map.files@,
            i <= files.len(),
            good_files(files, bytes@.len(), 0) == good_files(files, bytes@.len(), i as int),
            pieces@.len() == i,
            forall|j: int| 0 <= j < i ==> is_cut(#[trigger] pieces@[j], files[j], bytes@),
            names@ == names_of(files).take(i as int),
        decreases files.len() - i,
    {
        let name: &String = &map.files[i].0;
        let offsets: Offsets = map.files[i].1;
        match checked_range(name.as_str(), offsets, bytes.len()) {
            Ok(range) => {
                assert(extractable(files[i as int], bytes@.len()));
                let ghost before = pieces@;
                pieces.push((name.clone(), cut(bytes, range.0, range.1)));
                names.push(name.clone());
                assert(is_cut(pieces@[i as int], files[i as int], bytes@));
                assert(names@ =~= names_of(files).take(i + 1));
            },
            Err(why) => {
                return (pieces, Err(why));
            },
        }
        i += 1;
    }
    assert(names@ =~= names_of(files));
    let report = ExtractReport { files: sort(names), hotcache_bytes: footer.hotcache_bytes };
    (pieces, Ok(report))
}

// ---- Laws --------------------------------------------------------------------------------------

/// What a footer says lies within the file, in this order: the map of offsets, its
/// length, the hotcache and its length; the header stands before the map.
pub proof fn law_a_footer_lies_within_the_file(bytes: Seq<u8>)
    requires
        footer_in(bytes) is Ok,
        bytes.len() <= usize::MAX,
    ensures
        ({
            let footer = footer_in(bytes)->Ok_0;
            &&& 8 <= footer.map_start <= footer.map_end
            &&& footer.map_end + 8 + footer.hotcache_bytes + 8 == bytes.len()
            &&& number_at(bytes, footer.map_end as int, 8) == footer.map_end - footer.map_start + 8
        }),
{
}

/// Nothing that an extraction writes can lead out of the directory it is written to, and
/// no byte comes from outside the file.
pub proof fn law_extraction_stays_inside(files: Seq<(String, Offsets)>, len: nat, i: int)
    requires
        0 <= i < good_files(files, len, 0),
    ensures
        i < files.len(),
        plain_name(files[i].0@),
        in_range(files[i].1, len),
{
    lemma_good(files, len, 0);
}

proof fn lemma_good(files: Seq<(String, Offsets)>, len: nat, from: int)
    requires
        0 <= from <= files.len(),
    ensures
        from <= good_files(files, len, from) <= files.len(),
        forall|j: int|
            from <= j < good_files(files, len, from) ==> extractable(#[trigger] files[j], len),
    decreases files.len() - from,
{
    if from < files.len() && extractable(files[from], len) {
        lemma_good(files, len, from + 1);
    }
}

} // verus!
