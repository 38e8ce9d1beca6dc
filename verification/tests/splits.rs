use quick_memory::search::quickwit_split::{
    checked_range, extract_split, is_split, parse_footer, FileMetadata, FooterError, Offsets,
    FILE_METADATA_MAGIC, FILE_METADATA_VERSION,
};
use quick_memory::search::splits::{
    after_move, belongs_to_split, cache_dir, choose_fields, fetched, file_key, hash_material,
    is_container, numbered_dir, split_base, staging_dir, target_path, title_fallback, FieldFact,
    Placed, SplitFile,
};
use serde_json::Value;

/// A container in the documented format.
fn bundle(files: &[(&str, Vec<u8>)]) -> Vec<u8> {
    let mut body = Vec::new();
    let mut offsets = String::from("{\"files\":{");
    for (index, (name, bytes)) in files.iter().enumerate() {
        let start = body.len();
        body.extend_from_slice(bytes);
        if index > 0 {
            offsets.push(',');
        }
        offsets.push_str(&format!(
            "\"{name}\":{{\"start\":{start},\"end\":{}}}",
            body.len()
        ));
    }
    offsets.push_str("}}");

    let mut metadata = Vec::new();
    metadata.extend_from_slice(&FILE_METADATA_MAGIC.to_le_bytes());
    metadata.extend_from_slice(&FILE_METADATA_VERSION.to_le_bytes());
    metadata.extend_from_slice(offsets.as_bytes());

    let mut out = body;
    out.extend_from_slice(&metadata);
    out.extend_from_slice(&(metadata.len() as u64).to_le_bytes());
    let hotcache = b"hotcache-bytes".to_vec();
    out.extend_from_slice(&hotcache);
    out.extend_from_slice(&(hotcache.len() as u64).to_le_bytes());
    out
}

fn offset_map(json: &[u8]) -> Option<FileMetadata> {
    let value: Value = serde_json::from_slice(json).ok()?;
    let mut files = Vec::new();
    for (name, offsets) in value.get("files")?.as_object()? {
        files.push((
            name.clone(),
            Offsets {
                start: offsets.get("start")?.as_u64()?,
                end: offsets.get("end")?.as_u64()?,
            },
        ));
    }
    Some(FileMetadata { files })
}

fn map_of(bytes: &[u8]) -> Option<FileMetadata> {
    let footer = parse_footer(bytes).ok()?;
    offset_map(&bytes[footer.map_start..footer.map_end])
}

#[test]
fn extracts_files_from_a_split_container() {
    let split = bundle(&[
        ("meta.json", b"{\"segments\":[]}".to_vec()),
        ("abc.idx", vec![1, 2, 3, 4]),
    ]);
    let map = map_of(&split);
    assert!(is_split(&split, &map));
    let footer = parse_footer(&split).unwrap();
    let (written, report) = extract_split(&split, &footer, &map.unwrap());
    let report = report.unwrap();
    assert_eq!(report.files, vec!["abc.idx", "meta.json"]);
    assert_eq!(report.hotcache_bytes, "hotcache-bytes".len());
    let find = |name: &str| -> Vec<u8> {
        written.iter().find(|file| file.0 == name).unwrap().1.clone()
    };
    assert_eq!(find("abc.idx"), vec![1, 2, 3, 4]);
    assert_eq!(find("meta.json"), b"{\"segments\":[]}");
}

#[test]
fn rejects_truncated_and_hostile_splits() {
    assert!(!is_split(b"tiny", &map_of(b"tiny")));
    let mut split = bundle(&[("meta.json", b"{}".to_vec())]);
    let len = split.len();
    split.truncate(len / 2);
    assert!(!is_split(&split, &map_of(&split)));

    let hostile = bundle(&[("../escape", b"boom".to_vec())]);
    let footer = parse_footer(&hostile).unwrap();
    let (written, report) = extract_split(&hostile, &footer, &map_of(&hostile).unwrap());
    assert!(report.is_err());
    assert!(written.is_empty());
}

/// A footer: so many bytes of map behind a header, and a hotcache.
fn footer_bytes(magic: u32, version: u32, map: &[u8], map_len: u64, hotcache_len: u64) -> Vec<u8> {
    let mut out = Vec::new();
    out.extend_from_slice(&magic.to_le_bytes());
    out.extend_from_slice(&version.to_le_bytes());
    out.extend_from_slice(map);
    out.extend_from_slice(&map_len.to_le_bytes());
    out.extend_from_slice(&hotcache_len.to_le_bytes());
    out
}

#[test]
fn every_broken_footer_is_told_apart() {
    let why = |bytes: Vec<u8>| parse_footer(&bytes).unwrap_err();
    let magic = FILE_METADATA_MAGIC;
    assert_eq!(why(vec![0; 23]), FooterError::TooSmall(23));
    assert_eq!(why(footer_bytes(magic, 1, b"{}", 10, 19)), FooterError::HotcacheExceedsFile(19));
    assert_eq!(why(footer_bytes(magic, 1, b"{}", 10, 3)), FooterError::NoRoomForMetadata(3));
    assert_eq!(why(footer_bytes(magic, 1, b"{}", 11, 0)), FooterError::MetadataExceedsFile(11));
    assert_eq!(why(footer_bytes(magic, 1, b"{}", 7, 0)), FooterError::MetadataTruncated);
    assert_eq!(why(footer_bytes(5, 1, b"{}", 10, 0)), FooterError::WrongMagic(5));
    assert_eq!(why(footer_bytes(magic, 2, b"{}", 10, 0)), FooterError::WrongVersion(2));
    assert_eq!(
        FooterError::WrongMagic(5).message(),
        "not a quickwit split: metadata magic 5 != 403881646"
    );
    assert_eq!(
        FooterError::TooSmall(23).message(),
        "file is too small to be a split (23 bytes)"
    );
    assert_eq!(
        FooterError::NoRoomForMetadata(3).message(),
        "hotcache length 3 leaves no room for file metadata"
    );
    assert_eq!(
        FooterError::LengthTooLarge.message(),
        "footer length does not fit in usize"
    );
    let footer = parse_footer(&footer_bytes(magic, 1, b"{}", 10, 0)).unwrap();
    assert_eq!((footer.map_start, footer.map_end, footer.hotcache_bytes), (8, 10, 0));
}

#[test]
fn names_and_ranges_are_not_trusted() {
    let range = |name: &str, start: u64, end: u64| checked_range(name, Offsets { start, end }, 10);
    assert_eq!(range("a", 2, 10).unwrap(), (2, 10));
    for name in ["", "a/b", "a\\b", ".", ".."] {
        assert_eq!(
            range(name, 0, 1).unwrap_err(),
            format!("refusing unsafe file name in split metadata: {name:?}")
        );
    }
    assert_eq!(
        range("a", 5, 4).unwrap_err(),
        "split metadata range for \"a\" is 5..4, file is 10 bytes"
    );
    assert_eq!(
        range("a", 5, 11).unwrap_err(),
        "split metadata range for \"a\" is 5..11, file is 10 bytes"
    );
}

#[test]
fn what_came_before_a_refused_file_is_written() {
    let bytes = vec![7u8; 10];
    let map = FileMetadata {
        files: vec![
            ("b".to_string(), Offsets { start: 0, end: 3 }),
            ("a".to_string(), Offsets { start: 9, end: 11 }),
            ("c".to_string(), Offsets { start: 0, end: 1 }),
        ],
    };
    let footer = parse_footer(&footer_bytes(FILE_METADATA_MAGIC, 1, b"", 8, 0)).unwrap();
    let (written, report) = extract_split(&bytes, &footer, &map);
    assert_eq!(written, vec![("b".to_string(), vec![7, 7, 7])]);
    assert!(report.unwrap_err().contains("is 9..11"));
}

#[test]
fn files_keep_their_places() {
    assert_eq!(split_base("/v1/s/").unwrap(), "v1/s");
    assert_eq!(split_base("//").unwrap_err(), "split prefix must not be empty");
    assert!(belongs_to_split("meta.json"));
    assert!(!belongs_to_split(".tantivy-writer.lock"));
    let key = file_key("v1/s", "dir\\a.idx");
    assert_eq!(key, "v1/s/dir/a.idx");
    assert_eq!(target_path("v1/s", &key).unwrap(), "dir/a.idx");
    assert_eq!(target_path("v1/s", "other/x").unwrap(), "other/x");
    assert_eq!(
        target_path("v1/s", "v1/s/../x").unwrap_err(),
        "refusing unsafe split path \"../x\""
    );
    assert!(target_path("v1/s", "v1/s/..x/a..").is_ok());
    assert!(is_container("one.split") && !is_container("one.split.json"));
    assert_eq!(fetched("v1/s", 2).unwrap(), 2);
    assert_eq!(
        fetched("v1/s", 0).unwrap_err(),
        "no index files found under \"v1/s\""
    );
}

#[test]
fn the_material_of_a_hash_has_marks() {
    let files = vec![
        SplitFile { path: "a".to_string(), bytes: vec![1, 2] },
        SplitFile { path: "b\\c".to_string(), bytes: vec![] },
    ];
    assert_eq!(hash_material(&files), b"a\x00\x01\x02\xffb/c\x00\xff");
    assert!(hash_material(&Vec::new()).is_empty());
}

#[test]
fn cached_splits_are_named_by_their_hash() {
    assert_eq!(cache_dir("abc"), "split-abc");
    assert_eq!(
        cache_dir("0123456789abcdef0123456789abcdef"),
        "split-0123456789abcdef01234567"
    );
    assert_eq!(staging_dir(7, 2, 900), ".staging-7-2-900");
    assert_eq!(numbered_dir(3), "split-0003");
    assert_eq!(numbered_dir(12345), "split-12345");
    assert_eq!(after_move(true, false), Placed::Use);
    assert_eq!(after_move(false, true), Placed::UseOther);
    assert_eq!(after_move(false, false), Placed::Fail);
}

#[test]
fn a_stream_searches_what_a_split_has() {
    let field = |name: &str, indexed: bool, fast: bool, stored: bool| FieldFact {
        name: name.to_string(),
        indexed,
        fast,
        stored,
    };
    let own = vec![
        field("path", true, true, true),
        field("title", true, false, true),
        field("body", true, false, false),
    ];
    assert_eq!(choose_fields(&own, &vec!["title", "body"]).unwrap(), [1, 2]);
    assert_eq!(choose_fields(&own, &vec!["body", "absent"]).unwrap(), [2]);
    assert_eq!(choose_fields(&own, &vec!["absent"]).unwrap(), [1, 2]);
    let foreign = vec![field("ts", true, true, false), field("raw", false, false, true)];
    assert_eq!(
        choose_fields(&foreign, &vec!["title"]).unwrap_err(),
        "split has no indexed fields to search"
    );
    assert_eq!(title_fallback(&own), Some(0));
    assert_eq!(title_fallback(&foreign), Some(1));
    assert_eq!(title_fallback(&vec![field("x", true, false, false)]), None);
}
