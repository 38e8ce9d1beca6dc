//! Splits as files: how they are uploaded, fetched, cached and hashed.

use vstd::prelude::*;
use vstd::utf8::encode_utf8;

use crate::numbers::{decimal, decimal_text, padded, padded_text};
use crate::store::version::{bare_path, is_object_path, parse_path, path_complaint};
use crate::text::{
    chars_of, ends_with, has_suffix, quoted, quoted_text, same_text, split_all, split_on,
    strip_prefix, text_of, texts, without_prefix,
};
use crate::trim::{trim, trim_start, trimmed, without_start, CharClass};

verus! {

/// The prefix of a split without slashes around it; it must not be empty.
pub fn split_base(prefix: &str) -> (base: Result<String, String>)
    ensures
        match base {
            Ok(b) => b@ == trimmed(prefix@, CharClass::Char('/')) && b@.len() > 0,
            Err(why) => trimmed(prefix@, CharClass::Char('/')).len() == 0 && why@
                == "split prefix must not be empty"@,
        },
{
    let base: String = trim(prefix, CharClass::Char('/'));
    if base.as_str().is_empty() {
        Err("split prefix must not be empty".to_owned())
    } else {
        Ok(base)
    }
}

/// Whether a file belongs to a split. Lock files are local to a process and would only
/// confuse a reader elsewhere.
pub fn belongs_to_split(file_name: &str) -> (kept: bool)
    ensures
        kept == !has_suffix(file_name@, ".lock"@),
{
    !ends_with(file_name, ".lock")
}

/// A path inside a directory, with slashes throughout.
pub open spec fn slashed(path: Seq<char>) -> Seq<char> {
    Seq::new(
        path.len(),
        |i: int|
            if path[i] == '\\' {
                '/'
            } else {
                path[i]
            },
    )
}

/// A path inside a directory, with slashes throughout.
pub fn with_slashes(path: &str) -> (made: String)
    ensures
        made@ == slashed(path@),
{
    let chars: Vec<char> = chars_of(path);
    let mut made: String = String::new();
    let mut i: usize = 0;
    assert(slashed(path@).take(0) =~= Seq::empty());
    while i < chars.len()
        invariant
            chars@ == path@,
            i <= chars@.len(),
            made@ == slashed(path@).take(i as int),
        decreases chars@.len() - i,
    {
        assert(slashed(path@).take(i + 1) =~= slashed(path@).take(i as int).push(
            slashed(path@)[i as int],
        ));
        made.push(
            if chars[i] == '\\' {
                '/'
            } else {
                chars[i]
            },
        );
        i += 1;
    }
    assert(slashed(path@).take(i as int) =~= slashed(path@));
    made
}

/// The key that a file of a split is uploaded under.
pub fn file_key(base: &str, relative: &str) -> (key: String)
    ensures
        key@ == base@ + "/"@ + slashed(relative@),
{
    let mut key: String = base.to_owned();
    key.append("/");
    key.append(with_slashes(relative).as_str());
    key
}

/// The path of the object that a file of a split is uploaded to.
pub fn file_path(base: &str, relative: &str) -> (path: Result<String, String>)
    ensures
        ({
            let key = base@ + "/"@ + slashed(relative@);
            match path {
                Ok(text) => is_object_path(key) && text@ == bare_path(key),
                Err(why) => !is_object_path(key) && why@ == "parsing key "@ + key + ": "@
                    + path_complaint(key),
            }
        }),
{
    let key: String = file_key(base, relative);
    match parse_path(key.as_str()) {
        Ok(text) => Ok(text),
        Err(what) => {
            let mut why: String = "parsing key ".to_owned();
            why.append(key.as_str());
            why.append(": ");
            why.append(what.as_str());
            Err(why)
        },
    }
}

/// The path under which the objects of a split are listed.
pub fn split_root(base: &str) -> (path: Result<String, String>)
    ensures
        match path {
            Ok(text) => is_object_path(base@) && text@ == bare_path(base@),
            Err(why) => !is_object_path(base@) && why@ == "parsing split prefix: "@
                + path_complaint(base@),
        },
{
    match parse_path(base) {
        Ok(text) => Ok(text),
        Err(what) => {
            let mut why: String = "parsing split prefix: ".to_owned();
            why.append(what.as_str());
            Err(why)
        },
    }
}

/// The path of an object inside its split.
pub open spec fn inside(base: Seq<char>, full: Seq<char>) -> Seq<char> {
    without_start(
        match without_prefix(full, base) {
            Some(rest) => rest,
            None => full,
        },
        CharClass::Char('/'),
    )
}

/// Whether a path leads up out of the directory it is taken in.
pub open spec fn leads_up(path: Seq<char>) -> bool {
    split_all(path, '/').contains(".."@)
}

/// The path under which an object of a split is written. One that leads out of the
/// directory is refused.
pub fn target_path(base: &str, full: &str) -> (path: Result<String, String>)
    ensures
        match path {
            Ok(p) => p@ == inside(base@, full@) && !leads_up(p@),
            Err(why) => leads_up(inside(base@, full@)) && why@ == "refusing unsafe split path "@
                + quoted(inside(base@, full@)),
        },
{
    let rest: String = match strip_prefix(full, base) {
        Some(rest) => rest,
        None => full.to_owned(),
    };
    let path: String = trim_start(rest.as_str(), CharClass::Char('/'));
    let parts: Vec<String> = split_on(path.as_str(), '/');
    let mut i: usize = 0;
    while i < parts.len()
        invariant
            texts(parts@) == split_all(path@, '/'),
            path@ == inside(base@, full@),
            i <= parts@.len(),
            forall|j: int| 0 <= j < i ==> (#[trigger] texts(parts@)[j]) != ".."@,
        decreases parts@.len() - i,
    {
        if same_text(parts[i].as_str(), "..") {
            assert(texts(parts@)[i as int] == ".."@);
            let mut why: String = "refusing unsafe split path ".to_owned();
            why.append(quoted_text(path.as_str()).as_str());
            return Err(why);
        }
        i += 1;
    }
    Ok(path)
}

/// Whether a file of a split is a container that has to be unpacked.
pub fn is_container(path: &str) -> (found: bool)
    ensures
        found == has_suffix(path@, ".split"@),
{
    ends_with(path, ".split")
}

/// How many files a fetched split has; none is an error.
pub fn fetched(base: &str, count: usize) -> (files: Result<usize, String>)
    ensures
        match files {
            Ok(n) => n == count && count > 0,
            Err(why) => count == 0 && why@ == "no index files found under "@ + quoted(base@),
        },
{
    if count == 0 {
        let mut why: String = "no index files found under ".to_owned();
        why.append(quoted_text(base).as_str());
        Err(why)
    } else {
        Ok(count)
    }
}

// ---- Identity ----------------------------------------------------------------------------------

/// A file of a split: its path and its bytes.
#[derive(Debug)]
pub struct SplitFile {
    /// Path inside the split.
    pub path: String,
    /// Contents.
    pub bytes: Vec<u8>,
}

/// What the hash of a split is taken of: each path and its contents, in order, with a mark
/// behind both.
pub open spec fn framed(files: Seq<SplitFile>) -> Seq<u8>
    decreases files.len(),
{
    if files.len() == 0 {
        Seq::empty()
    } else {
        let file = files.last();
        ((framed(files.drop_last()) + encode_utf8(slashed(file.path@))).push(0u8)
            + file.bytes@).push(0xffu8)
    }
}

/// Appends bytes.
fn extend(out: &mut Vec<u8>, more: &Vec<u8>)
    ensures
        final(out)@ == old(out)@ + more@,
{
    let ghost before = out@;
    let mut i: usize = 0;
    assert(before + more@.take(0) =~= before);
    while i < more.len()
        invariant
            i <= more@.len(),
            out@ == before + more@.take(i as int),
        decreases more@.len() - i,
    {
        out.push(more[i]);
        assert(before + more@.take(i + 1) =~= (before + more@.take(i as int)).push(
            more@[i as int],
        ));
        i += 1;
    }
    assert(more@.take(i as int) =~= more@);
}

/// What the hash of a split is taken of.
pub fn hash_material(files: &Vec<SplitFile>) -> (bytes: Vec<u8>)
    ensures
        bytes@ == framed(files@),
{
    let mut bytes: Vec<u8> = Vec::new();
    let mut i: usize = 0;
    assert(files@.take(0) =~= Seq::empty());
    while i < files.len()
        invariant
            i <= files@.len(),
            bytes@ == framed(files@.take(i as int)),
        decreases files@.len() - i,
    {
        assert(files@.take(i + 1).drop_last() =~= files@.take(i as int));
        let path: String = with_slashes(files[i].path.as_str());
        let path_bytes: Vec<u8> = path.as_str().as_bytes_vec();
        extend(&mut bytes, &path_bytes);
        bytes.push(0);
        extend(&mut bytes, &files[i].bytes);
        bytes.push(0xff);
        i += 1;
    }
    assert(files@.take(i as int) =~= files@);
    bytes
}

/// File in which a split names the embedder of its vectors.
pub const SPLIT_IDENTITY_FILE: &'static str = "embedding-identity.json";

// ---- The cache ---------------------------------------------------------------------------------

/// Name of the file that marks a cached split as complete.
pub const CACHE_MARKER: &'static str = ".qm-cache-complete";

/// How many characters of the hash name a cached split.
pub const CACHE_KEY_CHARS: usize = 24;

/// The first characters of a hash.
pub open spec fn cache_key(content_hash: Seq<char>) -> Seq<char> {
    if content_hash.len() > CACHE_KEY_CHARS {
        content_hash.take(CACHE_KEY_CHARS as int)
    } else {
        content_hash
    }
}

/// The directory of a cached split. The name is its hash, so a split that is there need not
/// be fetched.
pub fn cache_dir(content_hash: &str) -> (name: String)
    ensures
        name@ == "split-"@ + cache_key(content_hash@),
{
    let chars: Vec<char> = chars_of(content_hash);
    let mut name: String = "split-".to_owned();
    let end: usize = if chars.len() > CACHE_KEY_CHARS {
        CACHE_KEY_CHARS
    } else {
        chars.len()
    };
    let key: String = text_of(&chars, 0, end);
    assert(key@ =~= cache_key(content_hash@));
    name.append(key.as_str());
    name
}

/// The directory in which a split is put together before it is moved into place.
pub fn staging_dir(process: u32, index: usize, nanos: u64) -> (name: String)
    ensures
        name@ == ".staging-"@ + decimal(process as nat) + "-"@ + decimal(index as nat) + "-"@
            + decimal(nanos as nat),
{
    let mut name: String = ".staging-".to_owned();
    name.append(decimal_text(process as u64).as_str());
    name.append("-");
    name.append(decimal_text(index as u64).as_str());
    name.append("-");
    name.append(decimal_text(nanos).as_str());
    name
}

/// The directory of a split that is not cached, by its place among those fetched.
pub fn numbered_dir(index: usize) -> (name: String)
    ensures
        name@ == "split-"@ + padded(index as nat, 4),
{
    let mut name: String = "split-".to_owned();
    name.append(padded_text(index as u64, 4).as_str());
    name
}

/// What to do after a fetched split was moved into place.
#[derive(Debug, Clone, Copy, PartialEq, Eq, Structural)]
pub enum Placed {
    /// It is there.
    Use,
    /// Another process was first: drop our copy and use theirs.
    UseOther,
    /// Drop our copy and fail.
    Fail,
}

/// What to do after a fetched split was moved into place, or not; `complete` says whether a
/// complete one is there.
pub fn after_move(moved: bool, complete: bool) -> (next: Placed)
    ensures
        next == (if moved {
            Placed::Use
        } else if complete {
            Placed::UseOther
        } else {
            Placed::Fail
        }),
{
    if moved {
        Placed::Use
    } else if complete {
        Placed::UseOther
    } else {
        Placed::Fail
    }
}

// ---- Fields ------------------------------------------------------------------------------------

/// A field of the schema of a split.
#[derive(Debug)]
pub struct FieldFact {
    /// Name.
    pub name: String,
    /// Whether it can be searched.
    pub indexed: bool,
    /// Whether it is kept as a column.
    pub fast: bool,
    /// Whether its values are kept.
    pub stored: bool,
}

/// The place of the field with a name, or the number of fields.
pub open spec fn field_at(fields: Seq<FieldFact>, name: Seq<char>, from: int) -> int
    decreases fields.len() - from,
{
    if 0 <= from < fields.len() && fields[from].name@ != name {
        field_at(fields, name, from + 1)
    } else {
        from
    }
}

/// The places of those named fields that a schema has.
pub open spec fn named_fields(fields: Seq<FieldFact>, names: Seq<&'static str>) -> Seq<usize>
    decreases names.len(),
{
    if names.len() == 0 {
        Seq::empty()
    } else {
        let at = field_at(fields, names.last()@, 0);
        let before = named_fields(fields, names.drop_last());
        if at < fields.len() {
            before.push(at as usize)
        } else {
            before
        }
    }
}

/// The places of the text fields of a schema: what is indexed and no column, up to `n`.
pub open spec fn text_fields(fields: Seq<FieldFact>, n: int) -> Seq<usize>
    decreases n,
{
    if n <= 0 {
        Seq::empty()
    } else if fields[n - 1].indexed && !fields[n - 1].fast {
        text_fields(fields, n - 1).push((n - 1) as usize)
    } else {
        text_fields(fields, n - 1)
    }
}

/// The place of the field with a name, or the number of fields.
pub fn find_field(fields: &Vec<FieldFact>, name: &str) -> (at: usize)
    ensures
        at == field_at(fields@, name@, 0),
        at <= fields@.len(),
{
    let mut i: usize = 0;
    while i < fields.len()
        invariant
            i <= fields@.len(),
            field_at(fields@, name@, 0) == field_at(fields@, name@, i as int),
        decreases fields@.len() - i,
    {
        if same_text(fields[i].name.as_str(), name) {
            return i;
        }
        i += 1;
    }
    i
}

/// The fields that a stream searches: those it names, as far as the split has them; in a
/// split of another indexer that has none of them, its own text fields.
pub fn choose_fields(fields: &Vec<FieldFact>, names: &Vec<&'static str>) -> (chosen: Result<
    Vec<usize>,
    String,
>)
    ensures
        ({
            let named = named_fields(fields@, names@);
            let own = text_fields(fields@, fields@.len() as int);
            match chosen {
                Ok(list) => list@.len() > 0 && list@ == (if named.len() > 0 {
                    named
                } else {
                    own
                }),
                Err(why) => named.len() == 0 && own.len() == 0 && why@
                    == "split has no indexed fields to search"@,
            }
        }),
{
    let mut list: Vec<usize> = Vec::new();
    let mut i: usize = 0;
    assert(names@.take(0) =~= Seq::empty());
    while i < names.len()
        invariant
            i <= names@.len(),
            list@ == named_fields(fields@, names@.take(i as int)),
        decreases names@.len() - i,
    {
        assert(names@.take(i + 1).drop_last() =~= names@.take(i as int));
        let at: usize = find_field(fields, names[i]);
        if at < fields.len() {
            list.push(at);
        }
        i += 1;
    }
    assert(names@.take(i as int) =~= names@);
    if list.len() > 0 {
        return Ok(list);
    }
    let mut own: Vec<usize> = Vec::new();
    let mut j: usize = 0;
    while j < fields.len()
        invariant
            j <= fields@.len(),
            own@ == text_fields(fields@, j as int),
        decreases fields@.len() - j,
    {
        if fields[j].indexed && !fields[j].fast {
            own.push(j);
        }
        j += 1;
    }
    if own.len() == 0 {
        return Err("split has no indexed fields to search".to_owned());
    }
    Ok(own)
}

/// The first field at or after `from` whose values are kept, or the number of fields.
pub open spec fn stored_at(fields: Seq<FieldFact>, from: int) -> int
    decreases fields.len() - from,
{
    if 0 <= from < fields.len() && !fields[from].stored {
        stored_at(fields, from + 1)
    } else {
        from
    }
}

/// The first field whose values are kept: it stands in for a title where a split has none,
/// so that a hit can still be told.
pub fn title_fallback(fields: &Vec<FieldFact>) -> (at: Option<usize>)
    ensures
        match at {
            Some(i) => i == stored_at(fields@, 0) && i < fields@.len(),
            None => stored_at(fields@, 0) >= fields@.len(),
        },
{
    let mut i: usize = 0;
    while i < fields.len()
        invariant
            i <= fields@.len(),
            stored_at(fields@, 0) == stored_at(fields@, i as int),
        decreases fields@.len() - i,
    {
        if fields[i].stored {
            return Some(i);
        }
        i += 1;
    }
    None
}

// ---- Laws --------------------------------------------------------------------------------------

/// A split that is uploaded and fetched keeps its files where they were: the key of a file
/// leads back to its path.
pub proof fn law_a_file_is_fetched_where_it_was(base: Seq<char>, path: Seq<char>)
    requires
        path.len() > 0,
        path[0] != '/',
        path[0] != '\\',
    ensures
        inside(base, base + "/"@ + slashed(path)) == slashed(path),
{
    reveal_strlit("/");
    let full = base + "/"@ + slashed(path);
    assert(full.take(base.len() as int) =~= base);
    let rest = full.skip(base.len() as int);
    assert(rest =~= "/"@ + slashed(path));
    assert(rest.skip(1) =~= slashed(path));
    assert(rest[0] == '/');
    assert(slashed(path)[0] == path[0]);
    crate::trim::lemma_start_stays(slashed(path), CharClass::Char('/'));
}

} // verus!
