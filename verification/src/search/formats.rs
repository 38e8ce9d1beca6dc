//! What is stored of documents, vectors and splits, told from their parts.

use vstd::prelude::*;
use vstd::utf8::encode_utf8;

use crate::json::{first_element, member, member_at, Json};
use crate::little_endian::{base, lemma_bases, lemma_value_back, lemma_value_front, spelled, value};
use crate::numbers::decimal;
use crate::search::compile::content_in;
use crate::search::documents::{
    doc_of, first_identity, has_vectors, indexed_texts, joined, model_mismatch, named_embedder,
    with_vectors, DocView, IdentityView,
};
use crate::search::entities::extraction;
use crate::search::quickwit_split::{
    extractable, footer_in, footer_message, good_files, is_cut, plain_name, refusal, Footer,
    FooterError, Offsets,
};
use crate::search::splits::{
    cache_key, field_at, framed, inside, leads_up, named_fields, slashed, stored_at, text_fields,
    FieldFact, SplitFile,
};
use crate::search::vector::{
    all_zero, both_finite, decoded, encoded, first_of, incomparable, is_positive, is_zero,
    positive_ones, readable, Candidate, Stored,
};
use crate::sort::Ranked;
use crate::store::records::PageVersionView;
use crate::text::quoted;

verus! {

// ---- Documents ----------------------------------------------------------------------------

/// A document holds everything of the version it is made of, and what the body mentions.
pub proof fn law_a_document_holds_its_version(
    workspace_id: Seq<char>,
    project_id: Seq<char>,
    page: PageVersionView,
    at_ms: i64,
)
    ensures
        ({
            let doc = doc_of(workspace_id, project_id, page, at_ms);
            &&& doc.workspace_id == workspace_id
            &&& doc.project_id == project_id
            &&& doc.path == page.path
            &&& doc.page_id == page.page_id
            &&& doc.title == page.title
            &&& doc.body == page.body
            &&& doc.updated_at_ms == at_ms
            &&& doc.entities == extraction(page.body).entities
            &&& doc.links == extraction(page.body).links
            &&& doc.embedding is None
            &&& doc.embedding_identity is None
        }),
{
}

/// What is indexed of a document: each of its texts under its own field, in this order, its
/// entities and its links each as one text, and every link once more on its own.
pub proof fn law_every_text_of_a_document_is_indexed(doc: DocView, i: int)
    ensures
        indexed_texts(doc).len() == 8 + doc.links.len(),
        indexed_texts(doc)[0] == ("workspace_id"@, doc.workspace_id),
        indexed_texts(doc)[1] == ("project_id"@, doc.project_id),
        indexed_texts(doc)[2] == ("path"@, doc.path),
        indexed_texts(doc)[3] == ("page_id"@, doc.page_id),
        indexed_texts(doc)[4] == ("title"@, doc.title),
        indexed_texts(doc)[5] == ("body"@, doc.body),
        indexed_texts(doc)[6] == ("entities"@, joined(doc.entities)),
        indexed_texts(doc)[7] == ("links"@, joined(doc.links)),
        0 <= i < doc.links.len() ==> indexed_texts(doc)[8 + i] == ("links_exact"@, doc.links[i]),
{
}

/// Texts are joined in order with a space between them.
pub proof fn law_texts_are_joined_with_a_space(list: Seq<Seq<char>>, one: Seq<char>)
    ensures
        joined(Seq::<Seq<char>>::empty()).len() == 0,
        joined(seq![one]) == one,
        list.len() > 0 ==> joined(list.push(one)) == joined(list) + " "@ + one,
{
    assert(list.push(one).drop_last() =~= list);
}

/// Each document of a batch gets the vector at its place and the name of the embedder, and
/// keeps all else.
pub proof fn law_every_document_gets_its_vector(
    docs: Seq<DocView>,
    vectors: Seq<Vec<u32>>,
    identity: IdentityView,
    i: int,
)
    requires
        0 <= i < docs.len(),
    ensures
        with_vectors(docs, vectors, identity).len() == docs.len(),
        with_vectors(docs, vectors, identity)[i].embedding == Some(vectors[i]@),
        with_vectors(docs, vectors, identity)[i].embedding_identity == Some(identity),
        with_vectors(docs, vectors, identity)[i] == (DocView {
            embedding: Some(vectors[i]@),
            embedding_identity: Some(identity),
            ..docs[i]
        }),
        with_vectors(docs, vectors, identity)[i].path == docs[i].path,
        with_vectors(docs, vectors, identity)[i].page_id == docs[i].page_id,
        with_vectors(docs, vectors, identity)[i].body == docs[i].body,
{
}

proof fn lemma_first_identity(docs: Seq<DocView>, i: int)
    requires
        0 <= i < docs.len(),
        docs[i].embedding_identity is Some,
        forall|j: int| 0 <= j < i ==> (#[trigger] docs[j]).embedding_identity is None,
    ensures
        first_identity(docs) == docs[i].embedding_identity,
    decreases i,
{
    if i > 0 {
        assert(docs[0].embedding_identity is None);
        let rest = docs.skip(1);
        assert forall|j: int| 0 <= j < i - 1 implies (#[trigger] rest[j]).embedding_identity
            is None by {
            assert(docs[j + 1].embedding_identity is None);
        }
        lemma_first_identity(rest, i - 1);
        assert(rest[i - 1] == docs[i]);
    }
}

/// A batch names the embedder of the first document that names one, and none where no
/// document has a vector.
pub proof fn law_a_batch_names_its_first_embedder(docs: Seq<DocView>, i: int)
    requires
        0 <= i < docs.len(),
        docs[i].embedding_identity is Some,
        forall|j: int| 0 <= j < i ==> (#[trigger] docs[j]).embedding_identity is None,
    ensures
        (exists|j: int| 0 <= j < docs.len() && (#[trigger] docs[j]).embedding is Some)
            ==> named_embedder(docs) == docs[i].embedding_identity,
        (forall|j: int| 0 <= j < docs.len() ==> (#[trigger] docs[j]).embedding is None)
            ==> named_embedder(docs) is None,
{
    lemma_first_identity(docs, i);
}

// ---- Vectors ------------------------------------------------------------------------------

/// A number of four bytes is spelled from its lowest byte to its highest.
pub proof fn law_numbers_are_spelled_lowest_byte_first(n: nat)
    requires
        n < 0x1_0000_0000,
    ensures
        spelled(n, 4) == seq![
            (n % 256) as u8,
            (n / 256 % 256) as u8,
            (n / 65536 % 256) as u8,
            (n / 16777216) as u8,
        ],
        value(spelled(n, 4)) == n,
{
    lemma_bases();
    lemma_value_back(n, 4);
    reveal_with_fuel(spelled, 5);
    assert(n / 256 / 256 == n / 65536) by (nonlinear_arith);
    assert(n / 65536 / 256 == n / 16777216) by (nonlinear_arith);
    assert(n / 16777216 < 256) by (nonlinear_arith)
        requires
            n < 0x1_0000_0000,
    ;
    assert(spelled(n, 4) =~= seq![
        (n % 256) as u8,
        (n / 256 % 256) as u8,
        (n / 65536 % 256) as u8,
        (n / 16777216) as u8,
    ]);
}

/// Four bytes are read lowest first.
pub proof fn law_four_bytes_are_read_lowest_first(a: u8, b: u8, c: u8, d: u8)
    ensures
        value(seq![a, b, c, d]) == a + 256 * b + 65536 * c + 16777216 * d,
{
    let all = seq![a, b, c, d];
    lemma_value_front(all);
    let three = all.drop_first();
    assert(three =~= seq![b, c, d]);
    lemma_value_front(three);
    let two = three.drop_first();
    assert(two =~= seq![c, d]);
    lemma_value_front(two);
    let one = two.drop_first();
    assert(one =~= seq![d]);
    lemma_value_front(one);
    assert(one.drop_first() =~= Seq::empty());
}

/// The bytes of a vector are those of its numbers, one behind the other, four of each.
pub proof fn law_the_bytes_of_a_vector(a: Seq<u32>, b: Seq<u32>, n: u32)
    ensures
        encoded(a + b) == encoded(a) + encoded(b),
        encoded(seq![n]) == seq![
            (n as nat % 256) as u8,
            (n as nat / 256 % 256) as u8,
            (n as nat / 65536 % 256) as u8,
            (n as nat / 16777216) as u8,
        ],
        encoded(Seq::<u32>::empty()).len() == 0,
    decreases b.len(),
{
    law_numbers_are_spelled_lowest_byte_first(n as nat);
    assert(seq![n].drop_last() =~= Seq::empty());
    reveal_with_fuel(encoded, 2);
    assert(encoded(seq![n]) =~= spelled(n as nat, 4));
    if b.len() == 0 {
        assert(a + b =~= a);
        assert(encoded(a) + encoded(b) =~= encoded(a));
    } else {
        law_the_bytes_of_a_vector(a, b.drop_last(), n);
        assert((a + b).drop_last() =~= a + b.drop_last());
        assert((a + b).last() == b.last());
        assert(encoded(a + b) =~= encoded(a) + encoded(b));
    }
}

/// Whether bits are those of a finite number.
pub open spec fn of_a_finite_number(bits: u32) -> bool {
    bits < 0x7f80_0000 || 0x8000_0000 <= bits < 0xff80_0000
}

/// Whether bits are those of zero.
pub open spec fn of_zero(bits: u32) -> bool {
    bits == 0 || bits == 0x8000_0000
}

/// Two vectors can be compared if and only if they are equally wide and not empty, all their
/// numbers are finite, and neither is zero throughout.
pub proof fn law_vectors_that_can_be_compared(query: Seq<u32>, stored: Seq<u32>)
    ensures
        incomparable(query, stored) is None <==> query.len() == stored.len() && query.len() > 0 && (
        forall|i: int|
            0 <= i < query.len() ==> of_a_finite_number(#[trigger] query[i]) && of_a_finite_number(
                stored[i],
            )) && !(forall|i: int| 0 <= i < query.len() ==> of_zero(#[trigger] query[i])) && !(
        forall|i: int| 0 <= i < stored.len() ==> of_zero(#[trigger] stored[i])),
        query.len() != stored.len() ==> incomparable(query, stored) == Some(
            "cannot compare embeddings of different widths: query has "@ + decimal(query.len())
                + ", stored value has "@ + decimal(stored.len()),
        ),
        query.len() == 0 && stored.len() == 0 ==> incomparable(query, stored) == Some(
            "cannot compare empty embeddings: the query embedding has zero dimensions"@,
        ),
{
    lemma_finite(query, stored);
    let zero_query = forall|i: int| 0 <= i < query.len() ==> of_zero(#[trigger] query[i]);
    let zero_stored = forall|i: int| 0 <= i < stored.len() ==> of_zero(#[trigger] stored[i]);
    assert(crate::search::vector::all_zero(query) <==> zero_query) by {
        assert forall|i: int| 0 <= i < query.len() implies crate::search::vector::is_zero(
            #[trigger] query[i],
        ) == of_zero(query[i]) by {}
    }
    assert(crate::search::vector::all_zero(stored) <==> zero_stored) by {
        assert forall|i: int| 0 <= i < stored.len() implies crate::search::vector::is_zero(
            #[trigger] stored[i],
        ) == of_zero(stored[i]) by {}
    }
}

proof fn lemma_finite(query: Seq<u32>, stored: Seq<u32>)
    ensures
        query.len() == stored.len() ==> ((exists|i: int|
            0 <= i < query.len() && !#[trigger] crate::search::vector::both_finite(query, stored, i))
            <==> !(forall|i: int|
            0 <= i < query.len() ==> of_a_finite_number(#[trigger] query[i]) && of_a_finite_number(
                stored[i],
            ))),
{
    if query.len() == stored.len() {
        if exists|i: int|
            0 <= i < query.len() && !#[trigger] crate::search::vector::both_finite(
                query,
                stored,
                i,
            ) {
            let i = choose|i: int|
                0 <= i < query.len() && !#[trigger] crate::search::vector::both_finite(
                    query,
                    stored,
                    i,
                );
            assert(!(of_a_finite_number(query[i]) && of_a_finite_number(stored[i])));
        }
        if forall|i: int|
            0 <= i < query.len() ==> #[trigger] crate::search::vector::both_finite(
                query,
                stored,
                i,
            ) {
            assert forall|i: int| 0 <= i < query.len() implies of_a_finite_number(
                #[trigger] query[i],
            ) && of_a_finite_number(stored[i]) by {
                assert(crate::search::vector::both_finite(query, stored, i));
            }
        }
    }
}

/// What is read of a stored vector: nothing where there is none, the vector where it can be
/// compared, and otherwise why not.
pub proof fn law_what_is_read_of_a_stored_vector(query: Seq<u32>, stored: Stored, ord: u64)
    ensures
        readable(query, Stored::Deleted) == Ok::<Option<Seq<u32>>, Seq<char>>(None),
        readable(query, Stored::Nothing) == Ok::<Option<Seq<u32>>, Seq<char>>(None),
        readable(query, Stored::Missing(ord)) == Err::<Option<Seq<u32>>, Seq<char>>(
            "embedding column is missing the term for ordinal "@ + decimal(ord as nat),
        ),
        stored matches Stored::Bytes(bytes) ==> (bytes@.len() % 4 != 0 ==> readable(query, stored)
            == Err::<Option<Seq<u32>>, Seq<char>>(
            "embedded vector has "@ + decimal(bytes@.len())
                + " byte(s), which is not a whole number of f32 values"@,
        )),
        stored matches Stored::Bytes(bytes) ==> (bytes@.len() % 4 == 0 && incomparable(
            query,
            decoded(bytes@),
        ) is None ==> readable(query, stored) == Ok::<Option<Seq<u32>>, Seq<char>>(
            Some(decoded(bytes@)),
        )),
        stored matches Stored::Bytes(bytes) ==> (bytes@.len() % 4 == 0 ==> decoded(bytes@).len() * 4
            == bytes@.len()),
{
}

/// The candidates that are kept are those whose similarity is above zero, in their order:
/// one more candidate is kept where it is, and the higher similarity comes first.
pub proof fn law_candidates_above_zero_are_kept(list: Seq<Candidate>, one: Candidate, k: int)
    ensures
        0 < one.similarity <= 0x7f80_0000 ==> positive_ones(list.push(one)) == positive_ones(
            list,
        ).push(one),
        one.similarity == 0 || one.similarity > 0x7f80_0000 ==> positive_ones(list.push(one))
            == positive_ones(list),
        positive_ones(Seq::<Candidate>::empty()).len() == 0,
        0 <= k < list.len() && 0 < list[k].similarity <= 0x7f80_0000 ==> positive_ones(
            list,
        ).contains(list[k]),
{
    assert(list.push(one).drop_last() =~= list);
    if 0 <= k < list.len() && is_positive(list[k].similarity) {
        lemma_candidate_kept(list, k);
    }
}

proof fn lemma_candidate_kept(list: Seq<Candidate>, k: int)
    requires
        0 <= k < list.len(),
        is_positive(list[k].similarity),
    ensures
        positive_ones(list).contains(list[k]),
    decreases list.len(),
{
    let front = list.drop_last();
    let all = positive_ones(list);
    if k < front.len() {
        lemma_candidate_kept(front, k);
        let before = positive_ones(front);
        let i = choose|i: int| 0 <= i < before.len() && before[i] == list[k];
        assert(all[i] == list[k]);
    } else {
        assert(all.last() == list[k]);
    }
}

/// Candidates are ranked by their similarity, the highest first, and by their place where
/// that is equal.
pub proof fn law_the_most_similar_comes_first(a: Candidate, b: Candidate)
    ensures
        a.similarity > b.similarity ==> a.precedes(b) && !b.precedes(a),
        a.similarity == b.similarity && a.segment < b.segment ==> a.precedes(b) && !b.precedes(a),
        a.similarity == b.similarity && a.segment == b.segment ==> (a.precedes(b) <==> a.doc
            < b.doc),
{
}

/// Of a ranked list the first are taken, as many as there may be.
pub proof fn law_the_first_are_taken(list: Seq<Candidate>, limit: nat, i: int)
    requires
        0 <= i < list.len(),
        i < limit,
    ensures
        i < first_of(list, limit).len() <= limit,
        first_of(list, limit)[i] == list[i],
        list.len() <= limit ==> first_of(list, limit) == list,
{
}

// ---- Split containers ---------------------------------------------------------------------

/// A split container is read back: what lies in front, then the mark and the version with
/// the map, the length of both, the hotcache and its length.
pub proof fn law_a_footer_is_read_back(front: Seq<u8>, map: Seq<u8>, hotcache: Seq<u8>)
    requires
        front.len() + map.len() + hotcache.len() + 24 <= usize::MAX,
    ensures
        ({
            let bytes = front + spelled(403_881_646, 4) + spelled(1, 4) + map + spelled(
                (map.len() + 8) as nat,
                8,
            ) + hotcache + spelled(hotcache.len(), 8);
            footer_in(bytes) == Ok::<Footer, FooterError>(
                Footer {
                    map_start: (front.len() + 8) as usize,
                    map_end: (front.len() + 8 + map.len()) as usize,
                    hotcache_bytes: hotcache.len() as usize,
                },
            ) && bytes.subrange((front.len() + 8) as int, (front.len() + 8 + map.len()) as int)
                == map
        }),
{
    lemma_bases();
    lemma_value_back(403_881_646, 4);
    lemma_value_back(1, 4);
    lemma_value_back((map.len() + 8) as nat, 8);
    lemma_value_back(hotcache.len(), 8);
    let magic = spelled(403_881_646, 4);
    let version = spelled(1, 4);
    let sizes = spelled((map.len() + 8) as nat, 8);
    let end = spelled(hotcache.len(), 8);
    let bytes = front + magic + version + map + sizes + hotcache + end;
    let len: int = bytes.len() as int;
    let f: int = front.len() as int;
    let m: int = map.len() as int;
    assert(bytes.subrange(len - 8, len - 8 + 8) =~= end);
    let behind: int = len - 8 - hotcache.len();
    assert(behind == f + 8 + m + 8);
    assert(bytes.subrange(behind - 8, behind - 8 + 8) =~= sizes);
    assert(bytes.subrange(f, f + 4) =~= magic);
    assert(bytes.subrange(f + 4, f + 4 + 4) =~= version);
    assert(bytes.subrange(f + 8, f + 8 + m) =~= map);
}

/// What is said of a file that is no split.
pub proof fn law_what_is_said_of_no_split(n: usize, m: u32)
    ensures
        footer_message(FooterError::TooSmall(n)) == "file is too small to be a split ("@ + decimal(
            n as nat,
        ) + " bytes)"@,
        footer_message(FooterError::LengthTooLarge) == "footer length does not fit in usize"@,
        footer_message(FooterError::HotcacheExceedsFile(n)) == "hotcache length "@ + decimal(
            n as nat,
        ) + " exceeds the file"@,
        footer_message(FooterError::NoRoomForMetadata(n)) == "hotcache length "@ + decimal(n as nat)
            + " leaves no room for file metadata"@,
        footer_message(FooterError::MetadataExceedsFile(n)) == "metadata length "@ + decimal(
            n as nat,
        ) + " exceeds the file"@,
        footer_message(FooterError::MetadataTruncated) == "file metadata is truncated"@,
        footer_message(FooterError::WrongMagic(m)) == "not a quickwit split: metadata magic "@
            + decimal(m as nat) + " != "@ + decimal(403_881_646),
        footer_message(FooterError::WrongVersion(m)) == "unsupported split metadata version "@
            + decimal(m as nat),
{
}

/// A file shorter than its two lengths and its mark is too small to be a split.
pub proof fn law_a_short_file_is_no_split(bytes: Seq<u8>)
    requires
        bytes.len() < 24,
    ensures
        footer_in(bytes) == Err::<Footer, FooterError>(
            FooterError::TooSmall(bytes.len() as usize),
        ),
{
}

/// A name is plain unless it is empty, leads elsewhere, or holds a slash of either kind; a
/// file is taken out of a container where its name is plain and its range lies inside.
pub proof fn law_plain_names_and_ranges_are_taken(file: (String, Offsets), len: nat)
    ensures
        plain_name(file.0@) <==> file.0@.len() > 0 && file.0@ != "."@ && file.0@ != ".."@
            && forall|i: int|
            0 <= i < file.0@.len() ==> #[trigger] file.0@[i] != '/' && file.0@[i] != '\\',
        extractable(file, len) <==> plain_name(file.0@) && file.1.start <= file.1.end && file.1.end
            <= len,
        !plain_name(file.0@) ==> refusal(file.0@, file.1, len)
            == "refusing unsafe file name in split metadata: "@ + quoted(file.0@),
{
    let name = file.0@;
    if name.contains('/') {
        let i = choose|i: int| 0 <= i < name.len() && name[i] == '/';
        assert(name[i] == '/');
    }
    if name.contains('\\') {
        let i = choose|i: int| 0 <= i < name.len() && name[i] == '\\';
        assert(name[i] == '\\');
    }
    if !name.contains('/') && !name.contains('\\') {
        assert forall|i: int| 0 <= i < name.len() implies #[trigger] name[i] != '/' && name[i]
            != '\\' by {
            assert(name.contains(name[i]));
        }
    }
}

/// The files of a container are taken out up to the first that is refused.
pub proof fn law_files_are_taken_up_to_the_first_refused(
    files: Seq<(String, Offsets)>,
    len: nat,
    from: int,
)
    requires
        0 <= from <= files.len(),
    ensures
        from <= good_files(files, len, from) <= files.len(),
        forall|i: int|
            from <= i < good_files(files, len, from) ==> extractable(#[trigger] files[i], len),
        good_files(files, len, from) < files.len() ==> !extractable(
            files[good_files(files, len, from)],
            len,
        ),
    decreases files.len() - from,
{
    if from < files.len() && extractable(files[from], len) {
        law_files_are_taken_up_to_the_first_refused(files, len, from + 1);
    }
}

// ---- Splits -------------------------------------------------------------------------------

/// Backslashes become slashes, and nothing else of a path changes.
pub proof fn law_backslashes_become_slashes(path: Seq<char>, i: int)
    requires
        0 <= i < path.len(),
    ensures
        slashed(path).len() == path.len(),
        path[i] == '\\' ==> slashed(path)[i] == '/',
        path[i] != '\\' ==> slashed(path)[i] == path[i],
{
}

/// What the hash of a split is taken of: every file in order, its path, a zero byte, its
/// content and a byte of all ones.
pub proof fn law_every_file_is_hashed(a: Seq<SplitFile>, b: Seq<SplitFile>, file: SplitFile)
    ensures
        framed(a + b) == framed(a) + framed(b),
        framed(seq![file]) == encode_utf8(slashed(file.path@)) + seq![0u8] + file.bytes@ + seq![
            255u8,
        ],
        framed(Seq::<SplitFile>::empty()).len() == 0,
    decreases b.len(),
{
    assert(seq![file].drop_last() =~= Seq::empty());
    reveal_with_fuel(framed, 2);
    assert(framed(seq![file]) =~= encode_utf8(slashed(file.path@)) + seq![0u8] + file.bytes@
        + seq![255u8]);
    if b.len() == 0 {
        assert(a + b =~= a);
        assert(framed(a) + framed(b) =~= framed(a));
    } else {
        law_every_file_is_hashed(a, b.drop_last(), file);
        assert((a + b).drop_last() =~= a + b.drop_last());
        assert((a + b).last() == b.last());
        assert(framed(a + b) =~= framed(a) + framed(b));
    }
}

/// A cached split is known by the first twenty-four characters of its hash.
pub proof fn law_a_cached_split_is_known_by_its_hash(hash: Seq<char>)
    ensures
        hash.len() <= 24 ==> cache_key(hash) == hash,
        hash.len() > 24 ==> cache_key(hash) == hash.take(24),
{
}

/// A path leads up where one of its parts is a double full stop.
pub proof fn law_a_path_that_leads_up(before: Seq<char>, behind: Seq<char>)
    ensures
        leads_up(".."@),
        leads_up("../"@ + behind),
        !before.contains('/') && before != ".."@ ==> !leads_up(before),
{
    reveal_strlit("..");
    reveal_strlit("../");
    let up = ".."@;
    assert(!up.contains('/')) by {
        if up.contains('/') {
            let i = choose|i: int| 0 <= i < up.len() && up[i] == '/';
            assert(up[i] == '.');
        }
    }
    crate::store::upkeep::law_a_text_is_split_at_every_separator(up, behind, '/');
    assert("../"@ + behind =~= up.push('/') + behind);
    let parts = crate::text::split_all("../"@ + behind, '/');
    assert(parts[0] == up);
    assert(crate::text::split_all(up, '/')[0] == up);
    crate::store::upkeep::law_a_text_is_split_at_every_separator(before, behind, '/');
    if !before.contains('/') && before != up && leads_up(before) {
        let parts = crate::text::split_all(before, '/');
        let i = choose|i: int| 0 <= i < parts.len() && parts[i] == up;
        assert(parts[i] == before);
    }
}

proof fn lemma_field_at(fields: Seq<FieldFact>, name: Seq<char>, from: int)
    requires
        0 <= from <= fields.len(),
    ensures
        from <= field_at(fields, name, from) <= fields.len(),
        field_at(fields, name, from) < fields.len() ==> fields[field_at(
            fields,
            name,
            from,
        )].name@ == name,
        forall|i: int|
            from <= i < field_at(fields, name, from) ==> (#[trigger] fields[i]).name@ != name,
    decreases fields.len() - from,
{
    if from < fields.len() && fields[from].name@ != name {
        lemma_field_at(fields, name, from + 1);
    }
}

/// A field is found by its name, the first where there are several.
pub proof fn law_a_field_is_found_by_its_name(fields: Seq<FieldFact>, name: Seq<char>, at: int)
    requires
        0 <= at < fields.len(),
        fields[at].name@ == name,
        forall|i: int| 0 <= i < at ==> (#[trigger] fields[i]).name@ != name,
    ensures
        field_at(fields, name, 0) == at,
{
    lemma_field_at(fields, name, 0);
    let first = field_at(fields, name, 0);
    if first < at {
        assert(fields[first].name@ != name);
    }
}

/// The fields that are searched are those that are named and there, in the order of the
/// names; where none is, all that are indexed and are not columns.
pub proof fn law_the_named_fields_are_searched(
    fields: Seq<FieldFact>,
    names: Seq<&'static str>,
    name: &'static str,
    n: int,
)
    requires
        0 <= n < fields.len() <= usize::MAX,
    ensures
        (forall|i: int| 0 <= i < fields.len() ==> (#[trigger] fields[i]).name@ != name@)
            ==> named_fields(fields, names.push(name)) == named_fields(fields, names),
        (fields[n].name@ == name@ && forall|i: int|
            0 <= i < n ==> (#[trigger] fields[i]).name@ != name@) ==> named_fields(
            fields,
            names.push(name),
        ) == named_fields(fields, names).push(n as usize),
        fields[n].indexed && !fields[n].fast ==> text_fields(fields, n + 1) == text_fields(
            fields,
            n,
        ).push(n as usize),
        !fields[n].indexed || fields[n].fast ==> text_fields(fields, n + 1) == text_fields(
            fields,
            n,
        ),
{
    assert(names.push(name).drop_last() =~= names);
    lemma_field_at(fields, name@, 0);
    if fields[n].name@ == name@ && forall|i: int|
        0 <= i < n ==> (#[trigger] fields[i]).name@ != name@ {
        law_a_field_is_found_by_its_name(fields, name@, n);
    }
    if forall|i: int| 0 <= i < fields.len() ==> (#[trigger] fields[i]).name@ != name@ {
        let at = field_at(fields, name@, 0);
        assert(at == fields.len());
    }
}

/// A title that is missing is taken from the first field that is stored.
pub proof fn law_the_first_stored_field_stands_in(fields: Seq<FieldFact>, at: int)
    requires
        0 <= at < fields.len(),
        fields[at].stored,
        forall|i: int| 0 <= i < at ==> !(#[trigger] fields[i]).stored,
    ensures
        stored_at(fields, 0) == at,
{
    lemma_stored_at(fields, 0, at);
}

proof fn lemma_stored_at(fields: Seq<FieldFact>, from: int, at: int)
    requires
        0 <= from <= at < fields.len(),
        fields[at].stored,
        forall|i: int| from <= i < at ==> !(#[trigger] fields[i]).stored,
    ensures
        stored_at(fields, from) == at,
    decreases at - from,
{
    if from < at {
        assert(!fields[from].stored);
        lemma_stored_at(fields, from + 1, at);
    }
}

// ---- Answers of a model -------------------------------------------------------------------

proof fn lemma_member_at(members: Seq<(String, Json)>, name: Seq<char>, from: int, at: int)
    requires
        0 <= from <= at < members.len(),
        members[at].0@ == name,
        forall|i: int| from <= i < at ==> (#[trigger] members[i]).0@ != name,
    ensures
        member_at(members, name, from) == at,
    decreases at - from,
{
    if from < at {
        assert(members[from].0@ != name);
        lemma_member_at(members, name, from + 1, at);
    }
}

/// Whether a value is an object whose first member of this name has this value.
pub open spec fn holds_member(object: Json, name: Seq<char>, held: Json) -> bool {
    object matches Json::Object(members) && exists|at: int|
        0 <= at < members@.len() && (#[trigger] members@[at]).0@ == name && members@[at].1 == held
            && forall|i: int| 0 <= i < at ==> (#[trigger] members@[i]).0@ != name
}

/// A member of an object is found by its name.
pub proof fn law_a_member_is_found_by_its_name(object: Json, name: Seq<char>, held: Json)
    requires
        holds_member(object, name, held),
    ensures
        member(object, name) == Some(held),
{
    let members = object->Object_0;
    let at = choose|at: int|
        0 <= at < members@.len() && (#[trigger] members@[at]).0@ == name && members@[at].1 == held
            && forall|i: int| 0 <= i < at ==> (#[trigger] members@[i]).0@ != name;
    lemma_member_at(members@, name, 0, at);
}

/// The text of an answer is the content of the message of its first choice.
pub proof fn law_the_answer_is_the_content_of_the_first_choice(
    answer: Json,
    choices: Vec<Json>,
    message: Json,
    text: String,
)
    requires
        holds_member(answer, "choices"@, Json::Array(choices)),
        choices@.len() > 0,
        holds_member(choices@[0], "message"@, message),
        holds_member(message, "content"@, Json::Text(text)),
    ensures
        content_in(answer) == Some(text@),
{
    law_a_member_is_found_by_its_name(answer, "choices"@, Json::Array(choices));
    law_a_member_is_found_by_its_name(choices@[0], "message"@, message);
    law_a_member_is_found_by_its_name(message, "content"@, Json::Text(text));
}

/// What is written for a file has every byte of its range, in order, under its name.
pub proof fn law_a_file_is_cut_whole(
    piece: (String, Vec<u8>),
    file: (String, Offsets),
    bytes: Seq<u8>,
    i: int,
)
    requires
        is_cut(piece, file, bytes),
        extractable(file, bytes.len()),
    ensures
        piece.0@ == file.0@,
        file.1.start <= file.1.end <= bytes.len(),
        piece.1@.len() == file.1.end - file.1.start,
        0 <= i < file.1.end - file.1.start ==> piece.1@[i] == bytes[file.1.start + i],
{
}

/// What is said of embeddings of one width that cannot be compared: a number that is not
/// finite, then a query or a stored one without a length.
pub proof fn law_what_cannot_be_compared_is_told(query: Seq<u32>, stored: Seq<u32>, i: int)
    requires
        query.len() == stored.len(),
        0 <= i < query.len(),
    ensures
        query[i] % 0x8000_0000 >= 0x7f80_0000 || stored[i] % 0x8000_0000 >= 0x7f80_0000
            ==> incomparable(query, stored) == Some(
            "cannot compare embeddings that contain a non-finite value"@,
        ),
        (forall|k: int|
            0 <= k < query.len() ==> #[trigger] query[k] % 0x8000_0000 == 0 && stored[k]
                % 0x8000_0000 < 0x7f80_0000) ==> incomparable(query, stored) == Some(
            "cannot compare embeddings: the query embedding has zero magnitude"@,
        ),
        query[i] % 0x8000_0000 > 0 && (forall|k: int|
            0 <= k < query.len() ==> #[trigger] query[k] % 0x8000_0000 < 0x7f80_0000 && stored[k]
                % 0x8000_0000 == 0) ==> incomparable(query, stored) == Some(
            "cannot compare embeddings: a stored embedding has zero magnitude"@,
        ),
{
    assert forall|k: int| 0 <= k < query.len() implies #[trigger] both_finite(query, stored, k)
        == (query[k] % 0x8000_0000 < 0x7f80_0000 && stored[k] % 0x8000_0000 < 0x7f80_0000) by {}
    if query[i] % 0x8000_0000 >= 0x7f80_0000 || stored[i] % 0x8000_0000 >= 0x7f80_0000 {
        assert(!both_finite(query, stored, i));
    }
    if query[i] % 0x8000_0000 > 0 {
        assert(!is_zero(query[i]));
        assert(!all_zero(query));
        if forall|k: int|
            0 <= k < query.len() ==> #[trigger] query[k] % 0x8000_0000 < 0x7f80_0000 && stored[k]
                % 0x8000_0000 == 0 {
            assert forall|k: int| 0 <= k < stored.len() implies is_zero(#[trigger] stored[k]) by {
                assert(query[k] % 0x8000_0000 < 0x7f80_0000);
            }
            assert(all_zero(stored));
        }
    }
}

} // verus!
