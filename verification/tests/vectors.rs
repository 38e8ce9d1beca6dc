use quick_memory::search::documents::{
    attach_vectors, batch_identity, embedding_text, ensure_split_model_matches, index_document,
    split_entry, EmbeddingIdentity, PageDoc,
};
use quick_memory::search::hits::key_of;
use quick_memory::search::tuning::SearchTuning;
use quick_memory::search::vector::{
    best_candidates, check_comparable, check_query, check_vectors, decode, embedding_dim, encode,
    read_stored, Candidate, Stored,
};
use quick_memory::store::records::PageVersion;

fn bits(values: &[f32]) -> Vec<u32> {
    values.iter().map(|value| value.to_bits()).collect()
}

fn doc() -> PageDoc {
    PageDoc {
        workspace_id: "acme".to_string(),
        project_id: "ai-memory".to_string(),
        path: "notes/raft.md".to_string(),
        page_id: "p1".to_string(),
        title: "Raft consensus".to_string(),
        body: "leader election and log replication".to_string(),
        updated_at_ms: 7,
        entities: vec!["raft".to_string(), "log".to_string()],
        links: vec!["a.md".to_string(), "b c.md".to_string()],
        embedding: None,
        embedding_identity: None,
    }
}

fn identity(model: &str, dim: usize) -> EmbeddingIdentity {
    EmbeddingIdentity {
        provider: "fake".to_string(),
        model: model.to_string(),
        dim,
    }
}

#[test]
fn the_age_that_counts_is_bounded_and_disabled_cleanly() {
    let half_life = 30 * 24 * 60 * 60 * 1_000i64;
    let tuning = SearchTuning {
        recency_half_life_ms: half_life,
        max_boost: 0.5f32.to_bits(),
        now_ms: 10 * half_life,
        ..Default::default()
    };
    assert!(!tuning.is_disabled());
    assert_eq!(tuning.age(tuning.now_ms), Some(0));
    assert_eq!(tuning.age(tuning.now_ms - half_life), Some(half_life));
    assert_eq!(tuning.age(1), Some(10 * half_life - 1));
    assert_eq!(tuning.age(tuning.now_ms + half_life), Some(0));

    let disabled = SearchTuning { recency_half_life_ms: 0, ..tuning };
    assert_eq!(disabled.age(tuning.now_ms), None);
    assert!(disabled.is_disabled());
}

#[test]
fn a_page_is_embedded_from_its_title_and_body() {
    assert_eq!(
        embedding_text(&doc()),
        "Raft consensus\n\nleader election and log replication"
    );
}

#[test]
fn embeddings_round_trip_through_their_byte_encoding() {
    let values = vec![0.0f32, 1.5, -2.25, f32::MIN_POSITIVE];
    let decoded: Vec<f32> = decode(&encode(&bits(&values)))
        .unwrap()
        .into_iter()
        .map(f32::from_bits)
        .collect();
    assert_eq!(decoded, values);
    assert_eq!(encode(&bits(&values)).len(), values.len() * 4);
    assert_eq!(encode(&bits(&[1.5])), 1.5f32.to_le_bytes());
    let error = decode(&vec![0, 1, 2]).expect_err("three bytes is not one f32");
    assert!(error.contains("not a whole number"), "{error}");
}

#[test]
fn build_index_refuses_a_zero_width_embedding() {
    let mut empty = doc();
    empty.embedding = Some(Vec::new());
    let error = index_document(&empty).expect_err("zero width must be refused");
    assert!(error.contains("zero-width embedding"), "{error}");

    let mut real = doc();
    real.embedding = Some(bits(&[0.25, 0.5, 0.75]));
    index_document(&real).expect("a real vector builds");
}

#[test]
fn comparisons_that_are_undefined_are_refused() {
    let check = |a: &[f32], b: &[f32]| check_comparable(&bits(a), &bits(b));
    assert!(check(&[1.0, 0.0], &[1.0]).is_err());
    assert!(check(&[0.0, 0.0], &[1.0, 0.0]).is_err());
    assert!(check(&[1.0, 0.0], &[0.0, 0.0]).is_err());
    assert!(check(&[f32::NAN, 0.0], &[1.0, 0.0]).is_err());
    assert!(check(&[2.0, 0.0], &[0.5, 0.0]).is_ok());
}

#[test]
fn undefined_comparisons_say_why() {
    let why = |a: &[f32], b: &[f32]| check_comparable(&bits(a), &bits(b)).unwrap_err();
    assert_eq!(
        why(&[1.0; 8], &[1.0; 4]),
        "cannot compare embeddings of different widths: query has 8, stored value has 4"
    );
    assert_eq!(
        why(&[], &[]),
        "cannot compare empty embeddings: the query embedding has zero dimensions"
    );
    assert_eq!(
        why(&[1.0, 1.0], &[1.0, f32::NEG_INFINITY]),
        "cannot compare embeddings that contain a non-finite value"
    );
    assert_eq!(
        why(&[0.0, -0.0], &[1.0, 0.0]),
        "cannot compare embeddings: the query embedding has zero magnitude"
    );
    assert_eq!(
        why(&[f32::MIN_POSITIVE, 0.0], &[-0.0, 0.0]),
        "cannot compare embeddings: a stored embedding has zero magnitude"
    );
}

#[test]
fn stored_embeddings_are_read_or_refused() {
    let query = bits(&[1.0, 0.0]);
    assert!(check_query(&query).is_ok());
    assert_eq!(
        check_query(&Vec::new()).unwrap_err(),
        "cannot run the vector stream with an empty query embedding"
    );
    assert_eq!(read_stored(&query, &Stored::Deleted).unwrap(), None);
    assert_eq!(read_stored(&query, &Stored::Nothing).unwrap(), None);
    assert_eq!(
        read_stored(&query, &Stored::Missing(9)).unwrap_err(),
        "embedding column is missing the term for ordinal 9"
    );
    let stored = bits(&[0.5, 0.5]);
    assert_eq!(
        read_stored(&query, &Stored::Bytes(encode(&stored))).unwrap(),
        Some(stored)
    );
    assert!(read_stored(&query, &Stored::Bytes(vec![1])).is_err());
    assert!(read_stored(&query, &Stored::Bytes(encode(&bits(&[1.0])))).is_err());
}

#[test]
fn only_similar_documents_are_candidates() {
    let one = |similarity: f32, segment: u32, doc: u32| Candidate {
        similarity: similarity.to_bits(),
        segment,
        doc,
    };
    let scored = vec![
        one(0.25, 0, 0),
        one(-0.5, 0, 1),
        one(0.0, 0, 2),
        one(-0.0, 0, 3),
        one(f32::NAN, 0, 4),
        one(0.75, 1, 1),
        one(0.75, 1, 0),
        one(0.75, 0, 9),
    ];
    let order = |limit: usize| -> Vec<(u32, u32)> {
        best_candidates(&scored, limit)
            .into_iter()
            .map(|c| (c.segment, c.doc))
            .collect()
    };
    assert_eq!(order(10), [(0, 9), (1, 0), (1, 1), (0, 0)]);
    assert_eq!(order(2), [(0, 9), (1, 0)]);
}

#[test]
fn order_keys_order_as_numbers_do() {
    let numbers = [
        f32::NEG_INFINITY,
        -1.0e9,
        -1.0,
        -f32::MIN_POSITIVE,
        0.0,
        f32::MIN_POSITIVE,
        0.5,
        1.0,
        1.0e9,
        f32::INFINITY,
    ];
    for a in numbers {
        for b in numbers {
            assert_eq!(a < b, key_of(a.to_bits()) < key_of(b.to_bits()), "{a} {b}");
        }
    }
    assert_eq!(key_of((-0.0f32).to_bits()), key_of(0.0f32.to_bits()));
}

#[test]
fn providers_are_held_to_their_contract() {
    assert!(check_vectors(&vec![3, 3], 2, 3).is_ok());
    assert_eq!(
        check_vectors(&vec![3], 2, 3).unwrap_err(),
        "the embedding provider returned 1 vector(s) for 2 input(s)"
    );
    assert_eq!(
        check_vectors(&vec![3, 4], 2, 3).unwrap_err(),
        "the embedding provider returned a 4-wide vector at position 1, but its configured width is 3"
    );
}

#[test]
fn the_width_is_configured_or_assumed() {
    let dim = |raw: &str| embedding_dim(&Some(raw.to_string()));
    assert_eq!(embedding_dim(&None).unwrap(), 1536);
    assert_eq!(dim("  ").unwrap(), 1536);
    assert_eq!(dim(" 768\n").unwrap(), 768);
    assert_eq!(
        dim("0").unwrap_err(),
        "QM_EMBEDDING_DIM must not be zero: a zero-width embedding cannot be compared"
    );
    assert_eq!(
        dim("wide").unwrap_err(),
        "QM_EMBEDDING_DIM must be a positive integer, got \"wide\""
    );
}

#[test]
fn documents_are_indexed_field_by_field() {
    let mut page = doc();
    page.embedding = Some(bits(&[2.0]));
    let stored = index_document(&page).unwrap();
    let fields: Vec<(&str, &str)> = stored
        .texts
        .iter()
        .map(|(name, text)| (*name, text.as_str()))
        .collect();
    assert_eq!(
        fields,
        [
            ("workspace_id", "acme"),
            ("project_id", "ai-memory"),
            ("path", "notes/raft.md"),
            ("page_id", "p1"),
            ("title", "Raft consensus"),
            ("body", "leader election and log replication"),
            ("entities", "raft log"),
            ("links", "a.md b c.md"),
            ("links_exact", "a.md"),
            ("links_exact", "b c.md"),
        ]
    );
    assert_eq!(stored.updated_at_ms, 7);
    assert_eq!(stored.embedding, Some(2.0f32.to_le_bytes().to_vec()));
    assert_eq!(index_document(&doc()).unwrap().embedding, None);
}

#[test]
fn a_page_version_becomes_a_document() {
    let page = PageVersion {
        page_id: "v1".to_string(),
        path: "notes/a.md".to_string(),
        title: "A".to_string(),
        body: "see [[notes/b.md]] and #tag-x".to_string(),
        supersedes: None,
    };
    let made = PageDoc::from_version("ws", "proj", &page, 42);
    assert_eq!(made.path, "notes/a.md");
    assert_eq!(made.page_id, "v1");
    assert_eq!(made.updated_at_ms, 42);
    assert_eq!(made.links, ["notes/b.md"]);
    assert_eq!(made.entities, ["b", "notes/b.md", "tag-x"]);
    assert!(made.embedding.is_none() && made.embedding_identity.is_none());
}

#[test]
fn one_embedder_fills_a_whole_batch() {
    let docs = vec![doc(), doc()];
    let filled = attach_vectors(docs, vec![vec![1], vec![2]], &identity("m", 1));
    assert_eq!(filled[0].embedding, Some(vec![1]));
    assert_eq!(filled[1].embedding, Some(vec![2]));
    for one in &filled {
        assert_eq!(one.embedding_identity.as_ref().unwrap().model, "m");
    }
    assert_eq!(batch_identity(&filled).unwrap().model, "m");
    assert!(batch_identity(&vec![doc()]).is_none());

    // A batch without vectors has nothing to state, whatever its documents name.
    let mut named = doc();
    named.embedding = None;
    named.embedding_identity = Some(identity("m", 1));
    assert!(batch_identity(&vec![named]).is_none());
    let mut unnamed = doc();
    unnamed.embedding = Some(vec![1]);
    unnamed.embedding_identity = None;
    assert!(batch_identity(&vec![unnamed]).is_none());
}

#[test]
fn splits_of_another_model_are_refused_by_name() {
    let current = identity("new", 4);
    assert!(ensure_split_model_matches(&None, "p", &current).is_ok());
    assert!(ensure_split_model_matches(&Some(identity("new", 8)), "p", &current).is_ok());
    let why = ensure_split_model_matches(&Some(identity("old", 4)), "splits/1", &current)
        .unwrap_err();
    assert_eq!(
        why,
        "the split splits/1 was indexed with provider 'fake', model 'old', dim 4, but this machine would query with provider 'fake', model 'new', dim 4; embeddings from two models are not comparable, so the vector stream is refused rather than ranked — re-embed the index by running `qm compact` with the current provider"
    );
}

#[test]
fn the_default_tuning_has_its_numbers() {
    let tuning = SearchTuning::default();
    assert_eq!(tuning.recency_half_life_ms, 30 * 24 * 60 * 60 * 1_000);
    assert_eq!(f32::from_bits(tuning.max_boost), 0.5);
    assert_eq!(f32::from_bits(tuning.neighbor_weight), 0.4);
    assert_eq!(f32::from_bits(tuning.vector_weight), 0.6);
    assert_eq!(tuning.neighbor_seeds, 3);
    assert!(tuning.neighbor_expansion && tuning.vector_search);
    assert!(tuning.is_disabled(), "there is no time to count from");
    let off = SearchTuning {
        max_boost: (-0.5f32).to_bits(),
        now_ms: 5,
        ..tuning
    };
    assert!(off.is_disabled());
    assert!(SearchTuning { now_ms: 5, ..tuning }.for_project().is_disabled());
    assert!(tuning.wants_vectors());
    assert!(!SearchTuning { vector_weight: 0.0f32.to_bits(), ..tuning }.wants_vectors());
    assert!(!SearchTuning { vector_search: false, ..tuning }.wants_vectors());
}

#[test]
fn a_split_entry_counts_its_documents() {
    let entry = split_entry("w", 3, "splits/3", 12, "hash");
    assert_eq!(entry.doc_count, 12);
    assert_eq!((entry.seq, entry.prefix.as_str()), (3, "splits/3"));
}
