use quick_memory::search::entities::{declared, extract, keep_distinct, MAX_ENTITIES};

#[test]
fn extracts_wiki_links_and_the_entity_they_point_at() {
    let extraction = extract("See [[notes/raft.md]] and [[quickwit|the engine]] for detail.");
    assert!(extraction.links.contains(&"notes/raft.md".to_string()));
    assert!(extraction.links.contains(&"quickwit".to_string()));
    assert!(extraction.entities.contains(&"raft".to_string()));
    assert!(extraction.entities.contains(&"quickwit".to_string()));
}

#[test]
fn extracts_paths_backticks_and_tags() {
    let extraction = extract(
        "Ran `cargo test -p qm-search` after editing crates/qm-search/src/lib.rs #release-notes",
    );
    assert!(extraction.entities.contains(&"cargo".to_string()));
    assert!(extraction.entities.contains(&"qm-search".to_string()));
    assert!(extraction
        .entities
        .contains(&"crates/qm-search/src/lib.rs".to_string()));
    assert!(extraction.entities.contains(&"release-notes".to_string()));
}

#[test]
fn deduplicates_case_insensitively_and_bounds_the_count() {
    let body = "`tantivy` `Tantivy` `TANTIVY`";
    let extraction = extract(body);
    assert_eq!(
        extraction
            .entities
            .iter()
            .filter(|e| e.eq_ignore_ascii_case("tantivy"))
            .count(),
        1,
        "{:?}",
        extraction.entities
    );

    let mut huge = String::new();
    for index in 0..(MAX_ENTITIES * 2) {
        huge.push_str(&format!("`entity-{index:04}` "));
    }
    assert_eq!(extract(&huge).entities.len(), MAX_ENTITIES);
}

#[test]
fn ordinary_prose_yields_no_entities() {
    let extraction = extract("the build failed because the cache was cold");
    assert!(extraction.entities.is_empty(), "{:?}", extraction.entities);
    assert!(extraction.links.is_empty());
}

#[test]
fn entities_stand_in_the_order_of_the_text() {
    assert_eq!(extract("#zeta `alpha`").entities, ["zeta", "alpha"]);
    assert_eq!(extract("`alpha` #zeta").entities, ["alpha", "zeta"]);
    let extraction = extract("#tag-one src/a.rs `name_b` [[dir/leaf.md.md|x]] [[ ]] ([[open");
    assert_eq!(extraction.entities, ["tag-one", "src/a.rs", "name_b", "leaf", "dir/leaf.md.md|x"]);
    assert_eq!(extraction.links, ["dir/leaf.md.md"]);
}

#[test]
fn the_earliest_identifiers_win_the_places() {
    let mut body = "#first ".to_string();
    for index in 0..MAX_ENTITIES {
        body.push_str(&format!("`entity-{index:04}` "));
    }
    let entities = extract(&body).entities;
    assert_eq!(entities.len(), MAX_ENTITIES);
    assert_eq!(entities[0], "first");
    assert_eq!(entities[MAX_ENTITIES - 1], format!("entity-{:04}", MAX_ENTITIES - 2));
    assert_eq!(extract("`Raft` [[notes/raft.md]]").entities, ["Raft", "notes/raft.md"]);
}

#[test]
fn what_is_declared_is_kept_once_by_its_form() {
    let (identifiers, targets) = declared("`B` #aa `b` [[x/b.md]]");
    assert_eq!(identifiers, ["aa", "b", "x/b.md"]);
    assert_eq!(targets, ["x/b.md"]);
    let values = vec!["A".to_string(), "a".to_string(), "b".to_string()];
    let forms = vec!["a".to_string(), "a".to_string(), "b".to_string()];
    assert_eq!(keep_distinct(&values, &forms), ["A", "b"]);
    let apart = vec!["1".to_string(), "2".to_string(), "1".to_string()];
    assert_eq!(keep_distinct(&values, &apart), ["A", "a"]);
}

#[test]
fn repeats_are_told_by_their_lower_case_form() {
    let extraction = extract("[[STRASSE]] [[strasse]] [[İ]] [[i\u{307}]]");
    assert_eq!(extraction.links, ["STRASSE", "İ"]);
}

#[test]
fn quotes_and_punctuation_are_taken_off() {
    let extraction = extract("(see \"docs/design.md\", then 'x.toml'.) plain.txt a/b");
    assert_eq!(extraction.entities, ["docs/design.md", "x.toml"]);
}

#[test]
fn values_that_are_empty_or_too_long_are_dropped() {
    let long = format!("[[{}]] [[{}]]", "x".repeat(128), "y".repeat(129));
    assert_eq!(extract(&long).links, ["x".repeat(128)]);
    assert!(extract("[['\"`]]").links.is_empty());
}

#[test]
fn a_hash_without_a_tag_is_stepped_over() {
    assert_eq!(extract("# title #a #ab ##cd #ef/g").entities, ["ab", "#ef/g", "ef/g"]);
    let nothing = extract("#\u{4e2d}");
    assert!(nothing.entities.is_empty() && nothing.links.is_empty());
    assert_eq!(extract("#\u{4e2d}#ok #\u{e9} #end").entities, ["ok", "end"]);
}
