use quick_memory::search::cjk::{
    is_cjk, kind_of, script_of, tokenize, tokenize_known, CjkTokenizer, Script,
    MAX_LATIN_TOKEN_BYTES, TOKENIZER_NAME,
};
use quick_memory::trim::space;
use tantivy::tokenizer::{
    LowerCaser, RemoveLongFilter, SimpleTokenizer, TextAnalyzer, TokenStream,
};

fn texts(text: &str) -> Vec<String> {
    let mut tokenizer = CjkTokenizer;
    let mut stream = tokenizer.token_stream(text);
    let mut out = Vec::new();
    while stream.advance() {
        out.push(stream.token().text.clone());
    }
    out
}

#[test]
fn a_chinese_run_becomes_unigrams_and_bigrams() {
    let tokens = texts("潜在租约泄漏");
    for expected in ["租", "约", "租约", "约泄", "泄漏", "潜在"] {
        assert!(
            tokens.iter().any(|token| token == expected),
            "{expected:?} has to be a term: {tokens:?}"
        );
    }
    assert!(
        !tokens.iter().any(|token| token == "潜在租约泄漏"),
        "a whole run is exactly what made the word unfindable: {tokens:?}"
    );
}

#[test]
fn latin_words_and_digits_stay_whole_and_lower_cased() {
    assert_eq!(texts("Hello World 2026"), ["hello", "world", "2026"]);
}

#[test]
fn the_long_latin_bound_matches_tantivys_default() {
    for length in [38, 39] {
        assert_eq!(
            texts(&"x".repeat(length)).len(),
            1,
            "{length} bytes is inside the bound"
        );
    }
    for length in [40, 41] {
        assert!(
            texts(&"x".repeat(length)).is_empty(),
            "{length} bytes is past the bound"
        );
    }
    let dotted = "İ".repeat(19);
    assert_eq!(dotted.len(), 38);
    assert_eq!(dotted.to_lowercase().len(), 57);
    assert_eq!(texts(&dotted).len(), 1, "default keeps what is raw-short");

    let sharp = "ẞ".repeat(19);
    assert_eq!(sharp.len(), 57);
    assert_eq!(sharp.to_lowercase().len(), 38);
    assert!(
        texts(&sharp).is_empty(),
        "default drops what is raw-long, however short it becomes"
    );
}

#[test]
fn pure_latin_input_matches_tantivys_default_analyzer() {
    let mut default = TextAnalyzer::builder(SimpleTokenizer::default())
        .filter(RemoveLongFilter::limit(MAX_LATIN_TOKEN_BYTES))
        .filter(LowerCaser)
        .build();

    let inputs = [
        "Hello World 2026",
        "a-b_c",
        &"x".repeat(39),
        &"x".repeat(40),
        &"İ".repeat(19),
        &"ẞ".repeat(19),
        &"İ".repeat(20),
        "ΣΣ sigma",
        &"abcİdef".repeat(5),
    ];
    for input in inputs {
        let expected: Vec<String> = {
            let mut stream = default.token_stream(input);
            let mut out = Vec::new();
            while stream.advance() {
                out.push(stream.token().text.clone());
            }
            out
        };
        assert_eq!(texts(input), expected, "differed on {input:?}");
    }
}

#[test]
fn cjk_outside_the_basic_plane_is_expanded_too() {
    let tokens = texts("𠀀𠀁租");
    assert!(
        tokens.iter().any(|token| token == "𠀀𠀁"),
        "{tokens:?} should carry the surrogate-pair bigram"
    );
    assert!(tokens.iter().any(|token| token == "𠀀"));

    for (name, ch) in [
        ("extension G start", '\u{30000}'),
        ("extension G last assigned", '\u{3134a}'),
        ("extension H start", '\u{31350}'),
        ("extension H end", '\u{323af}'),
    ] {
        let text = ch.to_string();
        let tokens = texts(&format!("{text}租"));
        assert!(
            tokens.iter().any(|token| token == &text),
            "{name} (U+{:05X}) has no unigram: {tokens:?}",
            ch as u32
        );
        assert!(
            tokens.iter().any(|token| token == &format!("{text}租")),
            "{name} (U+{:05X}) does not pair with its CJK neighbour: {tokens:?}",
            ch as u32
        );
    }
}

#[test]
fn a_latin_word_touching_chinese_stays_searchable() {
    let tokens = texts("作用域listbuckets无法枚举");
    assert!(
        tokens.iter().any(|token| token == "listbuckets"),
        "the identifier has to survive next to CJK text: {tokens:?}"
    );
    assert!(tokens.iter().any(|token| token == "作用"));
}

#[test]
fn punctuation_and_whitespace_are_boundaries() {
    assert_eq!(texts("租约, 泄漏"), texts("租约 泄漏"));
    assert!(texts("！！！").is_empty());
}

#[test]
fn positions_of_a_run_are_consecutive() {
    let mut tokenizer = CjkTokenizer;
    let mut stream = tokenizer.token_stream("租约泄漏");
    let mut positions = Vec::new();
    while stream.advance() {
        if stream.token().text.chars().count() == 2 {
            positions.push((stream.token().text.clone(), stream.token().position));
        }
    }
    positions.sort_by_key(|(_, position)| *position);
    assert_eq!(
        positions,
        [
            ("租约".to_string(), 0),
            ("约泄".to_string(), 1),
            ("泄漏".to_string(), 2)
        ]
    );
}

#[test]
fn tokens_say_where_they_stand() {
    assert_eq!(TOKENIZER_NAME, "cjk");
    let found: Vec<(String, usize, usize, usize, usize)> = tokenize("a租约 B")
        .into_iter()
        .map(|t| (t.text, t.offset_from, t.offset_to, t.position, t.position_length))
        .collect();
    assert_eq!(
        found,
        [
            ("a".to_string(), 0, 1, 0, 1),
            ("租".to_string(), 1, 4, 1, 1),
            ("约".to_string(), 4, 7, 2, 1),
            ("租约".to_string(), 1, 7, 1, 1),
            ("b".to_string(), 8, 9, 3, 1),
        ]
    );
}

#[test]
fn a_word_that_is_too_long_takes_its_position_all_the_same() {
    let text = format!("{} end", "x".repeat(40));
    let tokens = tokenize(&text);
    assert_eq!(tokens.len(), 1);
    assert_eq!(tokens[0].text, "end");
    assert_eq!(tokens[0].position, 1);
}

#[test]
fn the_blocks_end_where_they_should() {
    for inside in ['\u{3040}', '\u{30ff}', '\u{3400}', '\u{9fff}', '\u{ac00}', '\u{ff9f}'] {
        assert!(is_cjk(inside), "{inside:?}");
    }
    for outside in ['\u{303f}', '\u{3100}', '\u{4dc0}', '\u{a000}', '\u{ff65}', '\u{323b0}'] {
        assert!(!is_cjk(outside), "{outside:?}");
    }
}

#[test]
fn white_space_is_what_unicode_says() {
    for point in 0..0x11_0000u32 {
        if let Some(c) = char::from_u32(point) {
            assert_eq!(space(c), c.is_whitespace(), "{c:?}");
        }
    }
}

#[test]
fn terms_follow_from_what_is_known_of_the_characters() {
    let kinds = vec![Script::Latin, Script::Latin, Script::Boundary, Script::Cjk, Script::Cjk];
    let forms: Vec<String> = ["x", "yy", "-", "3", "4"].iter().map(|f| f.to_string()).collect();
    let tokens = tokenize_known("AB 12", &kinds, &forms);
    let seen: Vec<(&str, usize, usize, usize)> = tokens
        .iter()
        .map(|t| (t.text.as_str(), t.position, t.offset_from, t.offset_to))
        .collect();
    assert_eq!(
        seen,
        [("xyy", 0, 0, 2), ("3", 1, 3, 4), ("4", 2, 4, 5), ("34", 1, 3, 5)]
    );
    assert_eq!(kind_of('a', false), Script::Boundary);
    assert_eq!(kind_of('a', true), Script::Latin);
    assert_eq!(kind_of('\u{4e2d}', true), Script::Cjk);
    assert_eq!(script_of('!'), Script::Boundary);
    assert_eq!(script_of('\u{4e2d}'), Script::Cjk);
}
