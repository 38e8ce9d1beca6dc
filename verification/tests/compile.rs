use std::collections::hash_map::DefaultHasher;
use std::hash::{Hash, Hasher};

use quick_memory::json::Json;
use quick_memory::search::compile::{
    chain_material, fingerprint_of, parse_chat_completion, render_session_page, with_fingerprint,
    OpenAiCompatCompiler, RuleCompiler,
};
use quick_memory::store::records::Observation;

fn observation(session: &str, text: &str, at: i64) -> Observation {
    Observation {
        schema: 1,
        observation_id: format!("{session}-codex-tool_use-{text}-{at}"),
        session_id: session.to_string(),
        actor: "codex".to_string(),
        kind: "tool_use".to_string(),
        text: text.to_string(),
        created_at_ms: at,
    }
}

fn chain_fingerprint(observations: &Vec<Observation>) -> String {
    let mut hasher = DefaultHasher::new();
    chain_material(observations).hash(&mut hasher);
    format!("{:016x}", hasher.finish())
}

fn object(members: Vec<(&str, Json)>) -> Json {
    Json::Object(
        members
            .into_iter()
            .map(|(name, value)| (name.to_string(), value))
            .collect(),
    )
}

fn answer(content: Json) -> Json {
    object(vec![(
        "choices",
        Json::Array(vec![object(vec![(
            "message",
            object(vec![("content", content)]),
        )])]),
    )])
}

#[test]
fn fingerprints_track_the_chain_and_round_trip_through_the_page() {
    let session = "sess-1";
    let first = vec![observation(session, "one", 1)];
    let second = vec![
        observation(session, "one", 1),
        observation(session, "two", 2),
    ];

    let fingerprint = chain_fingerprint(&first);
    assert_eq!(fingerprint, chain_fingerprint(&first), "replays must match");
    assert_ne!(fingerprint, chain_fingerprint(&second));

    let page = with_fingerprint(session, &fingerprint, "- did the thing");
    assert_eq!(fingerprint_of(&page).as_deref(), Some(fingerprint.as_str()));
    assert!(fingerprint_of("# Session x\n\nno marker here").is_none());
}

#[test]
fn the_rule_compiler_renders_every_observation() {
    let session = "sess-1";
    let observations = vec![
        observation(session, "switched to tantivy splits", 1),
        observation(session, "ran the suite", 2),
    ];
    let body = RuleCompiler.compile(&observations);
    assert!(body.contains("switched to tantivy splits"));
    assert!(body.contains("ran the suite"));
    assert!(body.contains("tool_use"));
}

#[test]
fn chat_completions_are_parsed_and_bad_shapes_rejected() {
    let good = answer(Json::Text("  # Memory  ".to_string()));
    assert_eq!(parse_chat_completion(&good).unwrap(), "# Memory");
    assert!(parse_chat_completion(&object(vec![("choices", Json::Array(vec![]))])).is_err());
    assert!(parse_chat_completion(&answer(Json::Text("   ".to_string()))).is_err());
}

#[test]
fn answers_of_other_shapes_have_no_content() {
    for bad in [
        Json::Plain,
        object(vec![]),
        object(vec![("choices", Json::Plain)]),
        answer(Json::Plain),
        object(vec![("choices", Json::Array(vec![Json::Array(vec![])]))]),
    ] {
        assert_eq!(
            parse_chat_completion(&bad).unwrap_err(),
            "chat completion had no content"
        );
    }
}

#[test]
fn the_material_is_one_id_to_a_line() {
    let chain = vec![observation("s", "a", 1), observation("s", "b", -2)];
    assert_eq!(
        chain_material(&chain),
        "s-codex-tool_use-a-1\ns-codex-tool_use-b--2\n"
    );
    assert_eq!(chain_material(&Vec::new()), "");
}

#[test]
fn a_marked_page_has_its_shape() {
    assert_eq!(
        with_fingerprint("s-1", "abc", "  body\n\n"),
        "# Session s-1\n\n<!-- qm:compiled abc -->\n\nbody\n"
    );
    assert_eq!(
        fingerprint_of("<!-- qm:compiled  x y -->").as_deref(),
        Some("x y")
    );
    assert!(fingerprint_of("<!-- qm:compiled open").is_none());
}

#[test]
fn rules_and_pages_are_spelled_exactly() {
    let chain = vec![observation("s", "did it", -5)];
    assert_eq!(RuleCompiler.compile(&chain), "- [-5] tool_use (codex) did it\n");
    assert_eq!(RuleCompiler.name(), "rules");
    assert_eq!(
        render_session_page("s", &chain),
        "# Session s\n\nCompiled from 1 observation.\n\n- [-5] tool_use (codex) did it\n"
    );
    assert_eq!(
        render_session_page("s", &Vec::new()),
        "# Session s\n\nCompiled from 0 observations.\n\n"
    );
    assert_eq!(
        OpenAiCompatCompiler::prompt(&chain),
        "Compile these session observations into one page:\n\n[-5] tool_use (codex): did it\n"
    );
}

#[test]
fn a_compiler_needs_all_of_its_settings() {
    let some = |text: &str| Some(text.to_string());
    let made = OpenAiCompatCompiler::new("http://host//", "key", "model").unwrap();
    assert_eq!(made.endpoint(), "http://host/chat/completions");
    assert_eq!(made.name(), "llm");
    assert_eq!(
        OpenAiCompatCompiler::new("http://host", " ", "model").unwrap_err(),
        "llm compiler needs a base url, an api key and a model"
    );
    assert!(OpenAiCompatCompiler::from_env(&None, &None, &None).unwrap().is_none());
    assert!(OpenAiCompatCompiler::from_env(&some("  "), &None, &None).unwrap().is_none());
    assert_eq!(
        OpenAiCompatCompiler::from_env(&some("u"), &None, &some("m")).unwrap_err(),
        "QM_LLM_BASE_URL is set but QM_LLM_API_KEY is not"
    );
    assert_eq!(
        OpenAiCompatCompiler::from_env(&some("u"), &some("k"), &None).unwrap_err(),
        "QM_LLM_BASE_URL is set but QM_LLM_MODEL is not"
    );
    assert!(OpenAiCompatCompiler::from_env(&some("u"), &some(""), &some("m")).is_err());
    assert!(OpenAiCompatCompiler::from_env(&some("u"), &some("k"), &some("m"))
        .unwrap()
        .is_some());
}
