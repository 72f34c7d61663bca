//! The embeddings client, without sending requests.

use patterns::chunk::{pair_rows, ChunkOptions, SPECIAL_TOKEN_HEADROOM};
use patterns::embed_api::prompts::extract_prefixes;
use patterns::embed_api::response::{order_batches, order_response};
use patterns::embed_api::EmbeddingApi;
use patterns::float::F32;
use patterns::limits::ConcurrencyLimits;
use patterns::prefixes::Prefixes;
use patterns::retry::{HttpResponse, Outcome, RetryPolicy, Step};
use patterns::tokens::{context_window, token_count};
use serde_json::Value;
use std::time::Duration;

fn client() -> EmbeddingApi {
    EmbeddingApi::new(
        "https://example.test/v1/openai",
        "secret",
        "Qwen/Qwen3-Embedding-8B",
        ConcurrencyLimits::default(),
    )
}

fn json(text: &str) -> Value {
    serde_json::from_str(text).expect("JSON")
}

fn vector(values: &[f32]) -> Vec<F32> {
    values
        .iter()
        .map(|v| F32::from_bits(v.to_bits()))
        .collect()
}

fn strings(values: &[&str]) -> Vec<String> {
    values.iter().map(|v| (*v).to_owned()).collect()
}

fn options(max_tokens: usize, min_tokens: usize) -> ChunkOptions {
    ChunkOptions {
        max_tokens,
        overlap_tokens: 0,
        min_tokens,
        max_chunks: None,
    }
}

/// Minimal valid tokenizer.json (Whitespace pre-tokenizer + `WordLevel`).
const WORDLEVEL_TOKENIZER: &str = r#"{
  "version": "1.0",
  "truncation": null,
  "padding": null,
  "added_tokens": [],
  "normalizer": null,
  "pre_tokenizer": {"type": "Whitespace"},
  "post_processor": null,
  "decoder": null,
  "model": {
    "type": "WordLevel",
    "vocab": {"[UNK]": 0, "hello": 1, "world": 2},
    "unk_token": "[UNK]"
  }
}"#;

fn tokenizer() -> tokenizers::Tokenizer {
    tokenizers::Tokenizer::from_bytes(WORDLEVEL_TOKENIZER).expect("tokenizer")
}

/// A tokenizer that cannot encode unknown words: its unknown token is not in its vocabulary.
fn broken_tokenizer() -> tokenizers::Tokenizer {
    let text = WORDLEVEL_TOKENIZER.replace("\"unk_token\": \"[UNK]\"", "\"unk_token\": \"[NIL]\"");
    tokenizers::Tokenizer::from_bytes(text).expect("tokenizer")
}

#[test]
fn applies_query_and_document_prefixes() {
    let prefixes = Prefixes::new("Instruct: retrieve\nQuery:", "");
    let api = client().with_prefixes(&prefixes);
    let body = api.build_body(&vec![api.query_input("capital")]);
    assert_eq!(
        json(&body)["input"],
        json(r#"["Instruct: retrieve\nQuery:capital"]"#)
    );

    let pending = EmbeddingApi::plan_documents(&tokenizer(), &["hello world"], &options(16, 1))
        .expect("documents");
    let inputs = api.document_inputs(&pending);
    assert_eq!(
        inputs,
        vec!["hello world"],
        "empty document prefix leaves input unchanged"
    );
    let rows = pair_rows(pending, vec![vector(&[2.0])]);
    assert_eq!(rows.len(), 1);
    assert_eq!(rows[0].embedding, vector(&[2.0]));

    let api = api.with_prefixes(&Prefixes::new("", "doc: "));
    let pending = EmbeddingApi::plan_documents(&tokenizer(), &["hello world"], &options(16, 1))
        .expect("documents");
    assert_eq!(api.document_inputs(&pending), vec!["doc: hello world"]);
}

#[test]
fn chunks_documents_and_skips_short() {
    // doc0 "hello world" (2 tokens) -> two 1-token chunks; doc1 "hello" (1 token) is below
    // min_tokens and contributes nothing.
    let pending =
        EmbeddingApi::plan_documents(&tokenizer(), &["hello world", "hello"], &options(1, 2))
            .expect("documents");
    let api = client();
    let inputs = api.document_inputs(&pending);
    assert_eq!(api.batches(&inputs).len(), 1, "one batched request");
    let rows = pair_rows(pending, vec![vector(&[0.0]), vector(&[1.0])]);
    assert_eq!(rows.len(), 2);
    let first = rows.first().expect("first row");
    let second = rows.get(1).expect("second row");
    assert_eq!((first.doc_ix, first.chunk_ix), (0, 0));
    assert_eq!((second.doc_ix, second.chunk_ix), (0, 1));
    assert_eq!(first.chunk.text, "hello");
    assert_eq!(second.chunk.text, "world");
}

#[test]
fn documents_are_planned_in_full_by_a_tokenizer_that_truncates() {
    let text = WORDLEVEL_TOKENIZER.replace(
        "\"truncation\": null",
        r#""truncation": {"direction": "Right", "max_length": 1, "strategy": "LongestFirst", "stride": 1}"#,
    );
    let capped = tokenizers::Tokenizer::from_bytes(text).expect("tokenizer");
    assert_eq!(context_window(&capped), Some(1));
    let texts = ["hello world hello", "hello"];
    let pending = EmbeddingApi::plan_documents_in_full(&capped, &texts, &options(1, 2))
        .expect("documents");
    let planned: Vec<(usize, usize, &str)> = pending
        .iter()
        .map(|p| (p.doc_ix, p.chunk_ix, p.chunk.text.as_str()))
        .collect();
    assert_eq!(planned, [(0, 0, "hello"), (0, 1, "world"), (0, 2, "hello")]);
    let same = EmbeddingApi::plan_documents(&tokenizer(), &texts, &options(1, 2))
        .expect("documents");
    assert_eq!(
        client().document_inputs(&pending),
        client().document_inputs(&same)
    );
}

#[test]
fn documents_that_cannot_be_tokenized_fail() {
    let error =
        EmbeddingApi::plan_documents(&broken_tokenizer(), &["hello", "nope"], &options(1, 1))
            .expect_err("unknown word");
    assert!(error.message().starts_with("tokenize: "), "{error:?}");
    let counted = token_count(&broken_tokenizer(), "nope").expect_err("unknown word");
    assert!(counted.message().starts_with("tokenize: "), "{counted:?}");
}

#[test]
fn default_chunk_options_require_max_tokens() {
    let configured = client().with_max_tokens(512);
    let opts = configured.default_chunk_options().expect("opts");
    assert_eq!(opts.max_tokens, 512 - SPECIAL_TOKEN_HEADROOM);

    let unset = client();
    let error = unset.default_chunk_options().expect_err("must error");
    assert!(error.message().contains("not configured"), "{error:?}");

    let tiny = client().with_max_tokens(2);
    assert_eq!(tiny.default_chunk_options().expect("opts").max_tokens, 1);
}

#[test]
fn extract_prefixes_reads_named_keys() {
    let json = r#"{"prompts":{"query":"Q:","document":""}}"#;
    let prefixes = extract_prefixes(json, "query", "document").expect("prefixes");
    assert_eq!(prefixes.query, "Q:");
    assert_eq!(prefixes.document, "");

    let missing_key = extract_prefixes(json, "query", "passage").expect_err("missing key errors");
    assert!(missing_key.message().contains("passage"));
    assert_eq!(missing_key.message(), "prompts has no key `passage`");

    let no_prompts = extract_prefixes(r#"{"default_prompt_name":null}"#, "query", "document")
        .expect_err("absent prompts errors");
    assert!(no_prompts.message().contains("prompts"));
    assert_eq!(
        no_prompts.message(),
        "config_sentence_transformers.json has no `prompts` map"
    );
}

#[test]
fn malformed_prompts_are_rejected() {
    for text in [
        "{",
        "3",
        r#"{"prompts":[]}"#,
        r#"{"prompts":{"query":1,"document":""}}"#,
        "[{},{}]",
    ] {
        let error = extract_prefixes(text, "query", "document").expect_err("must fail");
        assert!(
            error
                .message()
                .starts_with("parse config_sentence_transformers.json: "),
            "{error:?}"
        );
    }
    let error = extract_prefixes(r#"{"prompts":null}"#, "q", "d").expect_err("must fail");
    assert!(error.message().contains("no `prompts` map"), "{error:?}");
    let listed = extract_prefixes(r#"[{"q":"é\n","d":"D"}]"#, "q", "d").expect("one member");
    assert_eq!(listed.query, "é\n");
    assert_eq!(listed.document, "D");
}

#[test]
fn sends_expected_request_body() {
    let api = client()
        .with_mrl_truncation(64)
        .with_service_tier("flex")
        .with_max_batch_size(2);
    let body = api.build_body(&vec![api.query_input("hello")]);

    assert_eq!(api.url(), "https://example.test/v1/openai/embeddings");
    assert_eq!(api.api_key(), "secret");
    assert_eq!(
        json(&body),
        json(
            r#"{
                "model": "Qwen/Qwen3-Embedding-8B",
                "input": ["hello"],
                "encoding_format": "float",
                "dimensions": 64,
                "service_tier": "flex"
            }"#
        )
    );
    assert_eq!(
        body,
        r#"{"model":"Qwen/Qwen3-Embedding-8B","input":["hello"],"encoding_format":"float","dimensions":64,"service_tier":"flex"}"#
    );
}

#[test]
fn omits_dimensions_and_service_tier_when_unset() {
    let api = client();
    let body = api.build_body(&vec![api.query_input("hello")]);
    assert_eq!(
        json(&body),
        json(
            r#"{
                "model": "Qwen/Qwen3-Embedding-8B",
                "input": ["hello"],
                "encoding_format": "float"
            }"#
        )
    );
}

#[test]
fn inputs_are_escaped() {
    let texts = strings(&["\"\\\u{8}\t\n\u{c}\r\u{0}\u{1f}\u{7f}/é\u{1f600}", "b"]);
    let body = client().build_body(&texts);
    let sent: Vec<String> = json(&body)["input"]
        .as_array()
        .expect("list")
        .iter()
        .map(|v| v.as_str().expect("text").to_owned())
        .collect();
    assert_eq!(sent, texts);
    assert!(
        body.contains(r#"["\"\\\b\t\n\f\r\u0000\u001f"#),
        "short escapes and lower-case hex: {body}"
    );
}

#[test]
fn restores_index_order() {
    let out = order_response(vec![(1, vector(&[1.0, 1.1])), (0, vector(&[0.0, 0.1]))], 2)
        .expect("embed");
    assert_eq!(out, vec![vector(&[0.0, 0.1]), vector(&[1.0, 1.1])]);
}

#[test]
fn splits_into_batches_and_preserves_order() {
    let api = client().with_max_batch_size(2);
    let batches = api.batches(&strings(&["a", "b", "c", "d", "e"]));
    assert_eq!(batches.len(), 3, "one request per batch");
    assert_eq!(
        batches,
        vec![
            strings(&["a", "b"]),
            strings(&["c", "d"]),
            strings(&["e"])
        ]
    );
    // the batches end in any order
    let out = order_batches(vec![
        (2, vec![vector(&[4.0])]),
        (0, vec![vector(&[0.0]), vector(&[1.0])]),
        (1, vec![vector(&[2.0]), vector(&[3.0])]),
    ]);
    let want: Vec<Vec<F32>> = [0.0, 1.0, 2.0, 3.0, 4.0]
        .iter()
        .map(|v| vector(&[*v]))
        .collect();
    assert_eq!(out, want);
}

fn embeddings_step(policy: &RetryPolicy, attempt: usize, status: u16, body: &str) -> Step {
    let response = HttpResponse {
        status,
        body: body.to_owned(),
    };
    policy.step("embeddings", attempt, Outcome::Response(response))
}

#[test]
fn retries_transient_then_succeeds() {
    let policy = client().retry();
    match embeddings_step(&policy, 1, 429, "slow down") {
        Step::Retry(backoff) => assert_eq!(backoff, Duration::from_millis(250)),
        other => panic!("must retry: {other:?}"),
    }
    match embeddings_step(&policy, 2, 200, "{}") {
        Step::Done(response) => assert_eq!(response.body, "{}"),
        other => panic!("must succeed: {other:?}"),
    }
}

#[test]
fn fails_fast_on_payload_error() {
    match embeddings_step(&client().retry(), 1, 400, "bad input") {
        Step::Fail(error) => {
            assert!(error.message().contains("400"), "error: {error:?}");
            assert_eq!(
                error.message(),
                "embeddings returned HTTP 400: bad input"
            );
        }
        other => panic!("no retry on 4xx: {other:?}"),
    }
}

#[test]
fn rejects_short_response() {
    let error = order_response(vec![(0, vector(&[1.0]))], 2).expect_err("must fail");
    assert!(error.message().contains("expected 2"), "error: {error:?}");
    assert_eq!(
        error.message(),
        "embeddings response has 1 items, expected 2"
    );
}

#[test]
fn rejects_gaps_and_repeats() {
    let gap = order_response(vec![(2, vector(&[1.0])), (0, vector(&[1.0]))], 2);
    assert_eq!(
        gap.expect_err("gap").message(),
        "embeddings response index 2 out of order at position 1"
    );
    let repeat = order_response(vec![(0, vector(&[1.0])), (0, vector(&[1.0]))], 2);
    assert_eq!(
        repeat.expect_err("repeat").message(),
        "embeddings response index 0 out of order at position 1"
    );
}

#[test]
fn empty_input_makes_no_request() {
    assert!(client().batches(&Vec::new()).is_empty());
    assert!(order_batches(Vec::new()).is_empty());
    let pending = EmbeddingApi::plan_documents(&tokenizer(), &["", "hello"], &options(8, 2))
        .expect("documents");
    assert!(pending.is_empty());
    assert!(client().document_inputs(&pending).is_empty());
}

#[test]
fn embed_api_debug_redacts_api_key() {
    let rendered = format!("{:?}", client().redacted());
    assert!(rendered.contains("<redacted>"), "debug: {rendered}");
    assert!(!rendered.contains("secret"), "debug: {rendered}");
}

#[test]
fn token_count_uses_configured_tokenizer() {
    let tokenizer = tokenizer();
    assert_eq!(token_count(&tokenizer, "hello world").expect("count"), 2);
    assert_eq!(token_count(&tokenizer, "hello").expect("count"), 1);
    assert_eq!(token_count(&tokenizer, "unknown").expect("count"), 1);
}

#[test]
fn token_count_without_tokenizer_errors() {
    let error = client()
        .tokenizer_source()
        .map(str::to_owned)
        .expect_err("must error");
    assert!(error.message().contains("not configured"), "{error:?}");
}

#[test]
fn hf_repo_tokenizer_requires_hf_home() {
    let api = client().with_tokenizer("Qwen/Qwen3-Embedding-8B");
    assert_eq!(
        api.tokenizer_source().expect("source"),
        "Qwen/Qwen3-Embedding-8B"
    );
    let error = api.hf_home().map(str::to_owned).expect_err("must error");
    assert!(
        error.message().contains("hf_home not configured"),
        "{error:?}"
    );
    assert_eq!(
        api.with_hf_home("/cache").hf_home().expect("home"),
        "/cache"
    );
}

#[test]
fn builders_and_accessors() {
    let api = client();
    assert_eq!(api.model(), "Qwen/Qwen3-Embedding-8B");
    assert_eq!(api.limits().max_concurrent_calls, 2);
    assert_eq!(api.retry().max_attempts, 3);
    let api = api.with_retry_policy(RetryPolicy::none()).clone();
    assert_eq!(api.retry().max_attempts, 1);
    let shown = api.with_mrl_truncation(32).redacted();
    assert_eq!(shown.dims, Some(32));
    assert_eq!(shown.max_batch_size, 256);
    assert_eq!(shown.service_tier, None);
    assert_eq!(shown.base_url, "https://example.test/v1/openai");
}
