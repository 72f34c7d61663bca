//! Load-time guards, identity, chunking and the fake embedder.

use patterns::chunk::{chunk_spans, fake_token_spans, ChunkOptions, TextChunk};
use patterns::chunk::{pair_rows, SPECIAL_TOKEN_HEADROOM};
use patterns::embed::fake::{fake_numbers, fnv1a, splitmix64};
use patterns::embed::graph::{model_id, validate_graph, GraphDesc};
use patterns::embed::quantize::{binarize, packed_len};
use patterns::embed::spec::{ModelSpec, Pooling, PoolingMeta, TruncatedDims};
use patterns::embed::{only_vector, Embedder, LoadOptions, FAKE_MODEL_ID};
use patterns::float::F32;
use patterns::num::NonZeroUsize;
use patterns::prefixes::Prefixes;
use patterns::tokens::{context_window, token_count, without_truncation};

const SHA: &str = "0123456789abcdef0123456789abcdef01234567";

fn spec() -> ModelSpec {
    ModelSpec::new("org/repo", SHA, "onnx/model.onnx", 768).expect("valid spec")
}

fn desc(inputs: &[&str], outputs: &[(&str, usize)]) -> GraphDesc {
    GraphDesc {
        inputs: inputs.iter().map(|s| (*s).to_string()).collect(),
        outputs: outputs
            .iter()
            .map(|(name, rank)| ((*name).to_string(), *rank))
            .collect(),
    }
}

fn meta_cls() -> PoolingMeta {
    PoolingMeta {
        cls: true,
        include_prompt: Some(true),
        ..PoolingMeta::default()
    }
}

fn bits(values: &[f32]) -> Vec<F32> {
    values
        .iter()
        .map(|value| F32::from_bits(value.to_bits()))
        .collect()
}

/// The fake vector of a text: its numbers, mapped to [-1, 1).
fn embedding_for(text: &str, dim: usize) -> Vec<F32> {
    let values: Vec<f32> = fake_numbers(text, dim)
        .into_iter()
        .map(|v| (v as f32 / u64::MAX as f32).mul_add(2.0, -1.0))
        .map(|v| v.min(1.0 - f32::EPSILON / 2.0))
        .collect();
    bits(&values)
}

/// What running a fake model comes to.
fn embed(embedder: &Embedder, texts: &[&str]) -> Vec<Vec<F32>> {
    let rows = texts
        .iter()
        .map(|text| embedding_for(text, embedder.native_dim()))
        .collect();
    embedder.stored(rows)
}

// ---- the guards ----------------------------------------------------------------------------

#[test]
fn validate_graph_rejects_inputs_fastembed_cannot_feed() {
    let desc = desc(
        &["input_ids", "attention_mask", "position_ids"],
        &[("last_hidden_state", 3)],
    );
    let error = validate_graph(&desc, &spec().with_pooling(Pooling::Cls), None, None)
        .expect_err("position_ids cannot be fed");
    assert!(error.message().contains("position_ids"), "{error:?}");
}

#[test]
fn validate_graph_rejects_outputs_that_are_no_tensors() {
    let only = desc(&["input_ids"], &[("seq", 0)]);
    let error = validate_graph(&only, &spec(), None, None).expect_err("no tensor");
    assert_eq!(error.message(), "output `seq` is not a tensor");
    let both = desc(&["input_ids"], &[("seq", 0), ("pooled", 2)]);
    let error = validate_graph(&both, &spec().with_output("seq"), None, None)
        .expect_err("no tensor");
    assert_eq!(error.message(), "output `seq` is not a tensor");
    let selected = validate_graph(&both, &spec().with_output("pooled"), None, None)
        .expect("another output is a tensor");
    assert_eq!(selected.name, "pooled");
}

#[test]
fn validate_graph_requires_an_explicit_output_on_a_multi_output_graph() {
    let desc = desc(
        &["input_ids", "attention_mask"],
        &[("last_hidden_state", 3), ("sentence_embedding", 2)],
    );
    let error =
        validate_graph(&desc, &spec(), None, None).expect_err("two outputs must be disambiguated");
    assert!(error.message().contains("with_output"), "{error:?}");
    assert_eq!(
        error.message(),
        "graph has 2 outputs (last_hidden_state:3D, sentence_embedding:2D); declare one with `with_output(name)`"
    );
}

#[test]
fn validate_graph_rejects_an_unknown_output_name() {
    let desc = desc(&["input_ids"], &[("sentence_embedding", 2)]);
    let error = validate_graph(&desc, &spec().with_output("text_embeds"), None, None)
        .expect_err("declared name must exist");
    assert!(error.message().contains("text_embeds"), "{error:?}");
}

#[test]
fn validate_graph_requires_pooling_for_a_token_level_output() {
    let desc = desc(&["input_ids"], &[("last_hidden_state", 3)]);
    let error = validate_graph(&desc, &spec(), None, None)
        .expect_err("3-D output needs a declared pooling");
    assert!(error.message().contains("with_pooling"), "{error:?}");
}

#[test]
fn validate_graph_accepts_a_single_token_level_output_with_pooling() {
    let desc = desc(
        &["input_ids", "attention_mask"],
        &[("last_hidden_state", 3)],
    );
    let selected = validate_graph(&desc, &spec().with_pooling(Pooling::Cls), None, None)
        .expect("3-D + declared pooling is fine");
    assert_eq!(selected.name, "last_hidden_state");
    assert_eq!(selected.pooling, Some(Pooling::Cls));
    assert!(!selected.mrl_from_metadata);
}

#[test]
fn validate_graph_accepts_a_pre_pooled_output_without_pooling() {
    let desc = desc(
        &["input_ids", "attention_mask"],
        &[("last_hidden_state", 3), ("sentence_embedding", 2)],
    );
    let selected = validate_graph(&desc, &spec().with_output("sentence_embedding"), None, None)
        .expect("2-D pooled output needs no pooling");
    assert_eq!(selected.pooling, None);
}

#[test]
fn validate_graph_allows_lasttoken_metadata_for_a_pre_pooled_output() {
    let desc = desc(&["input_ids"], &[("sentence_embedding", 2)]);
    let meta = PoolingMeta {
        lasttoken: true,
        ..PoolingMeta::default()
    };
    validate_graph(&desc, &spec(), Some(&meta), None)
        .expect("pre-pooled output is unaffected by pooling metadata");
}

#[test]
fn validate_graph_cross_checks_declared_pooling_against_metadata() {
    let desc = desc(&["input_ids"], &[("last_hidden_state", 3)]);
    validate_graph(
        &desc,
        &spec().with_pooling(Pooling::Cls),
        Some(&meta_cls()),
        None,
    )
    .expect("declared Cls matches 1_Pooling");

    let error = validate_graph(
        &desc,
        &spec().with_pooling(Pooling::Mean),
        Some(&meta_cls()),
        None,
    )
    .expect_err("Mean contradicts 1_Pooling");
    assert!(error.message().contains("contradicts"), "{error:?}");
    assert_eq!(
        error.message(),
        "declared Mean contradicts 1_Pooling (cls: true, mean: false)"
    );
}

#[test]
fn validate_graph_rejects_unsupported_or_prompt_masking_metadata() {
    let desc = desc(&["input_ids"], &[("last_hidden_state", 3)]);
    let pooling = spec().with_pooling(Pooling::Cls);

    for meta in [
        PoolingMeta {
            cls: true,
            lasttoken: true,
            ..PoolingMeta::default()
        },
        PoolingMeta {
            cls: true,
            max: true,
            ..PoolingMeta::default()
        },
        PoolingMeta {
            cls: true,
            include_prompt: Some(false),
            ..PoolingMeta::default()
        },
    ] {
        assert!(
            validate_graph(&desc, &pooling, Some(&meta), None).is_err(),
            "unsupported metadata must fail the load: {meta:?}"
        );
    }
}

#[test]
fn validate_graph_guards_truncation_against_declared_mrl_widths() {
    let desc = desc(&["input_ids"], &[("last_hidden_state", 3)]);
    let pooling = spec().with_pooling(Pooling::Cls);
    let truncated = pooling.with_truncated_dims(TruncatedDims::new(256).expect("256 ok"));

    let selected = validate_graph(&desc, &truncated, None, Some(&[256])).expect("declared MRL");
    assert!(
        selected.mrl_from_metadata,
        "width came from matryoshka_dimensions"
    );

    let selected = validate_graph(&desc, &truncated, None, None).expect("no declaration");
    assert!(
        !selected.mrl_from_metadata,
        "the request itself is the claim"
    );

    let error = validate_graph(&desc, &truncated, None, Some(&[512, 128]))
        .expect_err("256 is not a declared MRL width");
    assert_eq!(
        error.message(),
        "truncated width 256 is not among the declared matryoshka_dimensions [512, 128]"
    );
    assert!(
        validate_graph(&desc, &truncated, None, Some(&[512])).is_err(),
        "256 is not a declared MRL width"
    );
}

// ---- identity ------------------------------------------------------------------------------

#[test]
fn model_id_carries_revision_width_and_mrl_source() {
    let base = spec();
    assert_eq!(
        model_id(&base, false),
        format!("org/repo/onnx/model.onnx@{SHA}#d768")
    );

    let truncated = base.with_truncated_dims(TruncatedDims::new(256).expect("256 ok"));
    assert_eq!(
        model_id(&truncated, true),
        format!("org/repo/onnx/model.onnx@{SHA}#d256/meta")
    );
    assert_eq!(
        model_id(&truncated, false),
        format!("org/repo/onnx/model.onnx@{SHA}#d256/spec")
    );
}

#[test]
fn identities_tell_models_apart() {
    let truncated = |dims| spec().with_truncated_dims(TruncatedDims::new(dims).expect("valid"));
    let other = ModelSpec::new("org/repo", &SHA.replace('0', "f"), "onnx/model.onnx", 768);
    let ids = [
        model_id(&spec(), false),
        model_id(&truncated(256), true),
        model_id(&truncated(256), false),
        model_id(&truncated(128), false),
        model_id(&other.expect("valid spec"), false),
    ];
    for (i, a) in ids.iter().enumerate() {
        for b in &ids[i + 1..] {
            assert_ne!(a, b);
        }
    }
}

#[test]
fn load_options_default_and_override() {
    let options = LoadOptions::new(spec());
    assert_eq!(options.intra_threads, None);
    assert_eq!(options.prefixes.query, "");
    assert!(options.show_download_progress);

    let options = options
        .with_intra_threads(4)
        .with_prefixes(&Prefixes::query_only("q: "))
        .with_show_download_progress(false)
        .clone();
    assert_eq!(options.spec.repo(), "org/repo");
    assert_eq!(options.intra_threads, Some(4));
    assert_eq!(options.prefixes.query, "q: ");
    assert_eq!(options.prefixes.document, "");
    assert!(!options.show_download_progress);
}

fn tokenizer() -> tokenizers::Tokenizer {
    let text = r#"{
      "version": "1.0",
      "truncation": {"direction": "Right", "max_length": 128, "strategy": "LongestFirst", "stride": 0},
      "padding": null,
      "added_tokens": [],
      "normalizer": null,
      "pre_tokenizer": {"type": "Whitespace"},
      "post_processor": null,
      "decoder": null,
      "model": {
        "type": "WordLevel",
        "vocab": {"[UNK]": 0, "hello": 1, "world": 2},
        "unk_token": "[UNK]"
      }
    }"#;
    tokenizers::Tokenizer::from_bytes(text).expect("tokenizer")
}

fn loaded(spec: &ModelSpec, probe: Option<usize>) -> Result<Embedder, String> {
    let desc = desc(&["input_ids"], &[("sentence_embedding", 2)]);
    let selected = validate_graph(&desc, spec, None, None).expect("guards pass");
    let prefixes = Prefixes::new("q: ", "d: ");
    Embedder::loaded(spec, &selected, probe, &prefixes, &tokenizer())
        .map_err(|error| error.message().to_owned())
}

#[test]
fn loading_checks_the_probed_width() {
    let message = |spec: &ModelSpec, probe| match loaded(spec, probe) {
        Ok(_) => String::new(),
        Err(message) => message,
    };
    assert_eq!(
        message(&spec(), None),
        "the model returned no probe embedding"
    );
    assert_eq!(
        message(&spec(), Some(512)),
        "native width 512 does not match the declared dim 768"
    );
    let odd = ModelSpec::new("org/repo", SHA, "m.onnx", 770).expect("valid spec");
    assert_eq!(
        message(&odd, Some(770)),
        "native width 770 is not a multiple of 8 (8 sign bits per byte)"
    );
    let wide = spec().with_truncated_dims(TruncatedDims::new(1024).expect("1024 ok"));
    assert_eq!(
        message(&wide, Some(768)),
        "truncated width 1024 exceeds the native width 768"
    );
}

#[test]
fn loaded_embedders_use_their_tokenizer() {
    let narrow = spec().with_truncated_dims(TruncatedDims::new(256).expect("256 ok"));
    let embedder = loaded(&narrow, Some(768)).expect("loads");
    assert_eq!(embedder.dim(), 256);
    assert_eq!(embedder.native_dim(), 768);
    assert_eq!(
        embedder.model_id(),
        format!("org/repo/onnx/model.onnx@{SHA}#d256/spec")
    );
    assert_eq!(embedder.model_max_tokens(), 128);
    assert_eq!(embedder.default_chunk_options().max_tokens, 126);
    assert_eq!(embedder.token_count("hello, world").expect("count"), 3);
    let spans = embedder.token_spans("hello, world").expect("spans");
    let pairs: Vec<(usize, usize)> = spans.iter().map(|s| (s.start, s.end)).collect();
    assert_eq!(pairs, vec![(0, 5), (5, 6), (7, 12)]);
    assert_eq!(embedder.prefixed_query("x"), "q: x");
    assert_eq!(embedder.prefixed_document("x"), "d: x");
    assert!(!embedder.is_fake());
}

#[test]
fn counts_are_never_capped_but_the_model_truncates() {
    let embedder = loaded(&spec(), Some(768)).expect("loads");
    let long = "hello ".repeat(1_000);
    assert_eq!(embedder.token_count(&long).expect("count"), 1_000);
    assert_eq!(embedder.token_spans(&long).expect("spans").len(), 1_000);
    // a tokenizer that truncates is left as it is
    let model = tokenizer();
    assert_eq!(context_window(&model), Some(128));
    let free = without_truncation(&model).expect("copy");
    assert_eq!(context_window(&free), None);
    assert_eq!(token_count(&free, &long).expect("count"), 1_000);
    assert_eq!(context_window(&model), Some(128));
    assert_eq!(
        model.encode(long.as_str(), false).expect("encodes").len(),
        128
    );
}

#[test]
fn real_token_count_is_not_truncated() {
    let e = loaded(&spec(), Some(768)).expect("loads");
    let long = "word ".repeat(2_000);
    let count = e.token_count(&long).expect("count");
    assert!(
        count > 1000,
        "count must reflect the whole text, not the ctx window ({count})"
    );
    assert!(e.model_max_tokens() > 0);
}

#[test]
fn token_count_counts_every_word_and_empty_input() {
    let e = loaded(&spec(), Some(768)).expect("loads");
    assert_eq!(
        e.token_count("").expect("count"),
        0,
        "empty text has no tokens"
    );
    let text = "hello world foo bar baz qux";
    let n = e.token_count(text).expect("count");
    let words = text.split_whitespace().count();
    assert!(
        n >= words,
        "every English word is at least one token (count {n} < {words} words)"
    );
    assert_eq!(
        e.token_count(text).expect("count"),
        n,
        "counting is deterministic"
    );
    assert_eq!(e.context_window(), Some(128));
}

#[test]
fn fake_embedder_reports_effective_and_native_widths() {
    let plain = Embedder::fake(64);
    assert_eq!(plain.dim(), 64);
    assert_eq!(plain.native_dim(), 64);
    assert_eq!(plain.model_id(), FAKE_MODEL_ID);

    let truncated = Embedder::fake_truncated(64, TruncatedDims::new(32).expect("32 ok"));
    assert_eq!(truncated.dim(), 32, "effective width");
    assert_eq!(truncated.native_dim(), 64, "native width is unchanged");
}

// ---- truncation ----------------------------------------------------------------------------

#[test]
fn truncation_slices_after_normalization_without_renormalizing() {
    let full = Embedder::fake(64);
    let truncated = Embedder::fake_truncated(64, TruncatedDims::new(32).expect("32 ok"));

    let full_vector = only_vector(embed(&full, &["some text"])).expect("embed");
    let cut_vector = only_vector(embed(&truncated, &["some text"])).expect("embed");

    assert_eq!(cut_vector.len(), 32);
    assert_eq!(
        cut_vector,
        full_vector[..32].to_vec(),
        "truncation is a plain prefix of the pooled vector"
    );
}

#[test]
fn an_empty_batch_has_no_vector() {
    let error = only_vector(Vec::new()).expect_err("nothing to take");
    assert_eq!(error.message(), "expected one embedding, got none");
}

// ---- chunking ------------------------------------------------------------------------------

/// Chunking via the fake tokenizer (white-space spans).
fn fake_chunks(text: &str, opts: &ChunkOptions) -> Vec<TextChunk> {
    chunk_spans(text, &fake_token_spans(text), opts)
}

#[test]
fn default_chunk_options_fit_the_model_window() {
    let e = Embedder::fake(8);
    let opts = e.default_chunk_options();
    assert_eq!(
        opts.max_tokens,
        e.model_max_tokens() - SPECIAL_TOKEN_HEADROOM
    );
    assert_eq!(opts.overlap_tokens, 64);
    assert_eq!(opts.min_tokens, 5);
}

#[test]
fn fake_token_count_is_approximate_and_monotonic() {
    let e = Embedder::fake(8);
    assert_eq!(e.token_count("").expect("count"), 0);
    assert_eq!(e.token_count("   ").expect("count"), 0);
    assert_eq!(e.token_count("one two three").expect("count"), 3);
    assert!(e.token_count("a b c d e").expect("count") > e.token_count("a b").expect("count"));
    assert_eq!(e.model_max_tokens(), 512);
}

#[test]
fn chunk_short_text_is_single_span_equal_to_input() {
    let opts = ChunkOptions::new(500);
    let chunks = fake_chunks("  hello world  ", &opts);
    assert_eq!(chunks.len(), 1);
    assert_eq!(chunks[0].text, "hello world");
    assert_eq!(chunks[0].tokens, 2);
    assert_eq!(chunks[0].byte_start, 2);
    assert_eq!(chunks[0].byte_end, 13);
}

#[test]
fn chunk_splits_within_max_tokens_and_covers_all_content() {
    let text = "w0 w1 w2 w3 w4 w5 w6 w7 w8 w9";
    let opts = ChunkOptions {
        max_tokens: 3,
        overlap_tokens: 1,
        min_tokens: 1,
        max_chunks: None,
    };
    let chunks = fake_chunks(text, &opts);
    assert!(chunks.len() > 1, "long text must split");
    for c in &chunks {
        assert!(c.tokens <= opts.max_tokens, "chunk exceeds max_tokens");
        assert_eq!(&text[c.byte_start..c.byte_end], c.text);
    }
    for word in fake_token_spans(text) {
        let covered = chunks
            .iter()
            .any(|c| c.byte_start <= word.start && word.end <= c.byte_end);
        assert!(covered, "word at {}..{} not covered", word.start, word.end);
    }
    assert_eq!(chunks.last().expect("chunks").byte_end, text.len());
}

#[test]
fn chunk_prefers_paragraph_break() {
    let text = "aa bb\n\ncc dd";
    let opts = ChunkOptions {
        max_tokens: 3,
        overlap_tokens: 0,
        min_tokens: 1,
        max_chunks: None,
    };
    let chunks = fake_chunks(text, &opts);
    assert_eq!(
        chunks[0].text, "aa bb",
        "breaks at the paragraph, not mid-way"
    );
    assert_eq!(chunks[1].text, "cc dd");
}

#[test]
fn chunk_makes_progress_with_large_overlap() {
    let text = "a b c d e";
    let opts = ChunkOptions {
        max_tokens: 1,
        overlap_tokens: 64,
        min_tokens: 1,
        max_chunks: None,
    };
    let chunks = fake_chunks(text, &opts);
    assert_eq!(chunks.len(), 5, "one chunk per token, no stalls");
    assert!(chunks.windows(2).all(|w| w[0].byte_start < w[1].byte_start));
}

#[test]
fn max_chunks_caps_emitted_chunks() {
    let text = "w0 w1 w2 w3 w4 w5 w6 w7 w8 w9";
    let base = ChunkOptions {
        max_tokens: 3,
        overlap_tokens: 0,
        min_tokens: 1,
        max_chunks: None,
    };
    let uncapped = fake_chunks(text, &base);
    assert!(uncapped.len() > 1, "long text must split when uncapped");

    let capped = fake_chunks(
        text,
        &ChunkOptions {
            max_chunks: NonZeroUsize::new(1),
            ..base
        },
    );
    assert_eq!(capped.len(), 1, "cap keeps only the first window");
    assert_eq!(capped[0].text, uncapped[0].text);
}

#[test]
fn real_chunking_covers_the_tail() {
    let text = (0..1_200).fold(String::new(), |mut acc, i| {
        acc.push_str("token");
        acc.push_str(&i.to_string());
        acc.push(' ');
        acc
    });
    let text = text.trim();
    let opts = ChunkOptions {
        max_tokens: 200,
        overlap_tokens: 32,
        min_tokens: 1,
        max_chunks: None,
    };
    let embedder = loaded(&spec(), Some(768)).expect("loads");
    let chunks = embedder
        .chunk(text, &opts)
        .expect("tokenizer-exact chunking");
    assert!(chunks.len() >= 5, "1200 tokens / 200 = 6 chunks");
    for c in &chunks {
        assert!(
            c.tokens <= opts.max_tokens,
            "chunk tokens {} > max",
            c.tokens
        );
        assert_eq!(&text[c.byte_start..c.byte_end], c.text);
    }
    assert_eq!(chunks.last().expect("chunks").byte_end, text.len());
    assert!(
        chunks.last().expect("chunks").text.contains("token1199"),
        "tail content must survive chunking"
    );
}

#[test]
fn batch_chunks_are_positional_and_gate_short_texts() {
    let e = Embedder::fake(8);
    let opts = ChunkOptions::new(500); // min_tokens = 5
    let long = "x ".repeat(600).trim().to_string();
    let texts = [
        "one two",     // 0: below min -> skipped
        "a b c d e f", // 1: one chunk
        long.as_str(), // 2: many chunks
        "hi",          // 3: trailing skip (leaves no trace)
    ];
    let pending = e.plan_documents(&texts, &opts).expect("plan");
    let inputs = e.document_inputs(&pending);
    let refs: Vec<&str> = inputs.iter().map(String::as_str).collect();
    let out = pair_rows(pending, embed(&e, &refs));
    // doc 0 is below min_tokens -> contributes nothing; docs 1 and 2 do
    assert!(!out.is_empty());
    assert!(
        out.iter().all(|c| c.doc_ix != 0),
        "short doc must be absent"
    );
    let doc1: Vec<_> = out.iter().filter(|c| c.doc_ix == 1).collect();
    let doc2: Vec<_> = out.iter().filter(|c| c.doc_ix == 2).collect();
    assert_eq!(doc1.len(), 1, "short-ish doc yields one chunk");
    assert!(doc2.len() > 1, "long doc yields multiple chunks");
    assert!(doc1[0].chunk_ix == 0 && doc2.iter().enumerate().all(|(i, c)| c.chunk_ix == i));
    let mut seen: Vec<usize> = out.iter().map(|c| c.doc_ix).collect();
    seen.dedup();
    assert_eq!(
        seen,
        vec![1, 2],
        "only docs with enough tokens produce rows"
    );
    // rows come out ordered by (doc_ix, chunk_ix): groupable without sorting
    let order: Vec<(usize, usize)> = out.iter().map(|c| (c.doc_ix, c.chunk_ix)).collect();
    let mut sorted = order.clone();
    sorted.sort_unstable();
    assert_eq!(order, sorted, "row order is (doc_ix, chunk_ix)");
    for c in &out {
        assert_eq!(
            c.embedding,
            embedding_for(&c.chunk.text, 8),
            "unprefixed fake vector"
        );
    }
}

#[test]
fn batch_respects_max_chunks_per_document() {
    let e = Embedder::fake(8);
    let mut opts = ChunkOptions::new(3);
    opts.min_tokens = 1;
    opts.overlap_tokens = 0;
    opts.max_chunks = NonZeroUsize::new(1);
    let texts = ["w0 w1 w2 w3 w4 w5 w6 w7 w8 w9", "x0 x1 x2 x3 x4 x5"];
    let out = e.plan_documents(&texts, &opts).expect("batch");
    // exactly one row per doc, nothing beyond the first window
    assert_eq!(out.len(), 2, "one chunk per document");
    assert!(out.iter().all(|c| c.chunk_ix == 0));
    assert_eq!(out.iter().map(|c| c.doc_ix).collect::<Vec<_>>(), vec![0, 1]);
}

#[test]
fn document_prefix_is_applied_to_every_chunk() {
    let prefixes = Prefixes::new("search_query: ", "search_document: ");
    let e = Embedder::fake_with_prefixes(8, &prefixes);
    let opts = ChunkOptions {
        max_tokens: 3,
        overlap_tokens: 0,
        min_tokens: 1,
        max_chunks: None,
    };
    let pending = e
        .plan_documents(&["aa bb cc dd ee"], &opts)
        .expect("chunks");
    let inputs = e.document_inputs(&pending);
    let refs: Vec<&str> = inputs.iter().map(String::as_str).collect();
    let chunks = pair_rows(pending, embed(&e, &refs));
    assert!(chunks.len() > 1);
    for c in &chunks {
        assert_eq!(
            c.embedding,
            embedding_for(&format!("search_document: {}", c.chunk.text), 8)
        );
    }
}

// ---- quantization --------------------------------------------------------------------------

#[test]
fn packed_len_rounds_up_to_bytes() {
    assert_eq!(packed_len(0), 0);
    assert_eq!(packed_len(1), 1);
    assert_eq!(packed_len(8), 1);
    assert_eq!(packed_len(9), 2);
    assert_eq!(packed_len(1024), 128);
}

#[test]
fn binarize_packs_signs_lsb_first() {
    // dim 0 positive -> bit 0 set; dim 1 negative -> unset
    assert_eq!(binarize(&bits(&[1.0, -1.0])), vec![0b0000_0001]);
    // zeros are not "positive"
    assert_eq!(binarize(&bits(&[0.0, 0.0])), vec![0b0000_0000]);
    // nine dims -> two bytes, dim 8 in the second byte's bit 0
    let packed = binarize(&bits(&[1.0, -1.0, 1.0, -1.0, 1.0, -1.0, 1.0, -1.0, 1.0]));
    assert_eq!(packed, vec![0b0101_0101, 0b0000_0001]);
}

#[test]
fn binarize_agrees_with_the_sign_of_every_kind_of_number() {
    let values = [
        f32::MIN_POSITIVE,
        f32::from_bits(1),
        f32::INFINITY,
        f32::NAN,
        -f32::NAN,
        -0.0,
        f32::NEG_INFINITY,
        f32::MAX,
    ];
    let mut expected = 0_u8;
    for (ix, value) in values.iter().enumerate() {
        if *value > 0.0 {
            expected |= 1 << ix;
        }
    }
    assert_eq!(binarize(&bits(&values)), vec![expected]);
}

#[test]
fn binarize_of_1024_dims_is_128_bytes() {
    let v = vec![1.0_f32; 1024];
    assert_eq!(binarize(&bits(&v)).len(), 128);
}

// ---- the fake embedder ---------------------------------------------------------------------

#[test]
fn fake_embed_is_deterministic_and_correct_dim() {
    const TEST_DIM: usize = 768;
    let e = Embedder::fake(TEST_DIM);
    let a = embed(&e, &["rust backend role"]).remove(0);
    let b = embed(&e, &["rust backend role"]).remove(0);
    assert_eq!(a.len(), TEST_DIM);
    assert_eq!(a, b);

    let c = embed(&e, &["different text"]).remove(0);
    assert_ne!(a, c);
}

#[test]
fn embed_batch_matches_individual() {
    let e = Embedder::fake(16);
    let batch = embed(&e, &["a", "b", "c"]);
    let a = embed(&e, &["a"]).remove(0);
    let b = embed(&e, &["b"]).remove(0);
    let c = embed(&e, &["c"]).remove(0);
    assert_eq!(batch, vec![a, b, c]);
}

#[test]
fn narrowed_batches_match_individual_texts() {
    let narrow = Embedder::fake_truncated(64, TruncatedDims::new(32).expect("32 ok"));
    let texts = ["a", "b", "", "a"];
    let batch = embed(&narrow, &texts);
    assert_eq!(batch.len(), 4);
    for (row, text) in batch.iter().zip(texts) {
        assert_eq!(row.len(), narrow.dim());
        assert_eq!(*row, embed(&narrow, &[text]).remove(0));
        assert_eq!(*row, embedding_for(text, 32), "no number changes");
    }
}

#[test]
fn const_helpers_are_deterministic() {
    assert_eq!(fnv1a("x"), fnv1a("x"));
    let mut s1 = 42_u64;
    let mut s2 = 42_u64;
    assert_eq!(splitmix64(&mut s1), splitmix64(&mut s2));
    let v = embedding_for("seed", 4);
    assert_eq!(v, embedding_for("seed", 4));
    assert!(v
        .iter()
        .all(|x| (-1.0..1.0).contains(&f32::from_bits(x.to_bits()))));
}

#[test]
fn hashes_and_streams_have_their_known_values() {
    assert_eq!(fnv1a(""), 0xcbf2_9ce4_8422_2325);
    let one_byte = (0xcbf2_9ce4_8422_2325_u64 ^ 0x61).wrapping_mul(0x0100_0193);
    assert_eq!(fnv1a("a"), one_byte);
    // the first numbers of splitmix64 seeded with zero
    let mut seed = 0_u64;
    assert_eq!(splitmix64(&mut seed), 0xe220_a839_7b1d_cdaf);
    assert_eq!(splitmix64(&mut seed), 0x6e78_9e6a_a1b9_65f4);
    let mut seed = fnv1a("seed");
    let numbers = fake_numbers("seed", 2);
    assert_eq!(
        numbers,
        vec![splitmix64(&mut seed), splitmix64(&mut seed)],
        "the stream is seeded with the text's hash"
    );
}

#[test]
fn narrower_fake_vectors_are_prefixes_of_wider_ones() {
    for text in ["", "seed", "żółć"] {
        let wide = fake_numbers(text, 64);
        assert_eq!(wide.len(), 64);
        assert_eq!(fake_numbers(text, 64), wide, "one stream per text");
        for width in [0, 1, 8, 64] {
            assert_eq!(fake_numbers(text, width), wide[..width]);
        }
    }
    assert_ne!(fake_numbers("a", 8), fake_numbers("b", 8));
}
