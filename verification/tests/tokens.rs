//! Tokenizers: which of them are trusted, and why others are not.

use patterns::chunk::ChunkOptions;
use patterns::embed::graph::{validate_graph, GraphDesc};
use patterns::embed::spec::ModelSpec;
use patterns::embed::Embedder;
use patterns::embed_api::EmbeddingApi;
use patterns::prefixes::Prefixes;
use patterns::tokens::charsmap::is_sound;
use patterns::tokens::parts::find_flaw;
use patterns::tokens::pattern::{is_settling, is_taking, measure};
use patterns::tokens::{check, context_window, counting, token_count, token_spans};
use tokenizers::models::unigram::Unigram;
use tokenizers::Tokenizer;

/// A tokenizer of words, with other settings for some of its parts.
fn with(settings: &[(&str, &str)]) -> Tokenizer {
    let mut parts = [
        ("truncation", "null"),
        ("padding", "null"),
        ("added_tokens", "[]"),
        ("normalizer", "null"),
        ("pre_tokenizer", r#"{"type": "Whitespace"}"#),
        ("post_processor", "null"),
    ];
    for (part, setting) in settings {
        for own in &mut parts {
            if own.0 == *part {
                own.1 = setting;
            }
        }
    }
    let listed: Vec<String> = parts
        .iter()
        .map(|(part, setting)| format!("\"{part}\": {setting}, "))
        .collect();
    let text = format!(
        r#"{{"version": "1.0", {}"decoder": null, "model": {{"type": "WordLevel",
            "vocab": {{"[UNK]": 0, "hello": 1, "world": 2}}, "unk_token": "[UNK]"}}}}"#,
        listed.concat()
    );
    Tokenizer::from_bytes(text).expect("tokenizer")
}

fn refusal(tokenizer: &Tokenizer) -> Option<String> {
    let refused = check(tokenizer).err().map(|e| e.message().to_owned());
    let copied = counting(tokenizer).err().map(|e| e.message().to_owned());
    assert_eq!(refused, copied);
    refused
}

/// Assert that the part named `name` is refused.
fn refused(name: &str, settings: &[(&str, &str)]) {
    assert_eq!(
        refusal(&with(settings)),
        Some(format!("the tokenizer's {name} may fail on a text")),
        "{settings:?}"
    );
}

/// Assert that a tokenizer is trusted, and count what it makes of a text.
fn count(settings: &[(&str, &str)], text: &str) -> usize {
    let tokenizer = with(settings);
    assert_eq!(refusal(&tokenizer), None, "{settings:?}");
    let copy = counting(&tokenizer).expect("trusted");
    token_count(&copy, text).expect("count")
}

/// A `Split` pre-tokenizer by a pattern.
fn split(pattern: &str) -> String {
    let pattern = serde_json::to_string(pattern).expect("string");
    format!(
        r#"{{"type": "Split", "pattern": {{"Regex": {pattern}}}, "behavior": "Isolated",
            "invert": false}}"#
    )
}

/// A template for a single text.
fn template(single: &str) -> String {
    format!(
        r#"{{"type": "TemplateProcessing", "single": {single}, "pair": [
            {{"Sequence": {{"id": "A", "type_id": 0}}}}, {{"Sequence": {{"id": "B", "type_id": 1}}}}],
            "special_tokens": {{}}}}"#
    )
}

const FIRST: &str = r#"[{"Sequence": {"id": "A", "type_id": 0}}]"#;
const SECOND: &str =
    r#"[{"Sequence": {"id": "A", "type_id": 0}}, {"Sequence": {"id": "B", "type_id": 0}}]"#;

/// How GPT-2, Qwen and o200k cut texts.
const GPT2: &str = r"'s|'t|'re|'ve|'m|'ll|'d| ?\p{L}+| ?\p{N}+| ?[^\s\p{L}\p{N}]+|\s+(?!\S)|\s+";
const QWEN: &str = r"(?i:'s|'t|'re|'ve|'m|'ll|'d)|[^\r\n\p{L}\p{N}]?\p{L}+|\p{N}| ?[^\s\p{L}\p{N}]+[\r\n]*|\s*[\r\n]+|\s+(?!\S)|\s+";
const O200K: &str = r"[^\r\n\p{L}\p{N}]?[\p{Lu}\p{Lt}\p{Lm}\p{Lo}\p{M}]*[\p{Ll}\p{Lm}\p{Lo}\p{M}]+(?i:'s|'t|'re|'ve|'m|'ll|'d)?|[^\r\n\p{L}\p{N}]?[\p{Lu}\p{Lt}\p{Lm}\p{Lo}\p{M}]+[\p{Ll}\p{Lm}\p{Lo}\p{M}]*(?i:'s|'t|'re|'ve|'m|'ll|'d)?|\p{N}{1,3}| ?[^\s\p{L}\p{N}]+[\r\n/]*|\s*[\r\n]+|\s+(?!\S)|\s+";

#[test]
fn ordinary_tokenizers_are_trusted() {
    assert_eq!(count(&[], "hello, world"), 3);
    let bert = r#"{"type": "BertNormalizer", "clean_text": true, "handle_chinese_chars": true,
        "strip_accents": null, "lowercase": true}"#;
    let first = template(FIRST);
    let added = r#"[{"id": 3, "content": "[MASK]", "single_word": false, "lstrip": true,
        "rstrip": false, "normalized": false, "special": true}]"#;
    let longest = r#"{"strategy": "BatchLongest", "direction": "Right",
        "pad_to_multiple_of": 8, "pad_id": 0, "pad_type_id": 0, "pad_token": "[PAD]"}"#;
    let settings = [
        ("normalizer", bert),
        ("pre_tokenizer", r#"{"type": "BertPreTokenizer"}"#),
        ("post_processor", first.as_str()),
        ("added_tokens", added),
    ];
    assert_eq!(count(&settings, "Hello, [MASK] WORLD"), 4);
    assert_eq!(count(&[("padding", longest)], "hello world"), 8);
    let replace = r#"{"type": "Sequence", "normalizers": [{"type": "Prepend", "prepend": "_"},
        {"type": "Replace", "pattern": {"String": " "}, "content": "_"},
        {"type": "Replace", "pattern": {"Regex": " {2,}"}, "content": " "}]}"#;
    assert_eq!(count(&[("normalizer", replace)], "hello  world"), 1);
    let bytes = r#"{"type": "ByteLevel", "add_prefix_space": false, "trim_offsets": true,
        "use_regex": true}"#;
    assert_eq!(count(&[("pre_tokenizer", bytes)], "hello world"), 2);
    for (pattern, n) in [(GPT2, 3), (QWEN, 3), (O200K, 2)] {
        let settings = split(pattern);
        assert_eq!(count(&[("pre_tokenizer", &settings)], "hello world's"), n);
    }
    let pieces = r#"{"type": "FixedLength", "length": 5}"#;
    assert_eq!(count(&[("pre_tokenizer", pieces)], "helloworld"), 2);
}

#[test]
fn templates_for_two_texts_are_refused() {
    let both = template(SECOND);
    refused("post-processor", &[("post_processor", &both)]);
    let first = template(FIRST);
    assert_eq!(count(&[("post_processor", &first)], "hello world"), 2);
    let chain = |list: &str| format!(r#"{{"type": "Sequence", "processors": [{list}]}}"#);
    refused(
        "post-processor",
        &[("post_processor", &chain(&format!("{first}, {first}")))],
    );
    refused("post-processor", &[("post_processor", &chain(&both))]);
    let bytes = r#"{"type": "ByteLevel", "add_prefix_space": true, "trim_offsets": false,
        "use_regex": true}"#;
    assert_eq!(
        count(
            &[("post_processor", &chain(&format!("{bytes}, {first}")))],
            "hello world"
        ),
        2
    );
}

#[test]
fn other_parts_that_may_fail_are_refused() {
    refused(
        "pre-tokenizer",
        &[("pre_tokenizer", r#"{"type": "FixedLength", "length": 0}"#)],
    );
    let doubtful = split("(a+)+b");
    refused("pre-tokenizer", &[("pre_tokenizer", &doubtful)]);
    let nested = format!(r#"{{"type": "Sequence", "pretokenizers": [{doubtful}]}}"#);
    refused("pre-tokenizer", &[("pre_tokenizer", &nested)]);
    for normalizer in [
        r#"{"type": "Prepend", "prepend": ""}"#,
        r#"{"type": "Replace", "pattern": {"String": ""}, "content": "x"}"#,
        r#"{"type": "Replace", "pattern": {"Regex": "^"}, "content": "x"}"#,
        r#"{"type": "Sequence", "normalizers": [{"type": "Prepend", "prepend": ""}]}"#,
    ] {
        refused("normalizer", &[("normalizer", normalizer)]);
    }
    let padding = |strategy: &str, multiple: &str| {
        format!(
            r#"{{"strategy": {strategy}, "direction": "Right", "pad_to_multiple_of": {multiple},
                "pad_id": 0, "pad_type_id": 0, "pad_token": "[PAD]"}}"#
        )
    };
    let huge = padding(r#"{"Fixed": 18446744073709551615}"#, "null");
    refused("padding", &[("padding", &huge)]);
    let multiple = padding(r#""BatchLongest""#, "9223372036854775808");
    refused("padding", &[("padding", &multiple)]);
    let above = padding(r#"{"Fixed": 16777217}"#, "null");
    refused("padding", &[("padding", &above)]);
    let fixed = padding(r#"{"Fixed": 4}"#, "null");
    assert_eq!(count(&[("padding", &fixed)], "hello world"), 4);
}

#[test]
fn added_tokens_that_share_white_space_are_refused() {
    let token = |id: u32, content: &str, left: bool, right: bool, normalized: bool| {
        format!(
            r#"{{"id": {id}, "content": "{content}", "single_word": false, "lstrip": {left},
                "rstrip": {right}, "normalized": {normalized}, "special": false}}"#
        )
    };
    let both = |a: String, b: String| format!("[{a}, {b}]");
    let clash = both(
        token(3, "[A]", false, true, false),
        token(4, " ", true, false, false),
    );
    refused("added tokens", &[("added_tokens", &clash)]);
    // what a normalizer makes of a token may be blank
    let doubt = both(
        token(3, "[A]", false, true, false),
        token(4, "[B]", true, false, true),
    );
    refused("added tokens", &[("added_tokens", &doubt)]);
    let fine = both(
        token(3, "[A]", false, true, false),
        token(4, "[B]", true, false, false),
    );
    assert_eq!(count(&[("added_tokens", &fine)], "hello [A]  [B] world"), 4);
}

#[test]
fn models_that_draw_at_random_are_refused() {
    let vocab = vec![("<unk>".to_owned(), 0.0), ("a".to_owned(), -0.5)];
    let mut model = Unigram::from(vocab, Some(0), false).expect("model");
    assert_eq!(refusal(&Tokenizer::new(model.clone())), None);
    model.alpha = Some(0.0);
    assert_eq!(refusal(&Tokenizer::new(model.clone())), None);
    model.alpha = Some(0.1);
    assert_eq!(
        refusal(&Tokenizer::new(model)),
        Some("the tokenizer's model may fail on a text".to_owned())
    );
}

#[test]
fn flaws_are_found_in_settings() {
    let flaw = |text: &str| find_flaw(&serde_json::from_str(text).expect("JSON"));
    assert_eq!(flaw("[{}, null, null, null, null, null]"), None);
    assert_eq!(flaw("[{}, null, null, null, null, 0]"), None);
    assert_eq!(flaw("[{}, null, null, null, null, 1]"), Some("model"));
    assert_eq!(flaw("[[], null, null, null, null, null]"), Some("added tokens"));
    assert_eq!(flaw("[{}, null, null, null, null]"), Some("parts"));
    assert_eq!(flaw("{}"), Some("parts"));
    // of several flaws the first is named
    assert_eq!(
        flaw(r#"[{}, {"type": "Prepend"}, null, {"type": "TemplateProcessing"}, {}, 1]"#),
        Some("normalizer")
    );
    let nested = |depth: usize| {
        format!(
            "[{{}}, {}null{}, null, null, null, null]",
            r#"{"type": "Sequence", "normalizers": ["#.repeat(depth),
            "]}".repeat(depth)
        )
    };
    assert_eq!(flaw(&nested(32)), None);
}

#[test]
fn refused_tokenizers_plan_and_load_nothing() {
    let both = template(SECOND);
    let tokenizer = with(&[("post_processor", &both)]);
    let opts = ChunkOptions {
        max_tokens: 4,
        overlap_tokens: 0,
        min_tokens: 1,
        max_chunks: None,
    };
    let message = "the tokenizer's post-processor may fail on a text";
    let error = EmbeddingApi::plan_documents_in_full(&tokenizer, &["hello"], &opts)
        .expect_err("refused");
    assert_eq!(error.message(), message);

    let sha = "0123456789abcdef0123456789abcdef01234567";
    let spec = ModelSpec::new("org/repo", sha, "onnx/model.onnx", 768).expect("valid spec");
    let desc = GraphDesc {
        inputs: vec!["input_ids".to_owned()],
        outputs: vec![("sentence_embedding".to_owned(), 2)],
    };
    let selected = validate_graph(&desc, &spec, None, None).expect("guards pass");
    let prefixes = Prefixes::new("", "");
    let error = Embedder::loaded(&spec, &selected, Some(768), &prefixes, &tokenizer)
        .err()
        .expect("refused");
    assert_eq!(error.message(), message);
    assert!(Embedder::loaded(&spec, &selected, Some(768), &prefixes, &with(&[])).is_ok());
}

#[test]
fn copies_encode_in_full() {
    let truncation = r#"{"direction": "Right", "max_length": 1, "strategy": "LongestFirst",
        "stride": 1}"#;
    let tokenizer = with(&[("truncation", truncation)]);
    let copy = counting(&tokenizer).expect("trusted");
    assert_eq!(context_window(&tokenizer), Some(1));
    assert_eq!(context_window(&copy), None);
    let spans = token_spans(&copy, "hello, world").expect("spans");
    let pairs: Vec<(usize, usize)> = spans.iter().map(|s| (s.start, s.end)).collect();
    assert_eq!(pairs, vec![(0, 5), (5, 6), (7, 12)]);
}

#[test]
fn patterns_are_judged_by_their_text() {
    for pattern in [
        GPT2,
        QWEN,
        O200K,
        "",
        "^",
        r"\w+|[^\w\s]+",
        r"\s*[\r\n]+",
        r"[a[bc]]\]?",
        r"\d{1,3}",
        "a++",
        "(?i:[sdmt]|ll|ve|re)",
        r"(?<=\d)x",
        r"\bx\b",
    ] {
        assert!(is_settling(pattern), "{pattern}");
    }
    for pattern in [
        "(a+)+b",
        "(a|b)*c",
        "a*a*a*",
        "a*a*b",
        "a*b*(c)",
        "(a+)(b+)c",
        "a{1,2}{3,4}",
        "a{2}+",
        "a{2}?",
        "(a+)",
        "(?i)a",
        "(?i:a+)",
        "(?i:[^a])",
        "(?i:ß)",
        "(?<=a?)b",
        "(?<=a|b)c",
        r"(a)\1",
        r"\k<name>",
        "(?<name>a)",
        "(?(1)a)",
        "+",
        "a)",
        "(a",
        "[a",
        "[]",
        "a}",
        r"\p",
        "\\",
    ] {
        assert!(!is_settling(pattern), "{pattern}");
    }
}

#[test]
fn patterns_that_take_something_are_told_apart() {
    for pattern in [" ", " {2,}", r"\s+", "a|b", "a?b", "``|''"] {
        assert!(is_taking(pattern), "{pattern}");
    }
    for pattern in ["", "^", "a?", "a*", "a|", "a{0,2}", "(a)", r"\b", "a|b?", "(a+)+b"] {
        assert!(!is_taking(pattern), "{pattern}");
    }
}

#[test]
fn patterns_are_measured() {
    // going back into a repetition, once for each character
    assert_eq!(measure(r"\s*[\r\n]+"), 1);
    assert_eq!(measure("a*b"), 1);
    // twice, with what may be left out before it
    assert_eq!(measure("x?a*b+"), 2);
    assert_eq!(measure(r"\s+(?!\S)"), 2);
    // nothing behind a repetition makes the search go back
    for pattern in ["a+", "a+b*", "a+b?", "a+(bc)?", " {2,}", r"\w+|[^\w\s]+"] {
        assert_eq!(measure(pattern), 0, "{pattern}");
    }
    assert_eq!((measure(GPT2), measure(QWEN), measure(O200K)), (2, 3, 5));
    assert_eq!(measure("(a+)+b"), 0, "not searched for at all");
}

#[test]
fn patterns_are_measured_against_what_a_text_becomes() {
    let qwen = split(QWEN);
    let normalized = |normalizer: &str| format!(r#"{{"type": "{normalizer}"}}"#);
    let settings = [
        ("normalizer", normalized("NFC")),
        ("pre_tokenizer", qwen.clone()),
    ];
    let nfc: Vec<(&str, &str)> = settings.iter().map(|(p, s)| (*p, s.as_str())).collect();
    assert_eq!(count(&nfc, "hello world"), 2);
    for normalizer in ["NFD", "NFKC", "BertNormalizer"] {
        let long = match normalizer {
            "BertNormalizer" => r#"{"type": "BertNormalizer", "clean_text": true,
                "handle_chinese_chars": true, "strip_accents": null, "lowercase": true}"#
                .to_owned(),
            _ => normalized(normalizer),
        };
        refused(
            "pre-tokenizer",
            &[("normalizer", &long), ("pre_tokenizer", &qwen)],
        );
    }
    let bytes = r#"{"type": "ByteLevel", "add_prefix_space": false, "trim_offsets": true,
        "use_regex": false}"#;
    let chain = |a: &str, b: &str| format!(r#"{{"type": "Sequence", "pretokenizers": [{a}, {b}]}}"#);
    assert_eq!(
        count(&[("pre_tokenizer", &chain(&qwen, bytes))], "hello world"),
        2
    );
    refused("pre-tokenizer", &[("pre_tokenizer", &chain(bytes, &qwen))]);
}

#[test]
fn texts_can_be_too_long_for_patterns() {
    let qwen = split(QWEN);
    let searching = counting(&with(&[("pre_tokenizer", &qwen)])).expect("trusted");
    let most = "hello ".repeat(166_666) + "hell";
    assert_eq!(most.len(), 1_000_000);
    assert_eq!(token_count(&searching, &most).expect("count"), 166_667);
    let longer = most + "o";
    let message = "tokenize: the text is too long for the tokenizer's patterns";
    let error = token_count(&searching, &longer).expect_err("too long");
    assert_eq!(error.message(), message);
    let error = token_spans(&searching, &longer).expect_err("too long");
    assert_eq!(error.message(), message);
    let plain = counting(&with(&[])).expect("trusted");
    assert_eq!(token_count(&plain, &longer).expect("count"), 166_667);
}

/// A table of 256 units, all zero but for the first, with some text behind them.
fn table(first: &str, rest: usize, end: &str) -> String {
    format!("AAQA{first}{}{end}", "AAAA".repeat(rest))
}

#[test]
fn compiled_tables_are_followed_everywhere() {
    let empty = table("AAAA", 340, "AAA=");
    assert!(is_sound(&empty));
    // the first unit ends in a place of the text: at its end, and behind it
    assert!(is_sound(&table("AAAB", 426, "")));
    assert!(!is_sound(&table("AAAB", 425, "AAA=")));
    // one byte of the last unit is missing
    assert!(!is_sound(&table("AAAA", 340, "AA==")));
    for broken in ["", "AAAA", "AAAAAA==", "A", "AAA", "A=AA", "====", "AAQA!AAA"] {
        assert!(!is_sound(broken), "{broken}");
    }
    // units that are not there
    assert!(!is_sound("BAAAAAAAAAA="));

    let compiled = format!(r#"{{"type": "Precompiled", "precompiled_charsmap": "{empty}"}}"#);
    assert_eq!(count(&[("normalizer", &compiled)], "hello\u{0} world"), 3);
    let nothing = r#"{"type": "Precompiled", "precompiled_charsmap": "AAAAAA=="}"#;
    refused("normalizer", &[("normalizer", nothing)]);
}
