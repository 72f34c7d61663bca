//! Fetching and verifying an artifact, offline.

use patterns::embed::hub::{
    fetch, hex, parse_matryoshka, parse_max_length, parse_pooling_meta, HubClient, Listing,
    POOLING_FILE,
};
use patterns::embed::spec::ModelSpec;
use patterns::error::Error;
use sha2::{Digest, Sha256};
use std::collections::HashMap;

const SHA: &str = "0123456789abcdef0123456789abcdef01234567";
const ONNX: &str = "onnx/model_quantized.onnx";

/// In-memory hub: files plus their (real) sha256, so verification is exercised for real.
#[derive(Default)]
struct FakeHub {
    files: HashMap<(String, String), Vec<u8>>,
    /// When false, the listing omits hashes (git-tracked files).
    hashed: bool,
}

impl FakeHub {
    fn with(mut self, repo: &str, file: &str, body: &[u8]) -> Self {
        self.files
            .insert((repo.to_string(), file.to_string()), body.to_vec());
        self
    }
}

impl HubClient for FakeHub {
    fn tree(&self, repo: &str, revision: &str) -> Result<Listing, Error> {
        let _ = revision;
        let mut listing = Listing::new();
        for ((owner, file), body) in &self.files {
            if owner == repo {
                let entry = if self.hashed {
                    Some(hex(&Sha256::digest(body)))
                } else {
                    None
                };
                listing.insert(file.clone(), entry);
            }
        }
        Ok(listing)
    }

    fn bytes(&self, repo: &str, revision: &str, file: &str) -> Result<Vec<u8>, Error> {
        let _ = revision;
        self.files
            .get(&(repo.to_string(), file.to_string()))
            .cloned()
            .ok_or_else(|| Error::new(format!("{repo}/{file} not found")))
    }
}

fn tokenizer_files(hub: FakeHub) -> FakeHub {
    hub.with("org/repo", "tokenizer.json", b"{\"v\":1}")
        .with(
            "org/repo",
            "config.json",
            b"{\"matryoshka_dimensions\":[256]}",
        )
        .with("org/repo", "special_tokens_map.json", b"{}")
        .with(
            "org/repo",
            "tokenizer_config.json",
            b"{\"model_max_length\":512}",
        )
}

fn spec() -> ModelSpec {
    ModelSpec::new("org/repo", SHA, ONNX, 768).expect("valid spec")
}

fn hashed() -> FakeHub {
    FakeHub {
        hashed: true,
        ..FakeHub::default()
    }
}

#[test]
fn fetch_reads_artifact_and_metadata() {
    let hub = tokenizer_files(hashed()).with("org/repo", ONNX, b"onnx-bytes");
    let artifact = fetch(&hub, &spec()).expect("fetch");
    assert_eq!(artifact.onnx, b"onnx-bytes");
    assert_eq!(artifact.max_length, 512);
    assert_eq!(artifact.matryoshka_dims, Some(vec![256]));
    assert!(artifact.pooling_meta.is_none(), "no 1_Pooling/config.json");
    assert_eq!(artifact.external, []);
}

#[test]
fn fetch_reads_external_initializers_in_order() {
    let hub = tokenizer_files(hashed())
        .with("org/repo", ONNX, b"onnx-bytes")
        .with("org/repo", "b.data", b"second")
        .with("org/repo", "a.data", b"first");
    let artifact = fetch(&hub, &spec().with_additional(&["a.data", "b.data"])).expect("fetch");
    assert_eq!(
        artifact.external,
        [
            ("a.data".to_owned(), b"first".to_vec()),
            ("b.data".to_owned(), b"second".to_vec())
        ]
    );
    assert_eq!(artifact.onnx, b"onnx-bytes");
    assert_eq!(artifact.tokenizer_files.tokenizer_file, b"{\"v\":1}");
    assert_eq!(artifact.tokenizer_files.special_tokens_map_file, b"{}");
}

#[test]
fn fetch_rejects_a_missing_required_file() {
    let hub = hashed()
        .with("org/repo", ONNX, b"onnx-bytes")
        .with("org/repo", "config.json", b"{}")
        .with("org/repo", "special_tokens_map.json", b"{}")
        .with(
            "org/repo",
            "tokenizer_config.json",
            b"{\"model_max_length\":512}",
        );
    let error = fetch(&hub, &spec()).expect_err("tokenizer.json is missing");
    assert!(error.message().contains("tokenizer.json"), "{error:?}");
    assert_eq!(
        error.message(),
        format!("org/repo@{SHA}: `tokenizer.json` is not in the repo")
    );
}

/// Serves `body` while the listing advertises a different hash, so verification must fail.
struct Tampered {
    inner: FakeHub,
    body: Vec<u8>,
}

impl HubClient for Tampered {
    fn tree(&self, repo: &str, revision: &str) -> Result<Listing, Error> {
        let mut tree = self.inner.tree(repo, revision)?;
        tree.insert(ONNX.to_string(), Some(hex(&Sha256::digest(b"expected"))));
        Ok(tree)
    }

    fn bytes(&self, repo: &str, revision: &str, file: &str) -> Result<Vec<u8>, Error> {
        if file == ONNX {
            return Ok(self.body.clone());
        }
        self.inner.bytes(repo, revision, file)
    }
}

#[test]
fn fetch_rejects_a_sha256_mismatch() {
    let hub = tokenizer_files(hashed()).with("org/repo", ONNX, b"onnx-bytes");
    let tampered = Tampered {
        inner: hub,
        body: b"tampered".to_vec(),
    };
    let error = fetch(&tampered, &spec()).expect_err("sha256 must mismatch");
    assert!(error.message().contains("sha256 mismatch"), "{error:?}");
}

#[test]
fn fetch_accepts_known_digests_only() {
    // the digest of "abc"
    let digest = "ba7816bf8f01cfea414140de5dae2223b00361a396177a9cb410ff61f20015ad";
    assert!(patterns::embed::hub::verify("f", b"abc", Some(digest)).is_ok());
    assert!(patterns::embed::hub::verify("f", b"abd", None).is_ok());
    let error = patterns::embed::hub::verify("f", b"abc", Some("00")).expect_err("mismatch");
    assert_eq!(
        error.message(),
        format!("sha256 mismatch for `f`: got {digest}, hub reports 00")
    );
}

#[test]
fn fetch_skips_verification_for_unhashed_files() {
    let hub = tokenizer_files(FakeHub::default()).with("org/repo", ONNX, b"onnx-bytes");
    let artifact = fetch(&hub, &spec()).expect("non-LFS files have no hash to check");
    assert_eq!(artifact.onnx, b"onnx-bytes");
}

#[test]
fn fetch_parses_pooling_metadata() {
    let hub = tokenizer_files(hashed())
        .with("org/repo", ONNX, b"onnx-bytes")
        .with(
            "org/repo",
            POOLING_FILE,
            b"{\"pooling_mode_cls_token\":true,\"include_prompt\":false}",
        );
    let artifact = fetch(&hub, &spec()).expect("fetch");
    let meta = artifact.pooling_meta.expect("1_Pooling parsed");
    assert!(meta.cls);
    assert!(!meta.mean);
    assert_eq!(meta.include_prompt, Some(false));
}

#[test]
fn fetch_falls_back_to_the_declared_metadata_repo_for_pooling() {
    let hub = tokenizer_files(hashed())
        .with("org/repo", ONNX, b"onnx-bytes")
        .with(
            "upstream/repo",
            "1_Pooling/config.json",
            b"{\"pooling_mode_mean_tokens\":true}",
        );
    let spec = spec().with_pooling_metadata_from("upstream/repo", SHA);
    let meta = fetch(&hub, &spec)
        .expect("fetch")
        .pooling_meta
        .expect("pooling metadata came from the metadata repo");
    assert!(meta.mean, "metadata repo's flags are used");
}

#[test]
fn fetch_rejects_an_empty_listing() {
    let error = fetch(&FakeHub::default(), &spec()).expect_err("empty repo");
    assert!(error.message().contains("empty file listing"), "{error:?}");
}

#[test]
fn max_length_must_be_a_number() {
    assert_eq!(
        parse_max_length(b"{\"model_max_length\": 8192}").expect("number"),
        8192
    );
    let error = parse_max_length(b"{\"model_max_length\": \"8192\"}").expect_err("text");
    assert_eq!(
        error.message(),
        "tokenizer_config.json has no numeric `model_max_length`"
    );
    let error = parse_max_length(b"{").expect_err("no JSON");
    assert!(
        error.message().starts_with("parse tokenizer_config.json: "),
        "{error:?}"
    );
}

#[test]
fn matryoshka_widths_are_read_where_declared() {
    assert_eq!(parse_matryoshka(b"{}").expect("absent"), None);
    assert_eq!(
        parse_matryoshka(b"{\"matryoshka_dimensions\": 3}").expect("no list"),
        None
    );
    assert_eq!(
        parse_matryoshka(b"{\"matryoshka_dimensions\": [64, -1, \"x\", 2.5, 128]}").expect("list"),
        Some(vec![64, 128])
    );
    let error = parse_matryoshka(b"").expect_err("no JSON");
    assert!(error.message().starts_with("parse config.json: "));
}

#[test]
fn pooling_flags_are_booleans() {
    let meta = parse_pooling_meta(b"{\"include_prompt\": null, \"word_embedding_dimension\": 3}")
        .expect("flags default to false");
    assert!(!meta.cls && !meta.mean && !meta.max && !meta.lasttoken);
    assert_eq!(meta.include_prompt, None);
    let meta =
        parse_pooling_meta(b"[false, true, false, false, false, true, true]").expect("as a list");
    assert!(meta.mean && meta.lasttoken && !meta.cls);
    assert_eq!(meta.include_prompt, Some(true));
    for text in [
        "{\"pooling_mode_cls_token\": null}",
        "{\"pooling_mode_mean_tokens\": 1}",
        "{\"include_prompt\": \"no\"}",
        "[true]",
        "true",
        "{",
    ] {
        let error = parse_pooling_meta(text.as_bytes()).expect_err("must fail");
        assert!(
            error.message().starts_with("parse 1_Pooling/config.json"),
            "{error:?}"
        );
    }
}
