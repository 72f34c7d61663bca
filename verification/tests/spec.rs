//! Model specs.

use patterns::embed::spec::{ModelSpec, Pooling, Quantization, TruncatedDims};

const SHA: &str = "0123456789abcdef0123456789abcdef01234567";

fn spec() -> ModelSpec {
    ModelSpec::new("org/repo", SHA, "onnx/model.onnx", 768).expect("valid spec")
}

#[test]
fn truncated_dims_accepts_mrl_widths() {
    assert_eq!(TruncatedDims::new(32).expect("32 ok").get(), 32);
    assert_eq!(TruncatedDims::new(256).expect("256 ok").get(), 256);
    assert_eq!(TruncatedDims::new(768).expect("768 ok").get(), 768);
}

#[test]
fn truncated_dims_rejects_zero_short_and_unaligned() {
    assert!(TruncatedDims::new(0).is_err(), "zero");
    assert!(TruncatedDims::new(24).is_err(), "below the minimum");
    assert!(TruncatedDims::new(300).is_err(), "not byte-aligned");
}

#[test]
fn truncated_dims_say_what_is_wrong() {
    let message = |dims| {
        TruncatedDims::new(dims)
            .expect_err("rejected")
            .message()
            .to_owned()
    };
    assert_eq!(message(0), "truncated dims must be > 0");
    assert_eq!(message(24), "truncated dims 24 below minimum 32");
    assert_eq!(
        message(300),
        "truncated dims 300 must be a multiple of 8 (one sign bit per dim, 8 per byte)"
    );
}

#[test]
fn model_spec_rejects_unpinned_or_malformed_revisions() {
    for revision in [
        "main",
        "v1.5",
        "0123456789abcdef0123456789abcdef0123456", // 39 chars
        "0123456789ABCDEF0123456789abcdef01234567", // uppercase
        "0123456789abcdef0123456789abcdef0123456z", // non-hex
    ] {
        assert!(
            ModelSpec::new("org/repo", revision, "onnx/model.onnx", 768).is_err(),
            "revision `{revision}` must be rejected"
        );
    }
}

#[test]
fn model_spec_rejects_empty_repo_or_file_and_zero_dim() {
    for (repo, file, dim) in [
        ("", "onnx/model.onnx", 768),
        ("  ", "onnx/model.onnx", 768),
        ("org/repo", "", 768),
        ("org/repo", "onnx/model.onnx", 0),
    ] {
        ModelSpec::new(repo, SHA, file, dim)
            .expect_err("empty repo/file and dim 0 must be rejected");
    }
}

#[test]
fn model_spec_says_what_is_wrong() {
    let message = |repo, revision, file, dim| {
        ModelSpec::new(repo, revision, file, dim)
            .expect_err("rejected")
            .message()
            .to_owned()
    };
    assert_eq!(message("\t", SHA, "f", 8), "repo must not be empty");
    assert_eq!(message("r", SHA, "\n", 8), "file must not be empty");
    assert_eq!(message("r", SHA, "f", 0), "dim must be > 0");
    assert_eq!(
        message("r", "main", "f", 8),
        "revision `main` is not a 40-character lowercase hex commit sha; pin a commit (branches, tags and short shas are not reproducible)"
    );
}

#[test]
fn model_spec_defaults_and_builders() {
    let base = spec();
    assert_eq!(base.repo(), "org/repo");
    assert_eq!(base.revision(), SHA);
    assert_eq!(base.file(), "onnx/model.onnx");
    assert_eq!(base.native_dim(), 768);
    assert_eq!(base.additional(), <&[String]>::default());
    assert_eq!(base.output(), None);
    assert_eq!(base.pooling(), None);
    assert_eq!(base.quantization(), Quantization::Off);
    assert!(base.pooling_metadata_from().is_none());
    assert!(base.truncate_to().is_none());

    let built = spec()
        .with_additional(&["onnx/model.onnx_data"])
        .with_output("sentence_embedding")
        .with_pooling(Pooling::Cls)
        .with_quantization(Quantization::Dynamic)
        .with_pooling_metadata_from("upstream/repo", SHA)
        .with_truncated_dims(TruncatedDims::new(256).expect("256 ok"));
    assert_eq!(built.additional(), ["onnx/model.onnx_data"]);
    assert_eq!(built.output(), Some("sentence_embedding"));
    assert_eq!(built.pooling(), Some(Pooling::Cls));
    assert_eq!(built.quantization(), Quantization::Dynamic);
    assert_eq!(
        built.pooling_metadata_from().map(|m| m.repo.as_str()),
        Some("upstream/repo")
    );
    assert_eq!(
        built.truncate_to().map(TruncatedDims::get),
        Some(256),
        "truncated width is carried through"
    );
    assert_eq!(built.clone(), built);
    assert_eq!(Quantization::default(), Quantization::Off);
}
