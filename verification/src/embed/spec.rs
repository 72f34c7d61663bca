//! Model identity: which artifact to load, and how to read its output.

use crate::error::{self, Error};
use crate::num::NonZeroUsize;
use crate::text;
use vstd::prelude::*;

verus! {

broadcast use vstd::seq::group_seq_axioms;

/// Minimum MRL width accepted.
pub const MIN_TRUNCATED_DIMS: usize = 32;

/// How a 3-D (token-level) graph output is reduced to one vector per text.
///
/// Irrelevant for a pre-pooled 2-D output, which is read unchanged.
#[derive(Debug, Clone, Copy, PartialEq, Eq, Structural)]
pub enum Pooling {
    Cls,
    Mean,
}

/// Input to the batching rule: `Dynamic` means one call must not be split into batches
/// (per-batch activation ranges differ, so embeddings would not be comparable across batches).
#[derive(Debug, Clone, Copy, PartialEq, Eq, Structural)]
pub enum Quantization {
    Off,
    Static,
    Dynamic,
}

impl Default for Quantization {
    fn default() -> (r: Quantization)
        ensures
            r == Quantization::Off,
    {
        Quantization::Off
    }
}

/// MRL width to store: at least [`MIN_TRUNCATED_DIMS`] and a multiple of eight.
#[derive(Debug, Clone, Copy, PartialEq, Eq, Structural)]
pub struct TruncatedDims {
    value: NonZeroUsize,
}

impl View for TruncatedDims {
    type V = usize;

    closed spec fn view(&self) -> usize {
        self.value@
    }
}

/// Whether `dims` can be stored as a truncated width.
pub open spec fn storable(dims: int) -> bool {
    dims >= MIN_TRUNCATED_DIMS && dims % 8 == 0
}

/// The width `dims`, or why it cannot be stored.
pub open spec fn truncated_dims(dims: usize) -> Result<usize, Seq<char>> {
    if dims == 0 {
        Err("truncated dims must be > 0"@)
    } else if dims < MIN_TRUNCATED_DIMS {
        Err("truncated dims "@ + text::digits(dims as nat) + " below minimum 32"@)
    } else if dims % 8 != 0 {
        Err(
            "truncated dims "@ + text::digits(dims as nat)
                + " must be a multiple of 8 (one sign bit per dim, 8 per byte)"@,
        )
    } else {
        Ok(dims)
    }
}

impl TruncatedDims {
    #[verifier::type_invariant]
    spec fn valid(self) -> bool {
        storable(self.value@ as int)
    }

    /// A stored width of `dims` dimensions, which must be at least [`MIN_TRUNCATED_DIMS`] and a
    /// multiple of eight (sign bits pack eight per byte).
    pub fn new(dims: usize) -> (r: Result<TruncatedDims, Error>)
        ensures
            error::outcome(r) == truncated_dims(dims),
    {
        let value = match NonZeroUsize::new(dims) {
            Some(value) => value,
            None => return Err(Error::new("truncated dims must be > 0".to_owned())),
        };
        if dims < MIN_TRUNCATED_DIMS {
            return Err(
                Error::new(
                    "truncated dims ".to_owned().concat(text::decimal(dims as u64).as_str()).concat(
                        " below minimum 32",
                    ),
                ),
            );
        }
        if dims % 8 != 0 {
            return Err(
                Error::new(
                    "truncated dims ".to_owned().concat(text::decimal(dims as u64).as_str()).concat(
                        " must be a multiple of 8 (one sign bit per dim, 8 per byte)",
                    ),
                ),
            );
        }
        Ok(TruncatedDims { value })
    }

    /// The width.
    pub fn get(self) -> (r: usize)
        ensures
            r == self@,
            storable(r as int),
    {
        proof {
            use_type_invariant(&self);
        }
        self.value.get()
    }
}

/// Pooling flags of a repository's `1_Pooling/config.json`.
#[derive(Debug, Clone, Copy, PartialEq, Eq, Structural)]
pub struct PoolingMeta {
    pub cls: bool,
    pub mean: bool,
    pub max: bool,
    pub weightedmean: bool,
    pub mean_sqrt_len: bool,
    pub lasttoken: bool,
    /// Missing in some repositories: `None` stands for `true`.
    pub include_prompt: Option<bool>,
}

impl Default for PoolingMeta {
    fn default() -> (r: PoolingMeta)
        ensures
            !r.cls && !r.mean && !r.max && !r.weightedmean && !r.mean_sqrt_len && !r.lasttoken,
            r.include_prompt is None,
    {
        PoolingMeta {
            cls: false,
            mean: false,
            max: false,
            weightedmean: false,
            mean_sqrt_len: false,
            lasttoken: false,
            include_prompt: None,
        }
    }
}

/// Secondary repository consulted only for `1_Pooling/config.json` (converted exports drop it).
#[derive(Debug, PartialEq, Eq)]
pub struct MetadataSource {
    pub repo: String,
    pub revision: String,
}

impl Clone for MetadataSource {
    fn clone(&self) -> (r: MetadataSource)
        ensures
            r == *self,
    {
        MetadataSource { repo: self.repo.clone(), revision: self.revision.clone() }
    }
}

/// Everything needed to fetch, verify and load one embedding artifact.
///
/// An unpinned revision, an empty repository or file and a zero width are rejected by
/// [`ModelSpec::new`], an unaligned MRL width by [`TruncatedDims::new`].
#[derive(Debug, PartialEq, Eq)]
pub struct ModelSpec {
    repo: String,
    revision: String,
    file: String,
    additional: Vec<String>,
    output: Option<&'static str>,
    pooling: Option<Pooling>,
    quantization: Quantization,
    pooling_metadata_from: Option<MetadataSource>,
    native_dim: NonZeroUsize,
    truncate_to: Option<TruncatedDims>,
}

impl Clone for ModelSpec {
    fn clone(&self) -> (r: ModelSpec)
        ensures
            r@ == self@,
    {
        proof {
            use_type_invariant(self);
        }
        let additional = self.additional.clone();
        assert(text::texts(additional@) =~= text::texts(self.additional@));
        ModelSpec {
            repo: self.repo.clone(),
            revision: self.revision.clone(),
            file: self.file.clone(),
            additional,
            output: self.output,
            pooling: self.pooling,
            quantization: self.quantization,
            pooling_metadata_from: match &self.pooling_metadata_from {
                Some(source) => Some(source.clone()),
                None => None,
            },
            native_dim: self.native_dim,
            truncate_to: self.truncate_to,
        }
    }
}

/// What a [`ModelSpec`] describes.
pub struct Spec {
    /// Hub repository.
    pub repo: Seq<char>,
    /// Full commit sha, never a branch or a tag, so the fetched bytes cannot change.
    pub revision: Seq<char>,
    /// Artifact path within the repository.
    pub file: Seq<char>,
    /// External-initializer files that `file` references.
    pub additional: Seq<Seq<char>>,
    /// Graph output to read. `None` requires the graph to have exactly one output.
    pub output: Option<Seq<char>>,
    /// How to reduce a 3-D output.
    pub pooling: Option<Pooling>,
    /// Decides the batching rule.
    pub quantization: Quantization,
    /// Repository and revision to read `1_Pooling/config.json` from when the artifact's own
    /// repository has none.
    pub pooling_metadata_from: Option<(Seq<char>, Seq<char>)>,
    /// The model's own width, before any MRL truncation.
    pub native_dim: nat,
    /// MRL width to store instead of the native width.
    pub truncate_to: Option<usize>,
}

impl Spec {
    /// Width of a stored vector: the truncated width, else the native one.
    pub open spec fn effective(self) -> nat {
        match self.truncate_to {
            Some(dims) => dims as nat,
            None => self.native_dim,
        }
    }

    /// What holds of every spec.
    pub open spec fn wf(self) -> bool {
        &&& text::trim(self.repo).len() > 0
        &&& text::trim(self.file).len() > 0
        &&& pinned_sha(self.revision)
        &&& 0 < self.native_dim <= usize::MAX
        &&& self.truncate_to matches Some(dims) ==> storable(dims as int)
    }
}

impl View for ModelSpec {
    type V = Spec;

    closed spec fn view(&self) -> Spec {
        Spec {
            repo: self.repo@,
            revision: self.revision@,
            file: self.file@,
            additional: text::texts(self.additional@),
            output: match self.output {
                Some(name) => Some(name@),
                None => None,
            },
            pooling: self.pooling,
            quantization: self.quantization,
            pooling_metadata_from: match self.pooling_metadata_from {
                Some(source) => Some((source.repo@, source.revision@)),
                None => None,
            },
            native_dim: self.native_dim@ as nat,
            truncate_to: match self.truncate_to {
                Some(dims) => Some(dims@),
                None => None,
            },
        }
    }
}

/// Whether `revision` is a full commit sha in lower-case hexadecimal: anything else (a branch, a
/// tag, an abbreviated sha) lets the fetched bytes change between loads under the same identity.
pub open spec fn pinned_sha(revision: Seq<char>) -> bool {
    &&& revision.len() == 40
    &&& forall|k: int| 0 <= k < revision.len() ==> lower_hex(#[trigger] revision[k])
}

/// Whether `c` is a lower-case hexadecimal digit.
pub open spec fn lower_hex(c: char) -> bool {
    ('0' <= c && c <= '9') || ('a' <= c && c <= 'f')
}

/// Whether `revision` is a full commit sha in lower-case hexadecimal.
pub fn is_pinned_sha(revision: &str) -> (r: bool)
    ensures
        r == pinned_sha(revision@),
{
    let chars = text::chars_of(revision);
    if chars.len() != 40 {
        return false;
    }
    let mut k: usize = 0;
    while k < chars.len()
        invariant
            chars@ == revision@,
            0 <= k <= chars@.len(),
            forall|i: int| 0 <= i < k ==> lower_hex(#[trigger] chars@[i]),
        decreases chars@.len() - k,
    {
        let c: char = chars[k];
        if !(('0' <= c && c <= '9') || ('a' <= c && c <= 'f')) {
            assert(!lower_hex(revision@[k as int]));
            return false;
        }
        k += 1;
    }
    true
}

/// The spec of `repo`'s `file` at `revision` with native width `dim`, or why there is none.
pub open spec fn model_spec(
    repo: Seq<char>,
    revision: Seq<char>,
    file: Seq<char>,
    dim: usize,
) -> Result<Spec, Seq<char>> {
    if text::trim(repo).len() == 0 {
        Err("repo must not be empty"@)
    } else if text::trim(file).len() == 0 {
        Err("file must not be empty"@)
    } else if !pinned_sha(revision) {
        Err(
            "revision `"@ + revision
                + "` is not a 40-character lowercase hex commit sha; pin a commit (branches, tags and short shas are not reproducible)"@,
        )
    } else if dim == 0 {
        Err("dim must be > 0"@)
    } else {
        Ok(
            Spec {
                repo,
                revision,
                file,
                additional: Seq::empty(),
                output: None,
                pooling: None,
                quantization: Quantization::Off,
                pooling_metadata_from: None,
                native_dim: dim as nat,
                truncate_to: None,
            },
        )
    }
}

/// What an optional metadata source names.
pub open spec fn source_view(source: Option<&MetadataSource>) -> Option<(Seq<char>, Seq<char>)> {
    match source {
        Some(source) => Some((source.repo@, source.revision@)),
        None => None,
    }
}

impl ModelSpec {
    #[verifier::type_invariant]
    spec fn valid(self) -> bool {
        &&& text::trim(self.repo@).len() > 0
        &&& text::trim(self.file@).len() > 0
        &&& pinned_sha(self.revision@)
        &&& self.native_dim@ > 0
        &&& self.truncate_to matches Some(dims) ==> storable(dims@ as int)
    }

    /// A spec for `repo`'s `file` at a pinned `revision`, whose native width is `dim`.
    pub fn new(repo: &str, revision: &str, file: &str, dim: usize) -> (r: Result<
        ModelSpec,
        Error,
    >)
        ensures
            error::outcome(r) == model_spec(repo@, revision@, file@, dim),
    {
        if is_blank(repo) {
            return Err(Error::new("repo must not be empty".to_owned()));
        }
        if is_blank(file) {
            return Err(Error::new("file must not be empty".to_owned()));
        }
        if !is_pinned_sha(revision) {
            return Err(
                Error::new(
                    "revision `".to_owned().concat(revision).concat(
                        "` is not a 40-character lowercase hex commit sha; pin a commit (branches, tags and short shas are not reproducible)",
                    ),
                ),
            );
        }
        let native_dim = match NonZeroUsize::new(dim) {
            Some(native_dim) => native_dim,
            None => return Err(Error::new("dim must be > 0".to_owned())),
        };
        let r = ModelSpec {
            repo: repo.to_owned(),
            revision: revision.to_owned(),
            file: file.to_owned(),
            additional: Vec::new(),
            output: None,
            pooling: None,
            quantization: Quantization::Off,
            pooling_metadata_from: None,
            native_dim,
            truncate_to: None,
        };
        assert(r@.additional =~= Seq::empty());
        Ok(r)
    }

    /// External-initializer files (`*.onnx_data`) fetched alongside `file`.
    pub fn with_additional(self, files: &[&str]) -> (r: ModelSpec)
        ensures
            r@ == (Spec { additional: text::slices(files@), ..self@ }),
    {
        proof {
            use_type_invariant(&self);
        }
        let mut additional: Vec<String> = Vec::new();
        let mut i: usize = 0;
        while i < files.len()
            invariant
                0 <= i <= files@.len(),
                text::texts(additional@) == text::slices(files@).take(i as int),
            decreases files@.len() - i,
        {
            let ghost before = additional@;
            additional.push(files[i].to_owned());
            proof {
                assert(text::texts(additional@) =~= text::texts(before).push(files@[i as int]@));
                assert(text::slices(files@).take(i + 1) =~= text::slices(files@).take(i as int).push(
                    files@[i as int]@,
                ));
            }
            i += 1;
        }
        assert(text::slices(files@).take(i as int) =~= text::slices(files@));
        ModelSpec { additional, ..self }
    }

    /// Force a graph output by name. Left unset, the graph must have exactly one output.
    pub fn with_output(self, name: &'static str) -> (r: ModelSpec)
        ensures
            r@ == (Spec { output: Some(name@), ..self@ }),
    {
        proof {
            use_type_invariant(&self);
        }
        ModelSpec { output: Some(name), ..self }
    }

    /// How to reduce a 3-D output; required in that case, ignored for a pooled 2-D output.
    pub fn with_pooling(self, pooling: Pooling) -> (r: ModelSpec)
        ensures
            r@ == (Spec { pooling: Some(pooling), ..self@ }),
    {
        proof {
            use_type_invariant(&self);
        }
        ModelSpec { pooling: Some(pooling), ..self }
    }

    /// Set the quantization mode.
    pub fn with_quantization(self, mode: Quantization) -> (r: ModelSpec)
        ensures
            r@ == (Spec { quantization: mode, ..self@ }),
    {
        proof {
            use_type_invariant(&self);
        }
        ModelSpec { quantization: mode, ..self }
    }

    /// Verify pooling against this repository's `1_Pooling/config.json` when the artifact's own
    /// repository has none.
    pub fn with_pooling_metadata_from(self, repo: &str, revision: &str) -> (r: ModelSpec)
        ensures
            r@ == (Spec { pooling_metadata_from: Some((repo@, revision@)), ..self@ }),
    {
        proof {
            use_type_invariant(&self);
        }
        ModelSpec {
            pooling_metadata_from: Some(
                MetadataSource { repo: repo.to_owned(), revision: revision.to_owned() },
            ),
            ..self
        }
    }

    /// Store `dims` dimensions. Requesting a width is the MRL claim; the artifact's
    /// `matryoshka_dimensions`, when declared, constrain it at load.
    pub fn with_truncated_dims(self, dims: TruncatedDims) -> (r: ModelSpec)
        ensures
            r@ == (Spec { truncate_to: Some(dims@), ..self@ }),
    {
        let _ = dims.get();
        proof {
            use_type_invariant(&self);
        }
        ModelSpec { truncate_to: Some(dims), ..self }
    }

    /// Hub repository, e.g. `mixedbread-ai/mxbai-embed-large-v1`.
    pub fn repo(&self) -> (r: &str)
        ensures
            r@ == self@.repo,
            self@.wf(),
    {
        proof {
            use_type_invariant(self);
        }
        self.repo.as_str()
    }

    /// Full commit sha.
    pub fn revision(&self) -> (r: &str)
        ensures
            r@ == self@.revision,
            self@.wf(),
    {
        proof {
            use_type_invariant(self);
        }
        self.revision.as_str()
    }

    /// Artifact path within the repository.
    pub fn file(&self) -> (r: &str)
        ensures
            r@ == self@.file,
            self@.wf(),
    {
        proof {
            use_type_invariant(self);
        }
        self.file.as_str()
    }

    /// External-initializer files that the artifact references.
    pub fn additional(&self) -> (r: &[String])
        ensures
            text::texts(r@) == self@.additional,
    {
        self.additional.as_slice()
    }

    /// Graph output to read, if declared.
    pub fn output(&self) -> (r: Option<&'static str>)
        ensures
            match self@.output {
                Some(name) => r matches Some(x) && x@ == name,
                None => r is None,
            },
    {
        self.output
    }

    /// How to reduce a 3-D output, if declared.
    pub fn pooling(&self) -> (r: Option<Pooling>)
        ensures
            r == self@.pooling,
    {
        self.pooling
    }

    /// The quantization mode.
    pub fn quantization(&self) -> (r: Quantization)
        ensures
            r == self@.quantization,
    {
        self.quantization
    }

    /// Where to read `1_Pooling/config.json` from when the artifact's own repository has none.
    pub fn pooling_metadata_from(&self) -> (r: Option<&MetadataSource>)
        ensures
            source_view(r) == self@.pooling_metadata_from,
    {
        self.pooling_metadata_from.as_ref()
    }

    /// The model's own width, before any MRL truncation.
    pub fn native_dim(&self) -> (r: usize)
        ensures
            r == self@.native_dim,
            self@.wf(),
    {
        proof {
            use_type_invariant(self);
        }
        self.native_dim.get()
    }

    /// MRL width to store, if any.
    pub fn truncate_to(&self) -> (r: Option<TruncatedDims>)
        ensures
            match self@.truncate_to {
                Some(dims) => r matches Some(x) && x@ == dims,
                None => r is None,
            },
            self@.wf(),
    {
        proof {
            use_type_invariant(self);
        }
        self.truncate_to
    }
}

fn is_blank(text: &str) -> (r: bool)
    ensures
        r == (text::trim(text@).len() == 0),
{
    let trimmed = text::trimmed(text);
    proof {
        text::lemma_offset_ends(trimmed@);
        text::lemma_offset_monotonic(trimmed@, 0, trimmed@.len() as int);
    }
    text::byte_count(trimmed) == 0
}

} // verus!
