//! Embedding generation from a pinned, verified model artifact.
//!
//! A model is described by one [`ModelSpec`]: repository, pinned revision and file, fetched and
//! verified at load, never taken from a moving branch. Identity is
//! `{repo}/{file}@{revision}#d{effective}[/meta|/spec]`; a failed fetch or verification is an
//! error, never a silent model substitution.
//!
//! The query and document prefixes are model configuration, given at load time and applied to
//! every text from then on. Running the model is the caller's: an [`Embedder`] plans which texts
//! to embed, and takes the vectors back.

pub mod fake;
pub mod graph;
pub mod hub;
pub mod laws;
pub mod model_laws;
pub mod quantize;
pub mod spec;

use crate::chunk::plan::{self, Cutter};
use crate::chunk::{self, Chunk, ChunkOptions, PendingChunk, TextChunk, TokenSpan};
use crate::embed::graph::SelectedOutput;
use crate::embed::spec::{ModelSpec, Spec, TruncatedDims};
use crate::error::{self, Error};
use crate::float::F32;
use crate::prefixes::Prefixes;
use crate::text;
use crate::tokens;
use vstd::prelude::*;

verus! {

broadcast use vstd::seq::group_seq_axioms;

/// Load-time configuration for [`Embedder`].
#[derive(Debug)]
pub struct LoadOptions {
    /// Which model to load; see [`ModelSpec`].
    pub spec: ModelSpec,
    /// Intra-op thread count (`None` = all cores). Set below core count to leave CPU for other
    /// tasks.
    pub intra_threads: Option<usize>,
    /// Query and document prefixes (see [`Prefixes`]).
    pub prefixes: Prefixes,
    /// Show a progress bar while the model downloads.
    pub show_download_progress: bool,
}

impl Clone for LoadOptions {
    fn clone(&self) -> (r: LoadOptions)
        ensures
            r.spec@ == self.spec@,
            r.intra_threads == self.intra_threads,
            r.prefixes == self.prefixes,
            r.show_download_progress == self.show_download_progress,
    {
        LoadOptions {
            spec: self.spec.clone(),
            intra_threads: self.intra_threads,
            prefixes: self.prefixes.clone(),
            show_download_progress: self.show_download_progress,
        }
    }
}

impl LoadOptions {
    /// Defaults: all cores, no prefixes, download progress shown.
    pub fn new(spec: ModelSpec) -> (r: LoadOptions)
        ensures
            r.spec == spec,
            r.intra_threads is None,
            r.prefixes.query@ == Seq::<char>::empty(),
            r.prefixes.document@ == Seq::<char>::empty(),
            r.show_download_progress,
    {
        LoadOptions {
            spec,
            intra_threads: None,
            prefixes: Prefixes::none(),
            show_download_progress: true,
        }
    }

    /// Cap intra-op threads.
    pub fn with_intra_threads(self, threads: usize) -> (r: LoadOptions)
        ensures
            r == (LoadOptions { intra_threads: Some(threads), ..self }),
    {
        LoadOptions { intra_threads: Some(threads), ..self }
    }

    /// Set the model's query and document prefixes.
    pub fn with_prefixes(self, prefixes: &Prefixes) -> (r: LoadOptions)
        ensures
            r == (LoadOptions { prefixes: *prefixes, ..self }),
    {
        LoadOptions { prefixes: prefixes.clone(), ..self }
    }

    /// Toggle download progress output.
    pub fn with_show_download_progress(self, show: bool) -> (r: LoadOptions)
        ensures
            r == (LoadOptions { show_download_progress: show, ..self }),
    {
        LoadOptions { show_download_progress: show, ..self }
    }
}

/// Token window reported by a fake embedder (no model, no tokenizer).
pub const FAKE_MODEL_MAX_TOKENS: usize = 512;

/// Identity reported by a fake embedder.
pub const FAKE_MODEL_ID: &'static str = "fake";

/// Embedder handle: of a loaded model, or of a fake one that needs none.
pub struct Embedder {
    native_dim: usize,
    truncated: Option<TruncatedDims>,
    prefixes: Prefixes,
    source: Source,
}

/// Where an embedder's tokens come from.
enum Source {
    /// White-space words stand for tokens.
    Fake,
    Loaded {
        model_id: String,
        max_tokens: Option<usize>,
        /// Truncation disabled, so that counts are never capped.
        tokenizer: tokenizers::Tokenizer,
    },
}

/// The model behind an [`Embedder`].
pub struct LoadedModel {
    /// `{repo}/{file}@{revision}#d{effective}[/meta|/spec]`; part of every row's key.
    pub model_id: Seq<char>,
    /// Context window in tokens, if the model's tokenizer has one configured.
    pub max_tokens: Option<usize>,
    /// Tokenizer with truncation disabled.
    pub tokenizer: tokenizers::Tokenizer,
}

/// What an [`Embedder`] is.
pub struct EmbedderModel {
    /// The model's own width, before MRL truncation.
    pub native_dim: usize,
    pub truncated: Option<usize>,
    pub query_prefix: Seq<char>,
    pub document_prefix: Seq<char>,
    /// `None` for a fake embedder.
    pub model: Option<LoadedModel>,
}

impl EmbedderModel {
    /// Effective width: the truncated one, else the native one.
    pub open spec fn dim(self) -> usize {
        match self.truncated {
            Some(dims) => dims,
            None => self.native_dim,
        }
    }

    /// Context window in tokens, if it is known.
    pub open spec fn max_tokens(self) -> Option<usize> {
        match self.model {
            Some(model) => model.max_tokens,
            None => Some(FAKE_MODEL_MAX_TOKENS),
        }
    }

    /// `r` is a count of the tokens of `text`: exactly its words for a fake embedder.
    pub open spec fn counted(self, text: Seq<char>, r: Result<int, Seq<char>>) -> bool {
        match self.model {
            Some(model) => tokens::counted_by(model.tokenizer, text, r),
            None => r == Ok::<int, Seq<char>>(
                chunk::words(text, text.len() as int).len() as int,
            ),
        }
    }

    /// `r` are byte spans of the tokens of `text`: exactly its words for a fake embedder.
    pub open spec fn spanned(self, text: Seq<char>, r: Result<Seq<TokenSpan>, Seq<char>>) -> bool {
        match self.model {
            Some(model) => tokens::spanned_by(model.tokenizer, text, r),
            None => r == Ok::<Seq<TokenSpan>, Seq<char>>(chunk::words(text, text.len() as int)),
        }
    }

    /// `r` are the chunks of `text` under `opts`.
    pub open spec fn chunked(
        self,
        text: Seq<char>,
        opts: ChunkOptions,
        r: Result<Seq<Chunk>, Seq<char>>,
    ) -> bool {
        exists|spans: Result<Seq<TokenSpan>, Seq<char>>| #[trigger]
            self.spanned(text, spans) && r == match spans {
                Ok(spans) => Ok::<Seq<Chunk>, Seq<char>>(chunk::chunks(text, spans, opts)),
                Err(m) => Err(m),
            }
    }

    /// `r` are the chunks of a document: none where it has fewer than `opts.min_tokens` tokens.
    pub open spec fn document_chunked(
        self,
        text: Seq<char>,
        opts: ChunkOptions,
        r: Result<Seq<Chunk>, Seq<char>>,
    ) -> bool {
        exists|count: Result<int, Seq<char>>| #[trigger]
            self.counted(text, count) && match count {
                Err(m) => r == Err::<Seq<Chunk>, Seq<char>>(m),
                Ok(n) => if n < opts.min_tokens {
                    r == Ok::<Seq<Chunk>, Seq<char>>(Seq::empty())
                } else {
                    self.chunked(text, opts, r)
                },
            }
    }

    /// What is stored of the vectors that the model gave.
    pub open spec fn stored(self, vectors: Seq<Seq<F32>>) -> Seq<Seq<F32>> {
        match self.truncated {
            Some(dims) => cut(vectors, dims),
            None => vectors,
        }
    }

    /// What may come of cutting a document under `opts`.
    pub open spec fn cuts(self, opts: ChunkOptions) -> spec_fn(
        Seq<char>,
        Result<Seq<Chunk>, Seq<char>>,
    ) -> bool {
        |text: Seq<char>, r: Result<Seq<Chunk>, Seq<char>>| self.document_chunked(text, opts, r)
    }

    /// `r` are the rows of a batch of documents, or the failure that ended their chunking.
    pub open spec fn planned(
        self,
        texts: Seq<Seq<char>>,
        opts: ChunkOptions,
        r: Result<Seq<chunk::Row>, Seq<char>>,
    ) -> bool {
        plan::planned(self.cuts(opts), texts, r)
    }
}

impl View for Embedder {
    type V = EmbedderModel;

    closed spec fn view(&self) -> EmbedderModel {
        EmbedderModel {
            native_dim: self.native_dim,
            truncated: match self.truncated {
                Some(dims) => Some(dims@),
                None => None,
            },
            query_prefix: self.prefixes.query@,
            document_prefix: self.prefixes.document@,
            model: match self.source {
                Source::Fake => None,
                Source::Loaded { model_id, max_tokens, tokenizer } => Some(
                    LoadedModel { model_id: model_id@, max_tokens, tokenizer },
                ),
            },
        }
    }
}

/// What loading a model comes to, once a probe text has been embedded to a vector of `probe`
/// dimensions: the width must be the declared one and pack into whole bytes, and a truncated
/// width must not exceed it. The tokenizer must be one that can be trusted to encode every text.
pub open spec fn loaded(
    spec: Spec,
    mrl_from_metadata: bool,
    probe: Option<usize>,
    query_prefix: Seq<char>,
    document_prefix: Seq<char>,
    tokenizer: tokenizers::Tokenizer,
) -> Result<EmbedderModel, Seq<char>> {
    match probe {
        None => Err("the model returned no probe embedding"@),
        Some(width) => if width != spec.native_dim {
            Err(
                "native width "@ + text::digits(width as nat)
                    + " does not match the declared dim "@ + text::digits(spec.native_dim),
            )
        } else if width % 8 != 0 {
            Err(
                "native width "@ + text::digits(width as nat)
                    + " is not a multiple of 8 (8 sign bits per byte)"@,
            )
        } else if spec.truncate_to is Some && spec.truncate_to->0 > width {
            Err(
                "truncated width "@ + text::digits(spec.truncate_to->0 as nat)
                    + " exceeds the native width "@ + text::digits(width as nat),
            )
        } else {
            match tokens::refusal(tokens::untruncated(tokenizer)) {
                Some(m) => Err(m),
                None => Ok(
                    EmbedderModel {
                        native_dim: width,
                        truncated: spec.truncate_to,
                        query_prefix,
                        document_prefix,
                        model: Some(
                            LoadedModel {
                                model_id: graph::identity(spec, mrl_from_metadata),
                                max_tokens: tokens::window(tokenizer),
                                tokenizer: tokens::untruncated(tokenizer),
                            },
                        ),
                    },
                ),
            }
        },
    }
}

impl Cutter for Embedder {
    open spec fn ready(&self) -> bool {
        true
    }

    open spec fn cuts(&self, opts: ChunkOptions) -> spec_fn(
        Seq<char>,
        Result<Seq<Chunk>, Seq<char>>,
    ) -> bool {
        self@.cuts(opts)
    }

    fn cut(&self, text: &str, opts: &ChunkOptions) -> (r: Result<Vec<TextChunk>, Error>) {
        let count = self.token_count(text);
        assert(self@.counted(text@, tokens::count_view(count)));
        match count {
            Err(e) => Err(e),
            Ok(n) => {
                if n < opts.min_tokens {
                    let none: Vec<TextChunk> = Vec::new();
                    assert(chunk::views(none@) =~= Seq::empty());
                    Ok(none)
                } else {
                    self.chunk(text, opts)
                }
            },
        }
    }
}

impl Embedder {
    /// The tokenizer of a loaded model encodes every text in full.
    #[verifier::type_invariant]
    spec fn counts_in_full(self) -> bool {
        match self.source {
            Source::Fake => true,
            Source::Loaded { model_id: _, max_tokens: _, tokenizer } => tokens::encodes_all(
                tokenizer,
            ),
        }
    }

    /// The embedder of a model that was built from `spec` and gave a probe text a vector of
    /// `probe` dimensions. `selected` is what the guards decided on its graph; `tokenizer` is the
    /// model's, of which a copy without truncation is kept.
    pub fn loaded(
        spec: &ModelSpec,
        selected: &SelectedOutput,
        probe: Option<usize>,
        prefixes: &Prefixes,
        tokenizer: &tokenizers::Tokenizer,
    ) -> (r: Result<Embedder, Error>)
        ensures
            error::outcome(r) == loaded(
                spec@,
                selected.mrl_from_metadata,
                probe,
                prefixes.query@,
                prefixes.document@,
                *tokenizer,
            ),
    {
        let width: usize = match probe {
            Some(width) => width,
            None => return Err(Error::new("the model returned no probe embedding".to_owned())),
        };
        let shown = text::decimal(width as u64);
        if width != spec.native_dim() {
            return Err(
                Error::new(
                    "native width ".to_owned().concat(shown.as_str()).concat(
                        " does not match the declared dim ",
                    ).concat(text::decimal(spec.native_dim() as u64).as_str()),
                ),
            );
        }
        if width % 8 != 0 {
            return Err(
                Error::new(
                    "native width ".to_owned().concat(shown.as_str()).concat(
                        " is not a multiple of 8 (8 sign bits per byte)",
                    ),
                ),
            );
        }
        let truncated = spec.truncate_to();
        if let Some(dims) = truncated {
            if dims.get() > width {
                return Err(
                    Error::new(
                        "truncated width ".to_owned().concat(
                            text::decimal(dims.get() as u64).as_str(),
                        ).concat(" exceeds the native width ").concat(shown.as_str()),
                    ),
                );
            }
        }
        let counting = match tokens::counting(tokenizer) {
            Ok(counting) => counting,
            Err(e) => return Err(e),
        };
        Ok(
            Embedder {
                native_dim: width,
                truncated,
                prefixes: prefixes.clone(),
                source: Source::Loaded {
                    model_id: graph::model_id(spec, selected.mrl_from_metadata),
                    max_tokens: tokens::context_window(tokenizer),
                    tokenizer: counting,
                },
            },
        )
    }

    /// Deterministic fake embedder for tests, no prefixes.
    pub fn fake(dim: usize) -> (r: Embedder)
        ensures
            r@ == (EmbedderModel {
                native_dim: dim,
                truncated: None,
                query_prefix: Seq::empty(),
                document_prefix: Seq::empty(),
                model: None,
            }),
    {
        Embedder::fake_with_prefixes(dim, &Prefixes::none())
    }

    /// Deterministic fake embedder with the given prefixes for tests.
    pub fn fake_with_prefixes(dim: usize, prefixes: &Prefixes) -> (r: Embedder)
        ensures
            r@ == (EmbedderModel {
                native_dim: dim,
                truncated: None,
                query_prefix: prefixes.query@,
                document_prefix: prefixes.document@,
                model: None,
            }),
    {
        Embedder {
            native_dim: dim,
            truncated: None,
            prefixes: prefixes.clone(),
            source: Source::Fake,
        }
    }

    /// Fake embedder whose vectors are truncated to `truncated`, for offline width tests.
    pub fn fake_truncated(native_dim: usize, truncated: TruncatedDims) -> (r: Embedder)
        ensures
            r@ == (EmbedderModel {
                native_dim,
                truncated: Some(truncated@),
                query_prefix: Seq::empty(),
                document_prefix: Seq::empty(),
                model: None,
            }),
    {
        Embedder {
            native_dim,
            truncated: Some(truncated),
            prefixes: Prefixes::none(),
            source: Source::Fake,
        }
    }

    /// Effective width written to the index: the native width, or the MRL width when truncated.
    pub fn dim(&self) -> (r: usize)
        ensures
            r == self@.dim(),
    {
        match self.truncated {
            Some(dims) => dims.get(),
            None => self.native_dim,
        }
    }

    /// The model's own width, before any MRL truncation.
    pub fn native_dim(&self) -> (r: usize)
        ensures
            r == self@.native_dim,
    {
        self.native_dim
    }

    /// Whether the embedder is a fake one.
    pub fn is_fake(&self) -> (r: bool)
        ensures
            r == (self@.model is None),
    {
        match self.source {
            Source::Fake => true,
            Source::Loaded { .. } => false,
        }
    }

    /// Identity of the loaded model, written into every embedding row:
    /// `{repo}/{file}@{revision}#d{effective}`, with `/meta` when the truncated width came from
    /// the artifact's `matryoshka_dimensions` and `/spec` when the request itself was the claim.
    pub fn model_id(&self) -> (r: &str)
        ensures
            r@ == (match self@.model {
                Some(model) => model.model_id,
                None => FAKE_MODEL_ID@,
            }),
    {
        match &self.source {
            Source::Fake => FAKE_MODEL_ID,
            Source::Loaded { model_id, .. } => model_id.as_str(),
        }
    }

    /// Context window of the model, in tokens; `None` where its tokenizer has no truncation
    /// configured, which says what the window is.
    pub fn context_window(&self) -> (r: Option<usize>)
        ensures
            r == self@.max_tokens(),
    {
        match &self.source {
            Source::Fake => Some(FAKE_MODEL_MAX_TOKENS),
            Source::Loaded { max_tokens, .. } => *max_tokens,
        }
    }

    /// Context window of the model, in tokens, which must be known.
    pub fn model_max_tokens(&self) -> (r: usize)
        requires
            self@.max_tokens() is Some,
        ensures
            Some(r) == self@.max_tokens(),
    {
        self.context_window().unwrap()
    }

    /// Chunk options sized to this model's context window, minus the special tokens the
    /// tokenizer adds to every input. The window must be known.
    pub fn default_chunk_options(&self) -> (r: ChunkOptions)
        requires
            self@.max_tokens() is Some,
        ensures
            r.max_tokens == (if self@.max_tokens()->0 <= 3 {
                1
            } else {
                self@.max_tokens()->0 - 2
            }),
            r.overlap_tokens == 64,
            r.min_tokens == 5,
            r.max_chunks is None,
    {
        ChunkOptions::new(chunk::content_window(self.model_max_tokens()))
    }

    /// Full-text token count (truncation disabled). Fake embedders count white-space words.
    pub fn token_count(&self, text: &str) -> (r: Result<usize, Error>)
        ensures
            self@.counted(text@, tokens::count_view(r)),
    {
        proof {
            use_type_invariant(self);
        }
        match &self.source {
            Source::Fake => Ok(chunk::fake_token_spans(text).len()),
            Source::Loaded { tokenizer, .. } => tokens::token_count(tokenizer, text),
        }
    }

    /// Byte span of every token of `text`, in order, truncation disabled.
    pub fn token_spans(&self, text: &str) -> (r: Result<Vec<TokenSpan>, Error>)
        ensures
            self@.spanned(text@, error::outcome(r)),
    {
        proof {
            use_type_invariant(self);
        }
        match &self.source {
            Source::Fake => Ok(chunk::fake_token_spans(text)),
            Source::Loaded { tokenizer, .. } => tokens::token_spans(tokenizer, text),
        }
    }

    /// Split `text` into token-aligned chunks covering all content. Input with no tokens yields
    /// no chunks; byte spans are relative to `text`.
    pub fn chunk(&self, text: &str, opts: &ChunkOptions) -> (r: Result<Vec<TextChunk>, Error>)
        ensures
            self@.chunked(
                text@,
                *opts,
                chunk::chunks_outcome(r),
            ),
    {
        let spans = self.token_spans(text);
        assert(self@.spanned(text@, error::outcome(spans)));
        match spans {
            Ok(spans) => Ok(chunk::chunk_spans(text, spans.as_slice(), opts)),
            Err(e) => Err(e),
        }
    }

    /// The chunks of a batch of documents, in row order: by `(doc_ix, chunk_ix)`. Documents below
    /// `opts.min_tokens` contribute none.
    pub fn plan_documents(&self, texts: &[&str], opts: &ChunkOptions) -> (r: Result<
        Vec<PendingChunk>,
        Error,
    >)
        ensures
            self@.planned(
                text::slices(texts@),
                *opts,
                chunk::rows_outcome(r),
            ),
    {
        plan::plan(self, texts, opts)
    }

    /// The texts to embed for the pending chunks, each behind the document prefix.
    pub fn document_inputs(&self, pending: &Vec<PendingChunk>) -> (r: Vec<String>)
        ensures
            text::texts(r@) == chunk::prefixed(
                chunk::pending_rows(pending@),
                self@.document_prefix,
            ),
    {
        chunk::prefixed_inputs(pending, self.prefixes.document.as_str())
    }

    /// `text` behind the query prefix.
    pub fn prefixed_query(&self, text: &str) -> (r: String)
        ensures
            r@ == self@.query_prefix + text@,
    {
        self.prefixes.apply_query(text)
    }

    /// `text` behind the document prefix.
    pub fn prefixed_document(&self, text: &str) -> (r: String)
        ensures
            r@ == self@.document_prefix + text@,
    {
        self.prefixes.apply_document(text)
    }

    /// The query and document prefixes.
    pub fn prefixes(&self) -> (r: &Prefixes)
        ensures
            r.query@ == self@.query_prefix,
            r.document@ == self@.document_prefix,
    {
        &self.prefixes
    }

    /// The MRL width, when truncated.
    pub fn truncated(&self) -> (r: Option<TruncatedDims>)
        ensures
            match self@.truncated {
                Some(dims) => r matches Some(x) && x@ == dims,
                None => r is None,
            },
    {
        self.truncated
    }

    /// Cut the model's vectors to the stored width, where that is truncated. Truncation is a
    /// plain prefix: the vectors are not normalized again.
    pub fn stored(&self, vectors: Vec<Vec<F32>>) -> (r: Vec<Vec<F32>>)
        ensures
            chunk::vectors(r@) == self@.stored(chunk::vectors(vectors@)),
    {
        let dims: usize = match self.truncated {
            Some(dims) => dims.get(),
            None => return vectors,
        };
        let ghost all = cut(chunk::vectors(vectors@), dims);
        let mut out: Vec<Vec<F32>> = Vec::new();
        let mut i: usize = 0;
        while i < vectors.len()
            invariant
                all == cut(chunk::vectors(vectors@), dims),
                0 <= i <= vectors@.len(),
                chunk::vectors(out@) == all.take(i as int),
            decreases vectors@.len() - i,
        {
            let ghost before = out@;
            let row = prefix_of(&vectors[i], dims);
            out.push(row);
            proof {
                assert(chunk::vectors(out@) =~= chunk::vectors(before).push(row@));
                assert(all.take(i + 1) =~= all.take(i as int).push(all[i as int]));
            }
            i += 1;
        }
        assert(all.take(i as int) =~= all);
        out
    }
}

/// The first `dims` numbers of each vector.
pub open spec fn cut(vectors: Seq<Seq<F32>>, dims: usize) -> Seq<Seq<F32>> {
    vectors.map_values(|v: Seq<F32>| head(v, dims))
}

/// The first `dims` numbers of a vector, or all of it where it has fewer.
pub open spec fn head(v: Seq<F32>, dims: usize) -> Seq<F32> {
    if dims < v.len() {
        v.take(dims as int)
    } else {
        v
    }
}

fn prefix_of(v: &Vec<F32>, dims: usize) -> (r: Vec<F32>)
    ensures
        r@ == head(v@, dims),
{
    let mut out: Vec<F32> = Vec::new();
    let mut i: usize = 0;
    while i < v.len() && i < dims
        invariant
            0 <= i <= v@.len(),
            i <= dims,
            out@ == v@.take(i as int),
        decreases v@.len() - i,
    {
        out.push(v[i]);
        assert(v@.take(i + 1) =~= v@.take(i as int).push(v@[i as int]));
        i += 1;
    }
    assert(out@ =~= head(v@, dims));
    out
}

/// The one vector of a batch of one.
pub fn only_vector(vectors: Vec<Vec<F32>>) -> (r: Result<Vec<F32>, Error>)
    ensures
        error::outcome(r) == (if vectors@.len() > 0 {
            Ok::<Seq<F32>, Seq<char>>(vectors@.last()@)
        } else {
            Err("expected one embedding, got none"@)
        }),
{
    let mut vectors = vectors;
    match vectors.pop() {
        Some(v) => Ok(v),
        None => Err(Error::new("expected one embedding, got none".to_owned())),
    }
}

} // verus!
