//! OpenAI-compatible embeddings client (`POST {base_url}/embeddings`).
//!
//! Backends differ only by base URL. The caller supplies base URL, API key, model and
//! dimensions; nothing is read from the environment.
//!
//! Without MRL truncation no `dimensions` field is sent (the model's native output); with it, an
//! `n`-dimensional output is requested (`n >= 32`). Truncated vectors are not renormalized.
//!
//! Query and document prefixes are model configuration. Documents are always chunked, queries
//! never are. Sending requests is the caller's: an [`EmbeddingApi`] says what to send, and makes
//! sense of what comes back.

pub mod laws;
pub mod prompts;
pub mod response;

use crate::chunk::plan::{self, Cutter};
use crate::chunk::{self, Chunk, ChunkOptions, PendingChunk, TextChunk, TokenSpan};
use crate::error::{self, Error};
use crate::json;
use crate::limits::ConcurrencyLimits;
use crate::prefixes::Prefixes;
use crate::retry::RetryPolicy;
use crate::text;
use crate::tokens;
use vstd::prelude::*;

verus! {

broadcast use vstd::seq::group_seq_axioms;

/// Default inputs per request.
pub const DEFAULT_MAX_BATCH_SIZE: usize = 256;

/// Smallest MRL output dimension accepted by OpenAI-compatible providers.
pub const MIN_DIMS: usize = 32;

/// Configuration of an embeddings client. The API key is not shown by [`Self::redacted`].
pub struct EmbeddingApi {
    base_url: String,
    api_key: String,
    model: String,
    dims: Option<usize>,
    service_tier: Option<String>,
    max_batch_size: usize,
    prefixes: Prefixes,
    max_tokens: Option<usize>,
    limits: ConcurrencyLimits,
    tokenizer_source: Option<String>,
    hf_home: Option<String>,
    retry: RetryPolicy,
}

/// What an [`EmbeddingApi`] is configured with.
pub struct Api {
    pub base_url: Seq<char>,
    pub api_key: Seq<char>,
    pub model: Seq<char>,
    pub dims: Option<usize>,
    pub service_tier: Option<Seq<char>>,
    pub max_batch_size: usize,
    pub query_prefix: Seq<char>,
    pub document_prefix: Seq<char>,
    pub max_tokens: Option<usize>,
    pub limits: ConcurrencyLimits,
    pub tokenizer_source: Option<Seq<char>>,
    pub hf_home: Option<Seq<char>>,
    pub retry: RetryPolicy,
}

/// What an optional text holds.
pub open spec fn text_of(t: Option<String>) -> Option<Seq<char>> {
    match t {
        Some(t) => Some(t@),
        None => None,
    }
}

impl View for EmbeddingApi {
    type V = Api;

    closed spec fn view(&self) -> Api {
        Api {
            base_url: self.base_url@,
            api_key: self.api_key@,
            model: self.model@,
            dims: self.dims,
            service_tier: text_of(self.service_tier),
            max_batch_size: self.max_batch_size,
            query_prefix: self.prefixes.query@,
            document_prefix: self.prefixes.document@,
            max_tokens: self.max_tokens,
            limits: self.limits,
            tokenizer_source: text_of(self.tokenizer_source),
            hf_home: text_of(self.hf_home),
            retry: self.retry,
        }
    }
}

impl Clone for EmbeddingApi {
    fn clone(&self) -> (r: EmbeddingApi)
        ensures
            r@ == self@,
    {
        proof {
            use_type_invariant(self);
        }
        EmbeddingApi {
            base_url: self.base_url.clone(),
            api_key: self.api_key.clone(),
            model: self.model.clone(),
            dims: self.dims,
            service_tier: self.service_tier.clone(),
            max_batch_size: self.max_batch_size,
            prefixes: self.prefixes.clone(),
            max_tokens: self.max_tokens,
            limits: self.limits,
            tokenizer_source: self.tokenizer_source.clone(),
            hf_home: self.hf_home.clone(),
            retry: self.retry,
        }
    }
}

impl Api {
    /// What holds of every client.
    pub open spec fn wf(self) -> bool {
        &&& self.max_batch_size > 0
        &&& self.dims matches Some(n) ==> n >= MIN_DIMS
    }

    /// `r` are the chunks of a document: none where it has fewer than `opts.min_tokens` tokens.
    pub open spec fn document_chunked(
        tokenizer: tokenizers::Tokenizer,
        text: Seq<char>,
        opts: ChunkOptions,
        r: Result<Seq<Chunk>, Seq<char>>,
    ) -> bool {
        exists|spans: Result<Seq<TokenSpan>, Seq<char>>| #[trigger]
            tokens::spanned_by(tokenizer, text, spans) && r == match spans {
                Err(m) => Err::<Seq<Chunk>, Seq<char>>(m),
                Ok(spans) => if spans.len() < opts.min_tokens {
                    Ok(Seq::empty())
                } else {
                    Ok(chunk::chunks(text, spans, opts))
                },
            }
    }

    /// What may come of cutting a document under `opts`.
    pub open spec fn cuts(tokenizer: tokenizers::Tokenizer, opts: ChunkOptions) -> spec_fn(
        Seq<char>,
        Result<Seq<Chunk>, Seq<char>>,
    ) -> bool {
        |text: Seq<char>, r: Result<Seq<Chunk>, Seq<char>>|
            Api::document_chunked(tokenizer, text, opts, r)
    }

    /// `r` are the rows of a batch of documents, or the failure that ended their chunking.
    pub open spec fn planned(
        tokenizer: tokenizers::Tokenizer,
        texts: Seq<Seq<char>>,
        opts: ChunkOptions,
        r: Result<Seq<chunk::Row>, Seq<char>>,
    ) -> bool {
        plan::planned(Api::cuts(tokenizer, opts), texts, r)
    }
}

/// The texts as JSON strings.
pub open spec fn quoted_all(texts: Seq<Seq<char>>) -> Seq<Seq<char>> {
    texts.map_values(|t: Seq<char>| json::quoted(t))
}

/// The request body for a batch of inputs.
pub open spec fn body_text(api: Api, inputs: Seq<Seq<char>>) -> Seq<char> {
    "{\"model\":"@ + json::quoted(api.model) + ",\"input\":["@ + text::joined(
        quoted_all(inputs),
        ","@,
    ) + "],\"encoding_format\":\"float\""@ + match api.dims {
        Some(n) => ",\"dimensions\":"@ + text::digits(n as nat),
        None => Seq::empty(),
    } + match api.service_tier {
        Some(tier) => ",\"service_tier\":"@ + json::quoted(tier),
        None => Seq::empty(),
    } + "}"@
}

/// `inputs` cut into batches of `size`, the last of which may be smaller.
pub open spec fn batched<T>(inputs: Seq<T>, size: int) -> Seq<Seq<T>>
    decreases inputs.len(),
{
    if inputs.len() == 0 || size < 1 {
        Seq::empty()
    } else if inputs.len() <= size {
        seq![inputs]
    } else {
        seq![inputs.take(size)] + batched(inputs.skip(size), size)
    }
}

/// What a list of batches holds.
pub open spec fn batch_texts(list: Seq<Vec<String>>) -> Seq<Seq<Seq<char>>> {
    list.map_values(|b: Vec<String>| text::texts(b@))
}

/// What a client shows of itself: everything but the key.
#[derive(Debug)]
pub struct RedactedApi {
    pub base_url: String,
    pub api_key: &'static str,
    pub model: String,
    pub dims: Option<usize>,
    pub service_tier: Option<String>,
    pub max_batch_size: usize,
    pub prefixes: Prefixes,
    pub max_tokens: Option<usize>,
    pub limits: ConcurrencyLimits,
    pub tokenizer_source: Option<String>,
    pub hf_home: Option<String>,
    pub retry: RetryPolicy,
}

impl View for RedactedApi {
    type V = Api;

    open spec fn view(&self) -> Api {
        Api {
            base_url: self.base_url@,
            api_key: self.api_key@,
            model: self.model@,
            dims: self.dims,
            service_tier: text_of(self.service_tier),
            max_batch_size: self.max_batch_size,
            query_prefix: self.prefixes.query@,
            document_prefix: self.prefixes.document@,
            max_tokens: self.max_tokens,
            limits: self.limits,
            tokenizer_source: text_of(self.tokenizer_source),
            hf_home: text_of(self.hf_home),
            retry: self.retry,
        }
    }
}

/// Cuts by the tokens of a tokenizer that encodes every text in full.
struct FullText<'a> {
    tokenizer: &'a tokenizers::Tokenizer,
}

impl<'a> Cutter for FullText<'a> {
    closed spec fn ready(&self) -> bool {
        tokens::encodes_all(*self.tokenizer)
    }

    closed spec fn cuts(&self, opts: ChunkOptions) -> spec_fn(
        Seq<char>,
        Result<Seq<Chunk>, Seq<char>>,
    ) -> bool {
        Api::cuts(*self.tokenizer, opts)
    }

    fn cut(&self, text: &str, opts: &ChunkOptions) -> (r: Result<Vec<TextChunk>, Error>) {
        let spans = tokens::token_spans(self.tokenizer, text);
        assert(tokens::spanned_by(*self.tokenizer, text@, error::outcome(spans)));
        match spans {
            Err(e) => Err(e),
            Ok(spans) => {
                if spans.len() < opts.min_tokens {
                    let none: Vec<TextChunk> = Vec::new();
                    assert(chunk::views(none@) =~= Seq::empty());
                    Ok(none)
                } else {
                    Ok(chunk::chunk_spans(text, spans.as_slice(), opts))
                }
            },
        }
    }
}

impl EmbeddingApi {
    #[verifier::type_invariant]
    spec fn valid(self) -> bool {
        &&& self.max_batch_size > 0
        &&& self.dims matches Some(n) ==> n >= MIN_DIMS
    }

    /// Build from a base URL, API key, model and shared limits.
    ///
    /// `base_url` is the OpenAI-compatible root without a trailing slash. Vectors use the model's
    /// native dimensions unless [`Self::with_mrl_truncation`] is called.
    pub fn new(base_url: &str, api_key: &str, model: &str, limits: ConcurrencyLimits) -> (r:
        EmbeddingApi)
        ensures
            r@.base_url == base_url@,
            r@.api_key == api_key@,
            r@.model == model@,
            r@.dims is None,
            r@.service_tier is None,
            r@.max_batch_size == 256,
            r@.query_prefix == Seq::<char>::empty(),
            r@.document_prefix == Seq::<char>::empty(),
            r@.max_tokens is None,
            r@.limits == limits,
            r@.tokenizer_source is None,
            r@.hf_home is None,
            r@.retry.max_attempts == 3,
            crate::duration::nanos(r@.retry.base_backoff) == 250_000_000,
            crate::duration::nanos(r@.retry.max_backoff) == 2_000_000_000,
    {
        EmbeddingApi {
            base_url: base_url.to_owned(),
            api_key: api_key.to_owned(),
            model: model.to_owned(),
            dims: None,
            service_tier: None,
            max_batch_size: DEFAULT_MAX_BATCH_SIZE,
            prefixes: Prefixes::none(),
            max_tokens: None,
            limits,
            tokenizer_source: None,
            hf_home: None,
            retry: RetryPolicy::default(),
        }
    }

    /// Request Matryoshka (MRL) truncation to `dims` dimensions; default is the model's native
    /// dimensions.
    pub fn with_mrl_truncation(self, dims: usize) -> (r: EmbeddingApi)
        requires
            dims >= MIN_DIMS,
        ensures
            r@ == (Api { dims: Some(dims), ..self@ }),
    {
        proof {
            use_type_invariant(&self);
        }
        EmbeddingApi { dims: Some(dims), ..self }
    }

    /// Set the model's query and document prefixes. Defaults to none.
    pub fn with_prefixes(self, prefixes: &Prefixes) -> (r: EmbeddingApi)
        ensures
            r@ == (Api {
                query_prefix: prefixes.query@,
                document_prefix: prefixes.document@,
                ..self@
            }),
    {
        proof {
            use_type_invariant(&self);
        }
        EmbeddingApi { prefixes: prefixes.clone(), ..self }
    }

    /// Declare the model's context window in tokens. Required before
    /// [`Self::default_chunk_options`].
    pub fn with_max_tokens(self, max_tokens: usize) -> (r: EmbeddingApi)
        ensures
            r@ == (Api { max_tokens: Some(max_tokens), ..self@ }),
    {
        proof {
            use_type_invariant(&self);
        }
        EmbeddingApi { max_tokens: Some(max_tokens), ..self }
    }

    /// Set the optional `service_tier`; omitted when unset.
    pub fn with_service_tier(self, tier: &str) -> (r: EmbeddingApi)
        ensures
            r@ == (Api { service_tier: Some(tier@), ..self@ }),
    {
        proof {
            use_type_invariant(&self);
        }
        EmbeddingApi { service_tier: Some(tier.to_owned()), ..self }
    }

    /// Set inputs per request (default 256).
    pub fn with_max_batch_size(self, n: usize) -> (r: EmbeddingApi)
        requires
            n > 0,
        ensures
            r@ == (Api { max_batch_size: n, ..self@ }),
    {
        proof {
            use_type_invariant(&self);
        }
        EmbeddingApi { max_batch_size: n, ..self }
    }

    /// Configure the tokenizer: `source` is a local `tokenizer.json` path or a repository id.
    pub fn with_tokenizer(self, source: &str) -> (r: EmbeddingApi)
        ensures
            r@ == (Api { tokenizer_source: Some(source@), ..self@ }),
    {
        proof {
            use_type_invariant(&self);
        }
        EmbeddingApi { tokenizer_source: Some(source.to_owned()), ..self }
    }

    /// Set the Hugging Face home used for the tokenizer's cache and auth. Required when the
    /// tokenizer's source is a repository id.
    pub fn with_hf_home(self, home: &str) -> (r: EmbeddingApi)
        ensures
            r@ == (Api { hf_home: Some(home@), ..self@ }),
    {
        proof {
            use_type_invariant(&self);
        }
        EmbeddingApi { hf_home: Some(home.to_owned()), ..self }
    }

    /// Set the transient-failure retry policy (default 3 attempts, 250ms to 2s).
    pub fn with_retry_policy(self, retry: RetryPolicy) -> (r: EmbeddingApi)
        ensures
            r@ == (Api { retry, ..self@ }),
    {
        proof {
            use_type_invariant(&self);
        }
        EmbeddingApi { retry, ..self }
    }

    /// What the client shows of itself: everything but the key.
    pub fn redacted(&self) -> (r: RedactedApi)
        ensures
            r@ == (Api { api_key: "<redacted>"@, ..self@ }),
    {
        RedactedApi {
            base_url: self.base_url.clone(),
            api_key: "<redacted>",
            model: self.model.clone(),
            dims: self.dims,
            service_tier: self.service_tier.clone(),
            max_batch_size: self.max_batch_size,
            prefixes: self.prefixes.clone(),
            max_tokens: self.max_tokens,
            limits: self.limits,
            tokenizer_source: self.tokenizer_source.clone(),
            hf_home: self.hf_home.clone(),
            retry: self.retry,
        }
    }

    /// Where requests go.
    pub fn url(&self) -> (r: String)
        ensures
            r@ == self@.base_url + "/embeddings"@,
    {
        self.base_url.clone().concat("/embeddings")
    }

    /// The key requests carry.
    pub fn api_key(&self) -> (r: &str)
        ensures
            r@ == self@.api_key,
    {
        self.api_key.as_str()
    }

    /// The model, which is also the repository its prompts are read from.
    pub fn model(&self) -> (r: &str)
        ensures
            r@ == self@.model,
    {
        self.model.as_str()
    }

    /// The concurrency cap and the per-call timeout.
    pub fn limits(&self) -> (r: ConcurrencyLimits)
        ensures
            r == self@.limits,
    {
        self.limits
    }

    /// The retry policy.
    pub fn retry(&self) -> (r: RetryPolicy)
        ensures
            r == self@.retry,
    {
        self.retry
    }

    /// Where the tokenizer comes from; an error when [`Self::with_tokenizer`] was not called.
    pub fn tokenizer_source(&self) -> (r: Result<&str, Error>)
        ensures
            match (r, self@.tokenizer_source) {
                (Ok(x), Some(source)) => x@ == source,
                (Err(e), None) => e@ == "tokenizer not configured (call .with_tokenizer)"@,
                _ => false,
            },
    {
        match &self.tokenizer_source {
            Some(source) => Ok(source.as_str()),
            None => Err(
                Error::new("tokenizer not configured (call .with_tokenizer)".to_owned()),
            ),
        }
    }

    /// The Hugging Face home; an error when [`Self::with_hf_home`] was not called.
    pub fn hf_home(&self) -> (r: Result<&str, Error>)
        ensures
            match (r, self@.hf_home) {
                (Ok(x), Some(home)) => x@ == home,
                (Err(e), None) => e@ == "hf_home not configured (call .with_hf_home)"@,
                _ => false,
            },
    {
        match &self.hf_home {
            Some(home) => Ok(home.as_str()),
            None => Err(Error::new("hf_home not configured (call .with_hf_home)".to_owned())),
        }
    }

    /// Chunk options sized to the declared context window, minus the special tokens the
    /// tokenizer adds to every input. An error when the window is not declared.
    pub fn default_chunk_options(&self) -> (r: Result<ChunkOptions, Error>)
        ensures
            match (r, self@.max_tokens) {
                (Ok(opts), Some(max)) => {
                    &&& opts.max_tokens == (if max <= 3 {
                        1
                    } else {
                        max - 2
                    })
                    &&& opts.overlap_tokens == 64
                    &&& opts.min_tokens == 5
                    &&& opts.max_chunks is None
                },
                (Err(e), None) => e@ == "max_tokens not configured (call .with_max_tokens)"@,
                _ => false,
            },
    {
        match self.max_tokens {
            Some(max) => Ok(ChunkOptions::new(chunk::content_window(max))),
            None => Err(
                Error::new("max_tokens not configured (call .with_max_tokens)".to_owned()),
            ),
        }
    }

    /// The one input of a query: `text` behind the query prefix.
    pub fn query_input(&self, text: &str) -> (r: String)
        ensures
            r@ == self@.query_prefix + text@,
    {
        self.prefixes.apply_query(text)
    }

    /// The chunks of a batch of documents, in row order: by `(doc_ix, chunk_ix)`. Documents below
    /// `opts.min_tokens` contribute none. The tokenizer encodes every text in full; see
    /// [`Self::plan_documents_in_full`] for one that may not.
    pub fn plan_documents(
        tokenizer: &tokenizers::Tokenizer,
        texts: &[&str],
        opts: &ChunkOptions,
    ) -> (r: Result<Vec<PendingChunk>, Error>)
        requires
            tokens::encodes_all(*tokenizer),
        ensures
            Api::planned(*tokenizer, text::slices(texts@), *opts, chunk::rows_outcome(r)),
    {
        plan::plan(&FullText { tokenizer }, texts, opts)
    }

    /// The chunks of a batch of documents, as [`Self::plan_documents`] plans them with the same
    /// tokenizer, truncation disabled. A tokenizer that may fail on a text is refused.
    pub fn plan_documents_in_full(
        tokenizer: &tokenizers::Tokenizer,
        texts: &[&str],
        opts: &ChunkOptions,
    ) -> (r: Result<Vec<PendingChunk>, Error>)
        ensures
            match tokens::refusal(tokens::untruncated(*tokenizer)) {
                Some(m) => r matches Err(e) && e@ == m,
                None => Api::planned(
                    tokens::untruncated(*tokenizer),
                    text::slices(texts@),
                    *opts,
                    chunk::rows_outcome(r),
                ),
            },
    {
        match tokens::counting(tokenizer) {
            Ok(counting) => EmbeddingApi::plan_documents(&counting, texts, opts),
            Err(e) => Err(e),
        }
    }

    /// The texts to embed for the pending chunks, each behind the document prefix.
    pub fn document_inputs(&self, pending: &Vec<PendingChunk>) -> (r: Vec<String>)
        ensures
            text::texts(r@) == chunk::prefixed(
                chunk::pending_rows(pending@),
                self@.document_prefix,
            ),
    {
        chunk::prefixed_inputs(pending, self.prefixes.document.as_str())
    }

    /// Cut the inputs into the batches of one request each, in order.
    pub fn batches(&self, inputs: &Vec<String>) -> (r: Vec<Vec<String>>)
        ensures
            batch_texts(r@) == batched(text::texts(inputs@), self@.max_batch_size as int),
            self@.wf(),
    {
        proof {
            use_type_invariant(self);
        }
        let size: usize = self.max_batch_size;
        let ghost all = text::texts(inputs@);
        let mut out: Vec<Vec<String>> = Vec::new();
        let mut start: usize = 0;
        proof {
            assert(all.skip(0) =~= all);
            assert(batch_texts(out@) + batched(all, size as int) =~= batched(all, size as int));
        }
        while start < inputs.len()
            invariant
                size > 0,
                all == text::texts(inputs@),
                0 <= start <= inputs@.len(),
                batched(all, size as int) == batch_texts(out@) + batched(
                    all.skip(start as int),
                    size as int,
                ),
            decreases inputs@.len() - start,
        {
            let left: usize = inputs.len() - start;
            let end: usize = if left <= size {
                inputs.len()
            } else {
                start + size
            };
            let batch = text::part(inputs, start, end);
            let ghost before = out@;
            out.push(batch);
            proof {
                let rest = all.skip(start as int);
                assert(batch_texts(out@) =~= batch_texts(before).push(text::texts(batch@)));
                assert(all.subrange(start as int, end as int) =~= rest.take(end - start));
                assert(rest.take(rest.len() as int) =~= rest);
                assert(rest.skip(end - start) =~= all.skip(end as int));
                assert(batched(rest, size as int) =~= seq![text::texts(batch@)] + batched(
                    all.skip(end as int),
                    size as int,
                ));
                assert(batch_texts(out@) + batched(all.skip(end as int), size as int)
                    =~= batch_texts(before) + batched(rest, size as int));
            }
            start = end;
        }
        assert(batch_texts(out@) + Seq::<Seq<Seq<char>>>::empty() =~= batch_texts(out@));
        out
    }

    /// Assemble the request body for a batch.
    pub fn build_body(&self, inputs: &Vec<String>) -> (r: String)
        ensures
            r@ == body_text(self@, text::texts(inputs@)),
    {
        let ghost all = quoted_all(text::texts(inputs@));
        let mut parts: Vec<String> = Vec::new();
        let mut i: usize = 0;
        while i < inputs.len()
            invariant
                all == quoted_all(text::texts(inputs@)),
                0 <= i <= inputs@.len(),
                text::texts(parts@) == all.take(i as int),
            decreases inputs@.len() - i,
        {
            let ghost before = parts@;
            let part = json::quote(inputs[i].as_str());
            parts.push(part);
            proof {
                assert(text::texts(parts@) =~= text::texts(before).push(part@));
                assert(all.take(i + 1) =~= all.take(i as int).push(all[i as int]));
            }
            i += 1;
        }
        assert(all.take(i as int) =~= all);
        let head = "{\"model\":".to_owned().concat(json::quote(self.model.as_str()).as_str()).concat(
            ",\"input\":[",
        ).concat(text::join(&parts, ",").as_str()).concat("],\"encoding_format\":\"float\"");
        let dims = match self.dims {
            Some(n) => ",\"dimensions\":".to_owned().concat(text::decimal(n as u64).as_str()),
            None => String::new(),
        };
        let tier = match &self.service_tier {
            Some(tier) => ",\"service_tier\":".to_owned().concat(
                json::quote(tier.as_str()).as_str(),
            ),
            None => String::new(),
        };
        head.concat(dims.as_str()).concat(tier.as_str()).concat("}")
    }
}

} // verus!
