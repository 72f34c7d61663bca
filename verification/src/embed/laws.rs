//! What holds of loading a model, and of the rows that are planned with it.

use crate::chunk::laws as chunk_laws;
use crate::chunk::plan;
use crate::chunk::{self, Chunk, ChunkOptions, Row, TokenSpan};
use crate::embed::fake;
use crate::embed::graph::{self, Graph};
use crate::embed::hub::{self, HubClient};
use crate::embed::quantize;
use crate::embed::spec::{self, PoolingMeta, Spec};
use crate::embed::{self, EmbedderModel};
use crate::float::F32;
use crate::text;
use vstd::prelude::*;

verus! {

broadcast use vstd::seq::group_seq_axioms;

/// Nothing is read unverified: bytes that a reading gives belong to a listed file, and hash to
/// the sha256 that the listing reports of it, if it reports one.
pub proof fn what_is_read_is_verified<C: HubClient>(
    client: &C,
    spec: Spec,
    tree: Map<Seq<char>, Option<String>>,
    file: Seq<char>,
    bytes: Seq<u8>,
)
    requires
        hub::read_from(client, spec, tree, file, Ok(bytes)),
    ensures
        tree.dom().contains(file),
        hub::reported(tree, file) matches Some(hash) ==> hub::hex_text(hub::sha256(bytes)) == hash,
{
}

/// A fetch that succeeds has read every required file from a listing, verified, and carries
/// those bytes.
pub proof fn what_is_fetched_was_read<C: HubClient>(
    client: &C,
    spec: Spec,
    tree: Map<Seq<char>, Option<String>>,
    parts: hub::Parts,
)
    requires
        hub::fetched_listed(client, spec, tree, Ok(parts)),
    ensures
        hub::read_from(client, spec, tree, spec.file, Ok(parts.onnx)),
        hub::read_from(client, spec, tree, "tokenizer.json"@, Ok(parts.tokenizer_file)),
        hub::read_from(client, spec, tree, "config.json"@, Ok(parts.config_file)),
        hub::read_from(
            client,
            spec,
            tree,
            "special_tokens_map.json"@,
            Ok(parts.special_tokens_map_file),
        ),
        hub::read_from(client, spec, tree, "tokenizer_config.json"@, Ok(parts.tokenizer_config_file)),
        parts.external.len() == spec.additional.len(),
        forall|i: int|
            0 <= i < parts.external.len() ==> {
                &&& (#[trigger] parts.external[i]).0 == spec.additional[i]
                &&& hub::read_from(
                    client,
                    spec,
                    tree,
                    parts.external[i].0,
                    Ok(parts.external[i].1),
                )
            },
{
    let names = hub::required(spec);
    let n = spec.additional.len() as int;
    let files = choose|files: Result<Seq<Seq<u8>>, Seq<char>>| #[trigger]
        hub::read_all_from(client, spec, tree, names, files) && match files {
            Err(m) => Ok::<hub::Parts, Seq<char>>(parts) == Err::<hub::Parts, Seq<char>>(m),
            Ok(files) => if hub::max_length(files[n + 4]) is Err || hub::matryoshka(files[n + 2])
                is Err {
                Ok::<hub::Parts, Seq<char>>(parts) == hub::assembled(spec, files, Ok(None))
            } else {
                exists|pooling: Result<Option<PoolingMeta>, Seq<char>>| #[trigger]
                    hub::pooling_for(client, spec, tree, pooling) && Ok::<hub::Parts, Seq<char>>(
                        parts,
                    ) == hub::assembled(spec, files, pooling)
            },
        };
    let reads = choose|reads: Seq<Result<Seq<u8>, Seq<char>>>| #[trigger]
        hub::read_in_turn(client, spec, tree, names, reads) && files == hub::collected(reads);
    let bodies = files->Ok_0;
    assert(files is Ok);
    assert(reads.len() == names.len() == n + 5);
    assert(bodies.len() == n + 5);
    assert forall|k: int| 0 <= k < n + 5 implies hub::read_from(
        client,
        spec,
        tree,
        #[trigger] names[k],
        Ok(bodies[k]),
    ) by {
        assert(reads[k] is Ok);
        assert(bodies[k] == reads[k]->Ok_0);
        assert(reads[k] == Ok::<Seq<u8>, Seq<char>>(bodies[k]));
    }
    assert(names[0] == spec.file);
    assert(names[n + 1] == "tokenizer.json"@);
    assert(names[n + 2] == "config.json"@);
    assert(names[n + 3] == "special_tokens_map.json"@);
    assert(names[n + 4] == "tokenizer_config.json"@);
    assert forall|i: int| 0 <= i < parts.external.len() implies {
        &&& (#[trigger] parts.external[i]).0 == spec.additional[i]
        &&& hub::read_from(client, spec, tree, parts.external[i].0, Ok(parts.external[i].1))
    } by {
        assert(names[i + 1] == spec.additional[i]);
    }
}

/// A graph that passes the guards can be fed, has the output to be read, which is a tensor, is
/// pooled as declared where that output is 3-D and not at all elsewhere, and is truncated only to a
/// declared width where widths are declared.
pub proof fn what_passes_can_run(
    graph: Graph,
    spec: Spec,
    meta: Option<PoolingMeta>,
    widths: Option<Seq<usize>>,
)
    requires
        graph::validated(graph, spec, meta, widths) is Ok,
    ensures
        ({
            let s = graph::validated(graph, spec, meta, widths)->Ok_0;
            &&& forall|i: int|
                0 <= i < graph.inputs.len() ==> graph::feedable(#[trigger] graph.inputs[i])
            &&& exists|i: int|
                0 <= i < graph.outputs.len() && (#[trigger] graph.outputs[i]).0 == s.name
                    && graph.outputs[i].1 != 0 && s.pooling == (if graph.outputs[i].1 == 3 {
                    spec.pooling
                } else {
                    None
                }) && (graph.outputs[i].1 == 3 ==> spec.pooling is Some)
            &&& spec.output matches Some(name) ==> s.name == name
            &&& spec.output is None ==> graph.outputs.len() == 1
            &&& s.mrl_from_metadata <==> spec.truncate_to is Some && widths is Some
            &&& s.mrl_from_metadata ==> widths->0.contains(spec.truncate_to->0)
        }),
{
    assert forall|i: int| 0 <= i < graph.inputs.len() implies graph::feedable(
        #[trigger] graph.inputs[i],
    ) by {
        if !graph::feedable(graph.inputs[i]) {
            lemma_unsupported(graph.inputs, i);
        }
    }
    match spec.output {
        Some(name) => {
            let i = lemma_output_from(graph.outputs, name, 0);
            assert(graph.outputs[i].0 == name);
        },
        None => {
            assert(graph.outputs[0].0 == graph.outputs[0].0);
        },
    }
}

proof fn lemma_unsupported(inputs: Seq<Seq<char>>, i: int)
    requires
        0 <= i < inputs.len(),
        !graph::feedable(inputs[i]),
    ensures
        graph::unsupported(inputs).len() > 0,
    decreases inputs.len(),
{
    reveal(Seq::filter);
    if i < inputs.len() - 1 {
        lemma_unsupported(inputs.drop_last(), i);
    }
}

proof fn lemma_output_from(outputs: Seq<(Seq<char>, usize)>, name: Seq<char>, from: int) -> (i: int)
    requires
        graph::output_from(outputs, name, from) is Some,
        0 <= from,
    ensures
        from <= i < outputs.len(),
        outputs[i].0 == name,
        graph::output_from(outputs, name, from) == Some(outputs[i]),
    decreases outputs.len() - from,
{
    if outputs[from].0 == name {
        from
    } else {
        lemma_output_from(outputs, name, from + 1)
    }
}

/// A number behind a text that does not end in a digit can be read back.
proof fn lemma_number_behind(a: Seq<char>, m: nat, b: Seq<char>, n: nat)
    requires
        a.len() > 0,
        b.len() > 0,
        !text::is_digit(a.last()),
        !text::is_digit(b.last()),
        a + text::digits(m) == b + text::digits(n),
    ensures
        a == b,
        m == n,
{
    let x = text::digits(m);
    let y = text::digits(n);
    let all = a + x;
    text::lemma_digits(m);
    text::lemma_digits(n);
    assert(all.len() == b.len() + y.len());
    if a.len() < b.len() {
        assert(all[b.len() - 1] == b.last());
        assert(all[b.len() - 1] == x[b.len() - 1 - a.len()]);
    } else if b.len() < a.len() {
        assert(all[a.len() - 1] == a.last());
        assert(all[a.len() - 1] == (b + y)[a.len() - 1]);
        assert(all[a.len() - 1] == y[a.len() - 1 - b.len()]);
    }
    assert(a =~= all.take(a.len() as int));
    assert(b =~= (b + y).take(b.len() as int));
    assert(x =~= all.skip(a.len() as int));
    assert(y =~= (b + y).skip(b.len() as int));
    text::lemma_digits_injective(m, n);
}

/// The identity of `spec` up to its number.
spec fn stem(spec: Spec) -> Seq<char> {
    spec.repo + "/"@ + spec.file + "@"@ + spec.revision + "#d"@
}

proof fn lemma_stem(a: Spec, b: Spec)
    requires
        a.revision.len() == b.revision.len(),
        stem(a) == stem(b),
    ensures
        a.revision == b.revision,
        a.repo + "/"@ + a.file == b.repo + "/"@ + b.file,
{
    reveal_strlit("#d");
    reveal_strlit("@");
    let n = stem(a).len() as int;
    let r = a.revision.len() as int;
    assert(a.revision =~= stem(a).subrange(n - 2 - r, n - 2));
    assert(b.revision =~= stem(b).subrange(n - 2 - r, n - 2));
    assert(a.repo + "/"@ + a.file =~= stem(a).take(n - 3 - r));
    assert(b.repo + "/"@ + b.file =~= stem(b).take(n - 3 - r));
}

/// An identity pins what was loaded: two specs with the same identity have the same artifact
/// path, the same revision and the same stored width, and if truncated, had it authorised in the
/// same way.
pub proof fn identities_pin_what_was_loaded(a: Spec, from_a: bool, b: Spec, from_b: bool)
    requires
        a.wf(),
        b.wf(),
        graph::identity(a, from_a) == graph::identity(b, from_b),
    ensures
        a.repo + "/"@ + a.file == b.repo + "/"@ + b.file,
        a.revision == b.revision,
        a.effective() == b.effective(),
        a.truncate_to is Some <==> b.truncate_to is Some,
        a.truncate_to is Some ==> from_a == from_b,
{
    reveal_strlit("/meta");
    reveal_strlit("/spec");
    reveal_strlit("#d");
    let x = graph::identity(a, from_a);
    let y = graph::identity(b, from_b);
    let p = stem(a) + text::digits(a.effective());
    let q = stem(b) + text::digits(b.effective());
    text::lemma_digits(a.effective());
    text::lemma_digits(b.effective());
    assert(p.last() == text::digits(a.effective()).last());
    assert(q.last() == text::digits(b.effective()).last());
    assert(text::is_digit(p.last()));
    assert(text::is_digit(q.last()));
    assert(x.last() == (if a.truncate_to is None {
        p.last()
    } else if from_a {
        'a'
    } else {
        'c'
    }));
    assert(y.last() == (if b.truncate_to is None {
        q.last()
    } else if from_b {
        'a'
    } else {
        'c'
    }));
    if a.truncate_to is Some {
        assert(p =~= x.take(x.len() - 5));
        assert(q =~= y.take(y.len() - 5));
    }
    assert(p == q);
    assert(stem(a).last() == 'd');
    assert(stem(b).last() == 'd');
    lemma_number_behind(stem(a), a.effective(), stem(b), b.effective());
    lemma_stem(a, b);
}

// ---- widths --------------------------------------------------------------------------------

/// A loaded model has the declared width, and what is stored of its vectors is no wider and
/// fills whole bytes with its sign bits.
pub proof fn loaded_widths_fit(
    spec: Spec,
    from_metadata: bool,
    probe: Option<usize>,
    query_prefix: Seq<char>,
    document_prefix: Seq<char>,
    tokenizer: tokenizers::Tokenizer,
)
    requires
        spec.wf(),
        embed::loaded(
            spec,
            from_metadata,
            probe,
            query_prefix,
            document_prefix,
            tokenizer,
        ) is Ok,
    ensures
        ({
            let m = embed::loaded(
                spec,
                from_metadata,
                probe,
                query_prefix,
                document_prefix,
                tokenizer,
            )->Ok_0;
            &&& m.native_dim == spec.native_dim
            &&& m.dim() == spec.effective()
            &&& 0 < m.dim() <= m.native_dim
            &&& 8 * quantize::bytes_for(m.dim() as int) == m.dim()
        }),
{
}

/// Storing a batch is storing each of its vectors alone. Vectors of the model's own width are stored
/// at the effective width, as a prefix of what the model gave.
pub proof fn batches_match_single_vectors(m: EmbedderModel, vectors: Seq<Seq<F32>>, i: int)
    requires
        m.dim() <= m.native_dim,
        0 <= i < vectors.len(),
        vectors[i].len() == m.native_dim,
    ensures
        m.stored(vectors).len() == vectors.len(),
        m.stored(vectors)[i] == m.stored(seq![vectors[i]])[0],
        m.stored(vectors)[i].len() == m.dim(),
        m.stored(vectors)[i].is_prefix_of(vectors[i]),
{
}

/// The vectors that a fake embedder gives: of each text its stream of numbers, each mapped by
/// `number`.
pub open spec fn fake_vectors(
    texts: Seq<Seq<char>>,
    dim: nat,
    number: spec_fn(u64) -> F32,
) -> Seq<Seq<F32>> {
    texts.map_values(|t: Seq<char>| fake::numbers(t, dim).map_values(number))
}

/// A fake embedder gives a batch what it gives each text alone, however its numbers are mapped: one
/// vector per text, of the effective width. The vector of a narrowed one is the plain prefix of the
/// vector of one that is not, with no number changed.
pub proof fn fake_batches_match_single_texts(
    m: EmbedderModel,
    texts: Seq<Seq<char>>,
    number: spec_fn(u64) -> F32,
    i: int,
)
    requires
        m.dim() <= m.native_dim,
        0 <= i < texts.len(),
    ensures
        ({
            let n = m.native_dim as nat;
            let rows = m.stored(fake_vectors(texts, n, number));
            &&& rows.len() == texts.len()
            &&& rows[i] == m.stored(fake_vectors(seq![texts[i]], n, number))[0]
            &&& rows[i].len() == m.dim()
            &&& rows[i] == fake_vectors(texts, n, number)[i].take(m.dim() as int)
            &&& rows[i] == fake_vectors(texts, m.dim() as nat, number)[i]
        }),
{
    let n = m.native_dim as nat;
    let vectors = fake_vectors(texts, n, number);
    batches_match_single_vectors(m, vectors, i);
    assert(seq![vectors[i]] =~= fake_vectors(seq![texts[i]], n, number));
    fake::narrower_streams_are_prefixes(texts[i], m.dim() as nat, n);
    assert(m.stored(vectors)[i] =~= vectors[i].take(m.dim() as int));
    assert(vectors[i].take(m.dim() as int) =~= fake_vectors(texts, m.dim() as nat, number)[i]);
}

// ---- planned rows --------------------------------------------------------------------------

/// Every row belongs to a document of the batch that has at least `opts.min_tokens` tokens, and
/// its chunk is a non-blank slice of that document. So a document below the minimum has no row.
pub proof fn rows_are_slices_of_their_documents(
    m: EmbedderModel,
    texts: Seq<Seq<char>>,
    opts: ChunkOptions,
    rows: Seq<Row>,
    i: int,
)
    requires
        m.planned(texts, opts, Ok(rows)),
        0 <= i < rows.len(),
    ensures
        0 <= rows[i].doc_ix < texts.len(),
        chunk_laws::slice_of(rows[i].chunk, texts[rows[i].doc_ix], opts.window()),
        exists|n: int| #[trigger]
            m.counted(texts[rows[i].doc_ix], Ok(n)) && n >= opts.min_tokens,
{
    let docs = plan::rows_come_of_chunks(m.cuts(opts), texts, rows);
    chunk_laws::rows_point_back(docs, i);
    let d = rows[i].doc_ix;
    let s = texts[d];
    assert(m.document_chunked(s, opts, Ok(docs[d])));
    assert(m.chunked(s, opts, Ok(docs[d])));
    let spans = choose|spans: Result<Seq<TokenSpan>, Seq<char>>| #[trigger]
        m.spanned(s, spans) && Ok::<Seq<Chunk>, Seq<char>>(docs[d]) == match spans {
            Ok(spans) => Ok::<Seq<Chunk>, Seq<char>>(chunk::chunks(s, spans, opts)),
            Err(e) => Err(e),
        };
    chunk_laws::chunks_are_slices(s, spans->Ok_0, opts, rows[i].chunk_ix);
}

/// Planned rows come out ordered by document and chunk, none of them twice.
pub proof fn planned_rows_are_ordered(
    m: EmbedderModel,
    texts: Seq<Seq<char>>,
    opts: ChunkOptions,
    rows: Seq<Row>,
    i: int,
    j: int,
)
    requires
        m.planned(texts, opts, Ok(rows)),
        0 <= i < j < rows.len(),
    ensures
        chunk_laws::row_before(rows[i], rows[j]),
{
    let docs = plan::rows_come_of_chunks(m.cuts(opts), texts, rows);
    chunk_laws::rows_are_ordered(docs, i, j);
}

/// No content is lost: without a cap, the rows of a document with enough tokens hold all that is
/// not blank in any of them. The tokens are those that the document was cut by, and must be in
/// order.
pub proof fn no_document_token_is_lost(
    m: EmbedderModel,
    texts: Seq<Seq<char>>,
    opts: ChunkOptions,
    rows: Seq<Row>,
    d: int,
    n: int,
) -> (spans: Seq<TokenSpan>)
    requires
        opts.max_chunks is None,
        m.planned(texts, opts, Ok(rows)),
        0 <= d < texts.len(),
        forall|c: Result<int, Seq<char>>| #[trigger]
            m.counted(texts[d], c) ==> c == Ok::<int, Seq<char>>(n),
        n >= opts.min_tokens,
    ensures
        m.spanned(texts[d], Ok(spans)),
        chunk_laws::ordered(texts[d], spans) ==> forall|t: int, k: int|
            0 <= t < spans.len() && 0 <= k < texts[d].len() && !text::whitespace(texts[d][k])
                && #[trigger] chunk_laws::inside(
                texts[d],
                k,
                spans[t].start as int,
                spans[t].end as int,
            ) ==> exists|i: int|
                0 <= i < rows.len() && (#[trigger] rows[i]).doc_ix == d && chunk_laws::inside(
                    texts[d],
                    k,
                    rows[i].chunk.byte_start,
                    rows[i].chunk.byte_end,
                ),
{
    let docs = plan::rows_come_of_chunks(m.cuts(opts), texts, rows);
    let s = texts[d];
    assert(m.document_chunked(s, opts, Ok(docs[d])));
    assert(m.chunked(s, opts, Ok(docs[d])));
    let found = choose|spans: Result<Seq<TokenSpan>, Seq<char>>| #[trigger]
        m.spanned(s, spans) && Ok::<Seq<Chunk>, Seq<char>>(docs[d]) == match spans {
            Ok(spans) => Ok::<Seq<Chunk>, Seq<char>>(chunk::chunks(s, spans, opts)),
            Err(e) => Err(e),
        };
    let spans = found->Ok_0;
    if chunk_laws::ordered(s, spans) {
        assert forall|t: int, k: int|
            0 <= t < spans.len() && 0 <= k < s.len() && !text::whitespace(s[k])
                && #[trigger] chunk_laws::inside(
                s,
                k,
                spans[t].start as int,
                spans[t].end as int,
            ) implies exists|i: int|
            0 <= i < rows.len() && (#[trigger] rows[i]).doc_ix == d && chunk_laws::inside(
                s,
                k,
                rows[i].chunk.byte_start,
                rows[i].chunk.byte_end,
            ) by {
            plan::rows_hold_their_tokens(docs, d, s, spans, opts, t, k);
        }
    }
    spans
}

/// A fake embedder loses nothing either: without a cap, every non-blank character of a document
/// with enough words is in one of its rows.
pub proof fn fake_embedders_lose_nothing(
    m: EmbedderModel,
    texts: Seq<Seq<char>>,
    opts: ChunkOptions,
    rows: Seq<Row>,
    d: int,
    k: int,
)
    requires
        m.model is None,
        opts.max_chunks is None,
        m.planned(texts, opts, Ok(rows)),
        0 <= d < texts.len(),
        text::byte_len(texts[d]) <= usize::MAX,
        chunk::words(texts[d], texts[d].len() as int).len() >= opts.min_tokens,
        0 <= k < texts[d].len(),
        !text::whitespace(texts[d][k]),
    ensures
        exists|i: int|
            0 <= i < rows.len() && (#[trigger] rows[i]).doc_ix == d && chunk_laws::inside(
                texts[d],
                k,
                rows[i].chunk.byte_start,
                rows[i].chunk.byte_end,
            ),
{
    let s = texts[d];
    let words = chunk::words(s, s.len() as int);
    let spans = no_document_token_is_lost(m, texts, opts, rows, d, words.len() as int);
    assert(spans == words);
    chunk_laws::words_are_ordered(s);
    chunk_laws::words_cover(s, k);
    let t = choose|t: int|
        0 <= t < words.len() && chunk_laws::inside(
            s,
            k,
            (#[trigger] words[t]).start as int,
            words[t].end as int,
        );
    assert(chunk_laws::inside(s, k, spans[t].start as int, spans[t].end as int));
}

/// The rows of a document are its chunks under the given options, all of them and in their order, if it
/// has enough tokens; else it has none.
pub proof fn rows_are_the_chunks_of_their_documents(
    m: EmbedderModel,
    texts: Seq<Seq<char>>,
    opts: ChunkOptions,
    rows: Seq<Row>,
    d: int,
) -> (found: (int, Seq<TokenSpan>))
    requires
        m.planned(texts, opts, Ok(rows)),
        0 <= d < texts.len(),
    ensures
        m.counted(texts[d], Ok(found.0)),
        found.0 < opts.min_tokens ==> forall|i: int|
            0 <= i < rows.len() ==> (#[trigger] rows[i]).doc_ix != d,
        found.0 >= opts.min_tokens ==> {
            let chunks = chunk::chunks(texts[d], found.1, opts);
            &&& m.spanned(texts[d], Ok(found.1))
            &&& forall|c: int|
                0 <= c < chunks.len() ==> rows.contains(
                    (Row { doc_ix: d, chunk_ix: c, chunk: #[trigger] chunks[c] }),
                )
            &&& forall|i: int|
                0 <= i < rows.len() && (#[trigger] rows[i]).doc_ix == d ==> 0 <= rows[i].chunk_ix
                    < chunks.len() && rows[i].chunk == chunks[rows[i].chunk_ix]
        },
{
    let docs = plan::rows_come_of_chunks(m.cuts(opts), texts, rows);
    let s = texts[d];
    assert(m.document_chunked(s, opts, Ok(docs[d])));
    let count = choose|count: Result<int, Seq<char>>| #[trigger]
        m.counted(s, count) && match count {
            Err(e) => Ok::<Seq<Chunk>, Seq<char>>(docs[d]) == Err::<Seq<Chunk>, Seq<char>>(e),
            Ok(n) => if n < opts.min_tokens {
                Ok::<Seq<Chunk>, Seq<char>>(docs[d]) == Ok::<Seq<Chunk>, Seq<char>>(Seq::empty())
            } else {
                m.chunked(s, opts, Ok(docs[d]))
            },
        };
    let n = count->Ok_0;
    let found = choose|spans: Result<Seq<TokenSpan>, Seq<char>>| #[trigger]
        m.spanned(s, spans) && Ok::<Seq<Chunk>, Seq<char>>(docs[d]) == match spans {
            Ok(spans) => Ok::<Seq<Chunk>, Seq<char>>(chunk::chunks(s, spans, opts)),
            Err(e) => Err(e),
        };
    assert forall|i: int| 0 <= i < rows.len() && (#[trigger] rows[i]).doc_ix == d implies 0
        <= rows[i].chunk_ix < docs[d].len() && rows[i].chunk == docs[d][rows[i].chunk_ix] by {
        chunk_laws::rows_point_back(docs, i);
    }
    assert forall|c: int| 0 <= c < docs[d].len() implies rows.contains(
        (Row { doc_ix: d, chunk_ix: c, chunk: #[trigger] docs[d][c] }),
    ) by {
        let i = chunk_laws::rows_are_complete(docs, d, c);
        assert(rows[i] == (Row { doc_ix: d, chunk_ix: c, chunk: docs[d][c] }));
    }
    if n >= opts.min_tokens {
        assert(found is Ok);
        assert(found == Ok::<Seq<TokenSpan>, Seq<char>>(found->Ok_0));
    }
    (n, found->Ok_0)
}

/// The tokens of a fake embedder are the words of the text, each once.
pub proof fn fake_embedders_take_words_for_tokens(
    m: EmbedderModel,
    s: Seq<char>,
    count: Result<int, Seq<char>>,
    spans: Result<Seq<TokenSpan>, Seq<char>>,
)
    requires
        m.model is None,
        m.counted(s, count),
        m.spanned(s, spans),
    ensures
        spans == Ok::<Seq<TokenSpan>, Seq<char>>(chunk::words(s, s.len() as int)),
        count == Ok::<int, Seq<char>>(spans->Ok_0.len() as int),
{
}

} // verus!
