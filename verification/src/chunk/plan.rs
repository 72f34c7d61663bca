//! Planning the rows of a batch of documents.

use crate::chunk::laws as chunk_laws;
use crate::chunk::{self, Chunk, ChunkOptions, PendingChunk, Row, TextChunk, TokenSpan};
use crate::error::Error;
use crate::text;
use vstd::prelude::*;

verus! {

broadcast use vstd::seq::group_seq_axioms;

/// Whether `docs` may come of cutting `texts`, one after the other up to the first that fails,
/// where `cuts` says what may come of cutting one.
pub open spec fn cut_in_turn(
    cuts: spec_fn(Seq<char>, Result<Seq<Chunk>, Seq<char>>) -> bool,
    texts: Seq<Seq<char>>,
    docs: Seq<Result<Seq<Chunk>, Seq<char>>>,
) -> bool {
    &&& docs.len() <= texts.len()
    &&& forall|i: int| 0 <= i < docs.len() ==> cuts(texts[i], #[trigger] docs[i])
    &&& forall|i: int| 0 <= i < docs.len() - 1 ==> (#[trigger] docs[i]) is Ok
    &&& docs.len() < texts.len() ==> docs.len() > 0 && docs.last() is Err
}

/// `r` are the rows of a batch of documents, or the failure that ended their cutting.
pub open spec fn planned(
    cuts: spec_fn(Seq<char>, Result<Seq<Chunk>, Seq<char>>) -> bool,
    texts: Seq<Seq<char>>,
    r: Result<Seq<Row>, Seq<char>>,
) -> bool {
    exists|docs: Seq<Result<Seq<Chunk>, Seq<char>>>| #[trigger]
        cut_in_turn(cuts, texts, docs) && r == chunk::rows_of(docs)
}

/// What cuts a document into chunks.
pub(crate) trait Cutter {
    /// Whether it can be asked to.
    spec fn ready(&self) -> bool;

    /// What may come of cutting a text.
    spec fn cuts(&self, opts: ChunkOptions) -> spec_fn(
        Seq<char>,
        Result<Seq<Chunk>, Seq<char>>,
    ) -> bool;

    /// Cut `text`.
    fn cut(&self, text: &str, opts: &ChunkOptions) -> (r: Result<Vec<TextChunk>, Error>)
        requires
            self.ready(),
        ensures
            (self.cuts(*opts))(text@, chunk::chunks_outcome(r)),
    ;
}

/// The chunks of a batch of documents, in row order: by `(doc_ix, chunk_ix)`.
pub(crate) fn plan<C: Cutter>(cutter: &C, texts: &[&str], opts: &ChunkOptions) -> (r: Result<
    Vec<PendingChunk>,
    Error,
>)
    requires
        cutter.ready(),
    ensures
        planned(cutter.cuts(*opts), text::slices(texts@), chunk::rows_outcome(r)),
{
    let ghost all = text::slices(texts@);
    let ghost cuts = cutter.cuts(*opts);
    let ghost mut docs: Seq<Result<Seq<Chunk>, Seq<char>>> = Seq::empty();
    let ghost mut found: Seq<Seq<Chunk>> = Seq::empty();
    let mut pending: Vec<PendingChunk> = Vec::new();
    let mut i: usize = 0;
    assert(chunk::pending_rows(pending@) =~= Seq::empty());
    while i < texts.len()
        invariant
            cutter.ready(),
            all == text::slices(texts@),
            cuts == cutter.cuts(*opts),
            0 <= i <= texts@.len(),
            docs.len() == i,
            found.len() == i,
            forall|k: int|
                0 <= k < i ==> {
                    &&& cuts(all[k], #[trigger] docs[k])
                    &&& docs[k] == Ok::<Seq<Chunk>, Seq<char>>(found[k])
                },
            chunk::pending_rows(pending@) == chunk::rows(found),
        decreases texts@.len() - i,
    {
        let chunks = cutter.cut(texts[i], opts);
        proof {
            docs = docs.push(chunk::chunks_outcome(chunks));
            assert(all[i as int] == texts@[i as int]@);
        }
        match chunks {
            Ok(list) => {
                let ghost views = chunk::views(list@);
                chunk::append_chunks(&mut pending, i, list);
                proof {
                    let before = found;
                    found = found.push(views);
                    assert(found.drop_last() =~= before);
                }
            },
            Err(e) => {
                assert(cut_in_turn(cuts, all, docs));
                return Err(e);
            },
        }
        i += 1;
    }
    proof {
        assert(cut_in_turn(cuts, all, docs));
        assert(docs.map_values(|d: Result<Seq<Chunk>, Seq<char>>| d->Ok_0) =~= found);
    }
    Ok(pending)
}

/// The chunks of each document of a batch whose rows were planned.
pub proof fn rows_come_of_chunks(
    cuts: spec_fn(Seq<char>, Result<Seq<Chunk>, Seq<char>>) -> bool,
    texts: Seq<Seq<char>>,
    rows: Seq<Row>,
) -> (docs: Seq<Seq<Chunk>>)
    requires
        planned(cuts, texts, Ok(rows)),
    ensures
        docs.len() == texts.len(),
        rows == chunk::rows(docs),
        forall|d: int| 0 <= d < docs.len() ==> cuts(texts[d], Ok(#[trigger] docs[d])),
{
    let found = choose|found: Seq<Result<Seq<Chunk>, Seq<char>>>| #[trigger]
        cut_in_turn(cuts, texts, found) && Ok::<Seq<Row>, Seq<char>>(rows) == chunk::rows_of(
            found,
        );
    let docs = found.map_values(|d: Result<Seq<Chunk>, Seq<char>>| d->Ok_0);
    assert forall|d: int| 0 <= d < docs.len() implies cuts(
        texts[d],
        Ok(#[trigger] docs[d]),
    ) by {
        assert(found[d] == Ok::<Seq<Chunk>, Seq<char>>(docs[d]));
    }
    docs
}

/// The rows of a document that was cut by ordered tokens, without a cap, hold all that is not blank
/// in any of them.
pub proof fn rows_hold_their_tokens(
    docs: Seq<Seq<Chunk>>,
    d: int,
    s: Seq<char>,
    spans: Seq<TokenSpan>,
    opts: ChunkOptions,
    t: int,
    k: int,
)
    requires
        opts.max_chunks is None,
        0 <= d < docs.len(),
        docs[d] == chunk::chunks(s, spans, opts),
        chunk_laws::ordered(s, spans),
        0 <= t < spans.len(),
        0 <= k < s.len(),
        !text::whitespace(s[k]),
        chunk_laws::inside(s, k, spans[t].start as int, spans[t].end as int),
    ensures
        exists|i: int|
            0 <= i < chunk::rows(docs).len() && (#[trigger] chunk::rows(docs)[i]).doc_ix == d
                && chunk_laws::inside(
                s,
                k,
                chunk::rows(docs)[i].chunk.byte_start,
                chunk::rows(docs)[i].chunk.byte_end,
            ),
{
    chunk_laws::no_token_is_lost(s, spans, opts, t, k);
    let c = choose|c: int|
        0 <= c < docs[d].len() && chunk_laws::holds(
            #[trigger] docs[d][c],
            s,
            spans[t].start as int,
            spans[t].end as int,
        );
    let i = chunk_laws::rows_are_complete(docs, d, c);
    assert(chunk::rows(docs)[i].doc_ix == d);
}

/// A batch fails as its first document that fails does; those before it were cut.
pub proof fn batches_fail_as_their_first_failing_document(
    cuts: spec_fn(Seq<char>, Result<Seq<Chunk>, Seq<char>>) -> bool,
    texts: Seq<Seq<char>>,
    message: Seq<char>,
) -> (docs: Seq<Seq<Chunk>>)
    requires
        planned(cuts, texts, Err(message)),
    ensures
        docs.len() < texts.len(),
        cuts(texts[docs.len() as int], Err(message)),
        forall|k: int| 0 <= k < docs.len() ==> cuts(texts[k], Ok(#[trigger] docs[k])),
{
    let found = choose|found: Seq<Result<Seq<Chunk>, Seq<char>>>| #[trigger]
        cut_in_turn(cuts, texts, found) && Err::<Seq<Row>, Seq<char>>(message) == chunk::rows_of(
            found,
        );
    let d = found.len() - 1;
    assert(found[d] == Err::<Seq<Chunk>, Seq<char>>(message));
    let docs = Seq::new(d as nat, |k: int| found[k]->Ok_0);
    assert forall|k: int| 0 <= k < docs.len() implies cuts(texts[k], Ok(#[trigger] docs[k])) by {
        assert(found[k] is Ok);
        assert(found[k] == Ok::<Seq<Chunk>, Seq<char>>(docs[k]));
    }
    docs
}

} // verus!
