//! What holds of chunking as a whole.

use crate::chunk::{self, Chunk, ChunkOptions, Row, Separator, TextChunk, TokenSpan};
use crate::float::F32;
use crate::text;
use vstd::prelude::*;

verus! {

broadcast use vstd::seq::group_seq_axioms;

// ---- windows -------------------------------------------------------------------------------

/// Whether `cuts` are ranges of at most `max` tokens that lead from token `from` to token `to`
/// without a gap, each starting behind the one before and sharing at most `overlap` tokens
/// with it.
pub open spec fn tiles(cuts: Seq<(int, int)>, from: int, to: int, max: int, overlap: int) -> bool {
    &&& cuts.len() > 0
    &&& cuts[0].0 == from
    &&& cuts.last().1 == to
    &&& forall|i: int|
        0 <= i < cuts.len() ==> {
            &&& from <= (#[trigger] cuts[i]).0 < cuts[i].1 <= to
            &&& cuts[i].1 - cuts[i].0 <= max
        }
    &&& forall|i: int, j: int|
        0 <= i && j == i + 1 && j < cuts.len() ==> {
            &&& (#[trigger] cuts[i]).0 < (#[trigger] cuts[j]).0 <= cuts[i].1
            &&& cuts[i].1 - cuts[j].0 <= overlap
        }
}

/// The windows hold at most `max` tokens each, run through all tokens to the last without a
/// gap, always make progress, and overlap by at most `overlap` tokens.
pub proof fn windows_tile(
    s: Seq<char>,
    spans: Seq<TokenSpan>,
    max: int,
    overlap: int,
    start: int,
)
    requires
        0 <= start < spans.len(),
        max >= 1,
        overlap >= 0,
    ensures
        tiles(chunk::windows(s, spans, max, overlap, start), start, spans.len() as int, max, overlap),
    decreases spans.len() - start,
{
    if spans.len() - start > max {
        let end = chunk::window_end(s, spans, max, start);
        let next = chunk::next_start(start, end, overlap);
        chunk::lemma_natural_break(s, spans, start, start + max);
        windows_tile(s, spans, max, overlap, next);
    }
}

/// Every token is in a window.
pub proof fn windows_cover(
    s: Seq<char>,
    spans: Seq<TokenSpan>,
    max: int,
    overlap: int,
    start: int,
    t: int,
) -> (i: int)
    requires
        0 <= start <= t < spans.len(),
        max >= 1,
        overlap >= 0,
    ensures
        0 <= i < chunk::windows(s, spans, max, overlap, start).len(),
        chunk::windows(s, spans, max, overlap, start)[i].0 <= t,
        t < chunk::windows(s, spans, max, overlap, start)[i].1,
    decreases spans.len() - start,
{
    if spans.len() - start <= max {
        0
    } else {
        let end = chunk::window_end(s, spans, max, start);
        chunk::lemma_natural_break(s, spans, start, start + max);
        if t < end {
            0
        } else {
            let next = chunk::next_start(start, end, overlap);
            1 + windows_cover(s, spans, max, overlap, next, t)
        }
    }
}

// ---- natural breaks ------------------------------------------------------------------------

proof fn lemma_last_end(separator: Separator, w: Seq<char>, p: int)
    ensures
        match chunk::last_end(separator, w, p) {
            Some(q) => q <= p && chunk::ends(separator, w, q) && forall|r: int|
                r <= p && #[trigger] chunk::ends(separator, w, r) ==> r <= q,
            None => forall|r: int| r <= p ==> !#[trigger] chunk::ends(separator, w, r),
        },
    decreases p,
{
    if p >= 2 && !chunk::ends(separator, w, p) {
        lemma_last_end(separator, w, p - 1);
    }
}

proof fn lemma_last_space(w: Seq<char>, p: int)
    ensures
        match chunk::last_space(w, p) {
            Some(q) => q < p && chunk::whitespace_at(w, q) && forall|r: int|
                r < p && #[trigger] chunk::whitespace_at(w, r) ==> r <= q,
            None => forall|r: int| r < p ==> !#[trigger] chunk::whitespace_at(w, r),
        },
    decreases p,
{
    if p >= 1 && !chunk::whitespace_at(w, p - 1) {
        lemma_last_space(w, p - 1);
    }
}

/// Where `w` is broken, paragraph ends come before sentence ends, and those before white space; of
/// each the last one counts. A text with none of them is not broken.
pub proof fn breaks_prefer_paragraphs_then_sentences(w: Seq<char>)
    ensures
        if exists|p: int| #[trigger] chunk::ends(Separator::Paragraph, w, p) {
            &&& chunk::break_at(w) matches Some(q)
            &&& chunk::ends(Separator::Paragraph, w, q)
            &&& forall|p: int| #[trigger] chunk::ends(Separator::Paragraph, w, p) ==> p <= q
        } else if exists|p: int| #[trigger] chunk::ends(Separator::Sentence, w, p) {
            &&& chunk::break_at(w) matches Some(q)
            &&& chunk::ends(Separator::Sentence, w, q)
            &&& forall|p: int| #[trigger] chunk::ends(Separator::Sentence, w, p) ==> p <= q
        } else if exists|p: int| #[trigger] chunk::whitespace_at(w, p) {
            &&& chunk::break_at(w) matches Some(q)
            &&& chunk::whitespace_at(w, q)
            &&& forall|p: int| #[trigger] chunk::whitespace_at(w, p) ==> p <= q
        } else {
            chunk::break_at(w) is None
        },
{
    lemma_last_end(Separator::Paragraph, w, w.len() as int);
    lemma_last_end(Separator::Sentence, w, w.len() as int);
    lemma_last_space(w, w.len() as int);
}

// ---- emitted chunks ------------------------------------------------------------------------

/// Every emitted chunk is the chunk of one of the windows.
proof fn lemma_emitted_from(
    s: Seq<char>,
    spans: Seq<TokenSpan>,
    cuts: Seq<(int, int)>,
    k: int,
) -> (i: int)
    requires
        0 <= k < chunk::emitted(s, spans, cuts).len(),
    ensures
        0 <= i < cuts.len(),
        chunk::chunk_at(s, spans, cuts[i].0, cuts[i].1) == Some(chunk::emitted(s, spans, cuts)[k]),
    decreases cuts.len(),
{
    let rest = cuts.drop_first();
    match chunk::chunk_at(s, spans, cuts[0].0, cuts[0].1) {
        Some(c) => {
            if k == 0 {
                0
            } else {
                1 + lemma_emitted_from(s, spans, rest, k - 1)
            }
        },
        None => 1 + lemma_emitted_from(s, spans, rest, k),
    }
}

/// Two emitted chunks come from windows in the same order.
proof fn lemma_emitted_ordered(
    s: Seq<char>,
    spans: Seq<TokenSpan>,
    cuts: Seq<(int, int)>,
    k: int,
    l: int,
) -> (r: (int, int))
    requires
        0 <= k < l < chunk::emitted(s, spans, cuts).len(),
    ensures
        0 <= r.0 < r.1 < cuts.len(),
        chunk::chunk_at(s, spans, cuts[r.0].0, cuts[r.0].1) == Some(
            chunk::emitted(s, spans, cuts)[k],
        ),
        chunk::chunk_at(s, spans, cuts[r.1].0, cuts[r.1].1) == Some(
            chunk::emitted(s, spans, cuts)[l],
        ),
    decreases cuts.len(),
{
    let rest = cuts.drop_first();
    match chunk::chunk_at(s, spans, cuts[0].0, cuts[0].1) {
        Some(c) => {
            if k == 0 {
                (0, 1 + lemma_emitted_from(s, spans, rest, l - 1))
            } else {
                let r = lemma_emitted_ordered(s, spans, rest, k - 1, l - 1);
                (1 + r.0, 1 + r.1)
            }
        },
        None => {
            let r = lemma_emitted_ordered(s, spans, rest, k, l);
            (1 + r.0, 1 + r.1)
        },
    }
}

/// The chunk of a window is emitted, unless it is blank.
proof fn lemma_emitted_all(
    s: Seq<char>,
    spans: Seq<TokenSpan>,
    cuts: Seq<(int, int)>,
    i: int,
) -> (k: int)
    requires
        0 <= i < cuts.len(),
        chunk::chunk_at(s, spans, cuts[i].0, cuts[i].1) is Some,
    ensures
        0 <= k < chunk::emitted(s, spans, cuts).len(),
        chunk::chunk_at(s, spans, cuts[i].0, cuts[i].1) == Some(chunk::emitted(s, spans, cuts)[k]),
    decreases cuts.len(),
{
    if i == 0 {
        0
    } else {
        let k = lemma_emitted_all(s, spans, cuts.drop_first(), i - 1);
        match chunk::chunk_at(s, spans, cuts[0].0, cuts[0].1) {
            Some(c) => k + 1,
            None => k,
        }
    }
}

/// Whether `c` is a non-blank slice of `s`: its text stands at its byte span, with no outer
/// white space, and it holds between one and `max` tokens.
pub open spec fn slice_of(c: Chunk, s: Seq<char>, max: int) -> bool {
    &&& c.byte_start < c.byte_end
    &&& text::between(s, c.byte_start, c.byte_end) == Some(c.text)
    &&& c.text.len() > 0
    &&& !text::whitespace(c.text[0])
    &&& !text::whitespace(c.text.last())
    &&& 1 <= c.tokens <= max
}

/// Every chunk is a non-blank slice of the text, trimmed, of at most `opts.max_tokens` tokens
/// (one where that is zero).
pub proof fn chunks_are_slices(s: Seq<char>, spans: Seq<TokenSpan>, opts: ChunkOptions, k: int)
    requires
        0 <= k < chunk::chunks(s, spans, opts).len(),
    ensures
        slice_of(chunk::chunks(s, spans, opts)[k], s, opts.window()),
{
    let cuts = chunk::windows(s, spans, opts.window(), opts.overlap_tokens as int, 0);
    let i = lemma_emitted_from(s, spans, cuts, k);
    windows_tile(s, spans, opts.window(), opts.overlap_tokens as int, 0);
    lemma_chunk_at(s, spans, cuts[i].0, cuts[i].1);
}

/// What a chunk is made of.
proof fn lemma_chunk_at(s: Seq<char>, spans: Seq<TokenSpan>, start: int, end: int)
    requires
        0 <= start < end <= spans.len(),
        chunk::chunk_at(s, spans, start, end) is Some,
    ensures
        ({
            let c = chunk::chunk_at(s, spans, start, end)->0;
            &&& slice_of(c, s, end - start)
            &&& spans[start].start <= c.byte_start
            &&& c.byte_end <= spans[end - 1].end
        }),
{
    let a = spans[start].start as int;
    let b = spans[end - 1].end as int;
    assert(text::between(s, a, b) is Some);
    chunk::lemma_trimmed_span(s, a, b);
    text::lemma_trim(text::between(s, a, b)->0);
}

/// The cap keeps a prefix of the chunks, and as many of them as it allows.
pub proof fn cap_keeps_a_prefix(s: Seq<char>, spans: Seq<TokenSpan>, opts: ChunkOptions)
    ensures
        chunk::chunks(s, spans, opts).is_prefix_of(chunk::all_chunks(s, spans, opts)),
        opts.max_chunks is None ==> chunk::chunks(s, spans, opts) == chunk::all_chunks(
            s,
            spans,
            opts,
        ),
        opts.max_chunks matches Some(n) ==> chunk::chunks(s, spans, opts).len() == (if n@
            < chunk::all_chunks(s, spans, opts).len() {
            n@ as nat
        } else {
            chunk::all_chunks(s, spans, opts).len()
        }),
{
}

// ---- coverage ------------------------------------------------------------------------------

/// Whether `spans` are byte spans of slices of `s`, in order of their starts and of their ends.
pub open spec fn ordered(s: Seq<char>, spans: Seq<TokenSpan>) -> bool {
    &&& forall|i: int|
        0 <= i < spans.len() ==> {
            &&& (#[trigger] spans[i]).start <= spans[i].end
            &&& text::boundary(s, spans[i].start as int)
            &&& text::boundary(s, spans[i].end as int)
        }
    &&& forall|i: int, j: int|
        0 <= i <= j < spans.len() ==> {
            &&& (#[trigger] spans[i]).start <= (#[trigger] spans[j]).start
            &&& spans[i].end <= spans[j].end
        }
}

/// Whether character `k` of `s` lies in the bytes `from..to`.
pub open spec fn inside(s: Seq<char>, k: int, from: int, to: int) -> bool {
    from <= text::offset(s, k) && text::offset(s, k + 1) <= to
}

/// Whether `c` holds every non-blank character of `s` in the bytes `from..to`.
pub open spec fn holds(c: Chunk, s: Seq<char>, from: int, to: int) -> bool {
    forall|k: int|
        0 <= k < s.len() && !text::whitespace(s[k]) && #[trigger] inside(s, k, from, to)
            ==> inside(s, k, c.byte_start, c.byte_end)
}

/// What is not blank in a slice is still there when the slice is trimmed.
proof fn lemma_trimmed_holds(s: Seq<char>, from: int, to: int, k: int)
    requires
        text::between(s, from, to) is Some,
        0 <= k < s.len(),
        !text::whitespace(s[k]),
        inside(s, k, from, to),
    ensures
        text::trim(text::between(s, from, to)->0).len() > 0,
        inside(
            s,
            k,
            chunk::trimmed_span(s, from, to).0,
            chunk::trimmed_span(s, from, to).1,
        ),
{
    let i = text::char_index(s, from);
    let j = text::char_index(s, to);
    let w = text::between(s, from, to)->0;
    assert(i <= k) by {
        if k < i {
            text::lemma_offset_step(s, k);
            text::lemma_offset_monotonic(s, k, i);
            text::lemma_offset_monotonic(s, k + 1, i);
        }
    }
    assert(k < j) by {
        if j < k + 1 {
            text::lemma_offset_step(s, k);
            text::lemma_offset_monotonic(s, j, k + 1);
            text::lemma_offset_monotonic(s, j, k);
        }
    }
    text::lemma_trim(w);
    let a = i + text::leading(w);
    let b = a + text::trim(w).len();
    assert(w[k - i] == s[k]);
    assert(a <= k < b);
    chunk::lemma_trimmed_span(s, from, to);
    text::lemma_offset_monotonic(s, a, k);
    text::lemma_offset_monotonic(s, k + 1, b);
}

/// The chunk of a window exists if the window has a non-blank character, and then holds all of
/// them.
proof fn lemma_chunk_holds(s: Seq<char>, spans: Seq<TokenSpan>, start: int, end: int, k: int)
    requires
        0 <= start < end <= spans.len(),
        ordered(s, spans),
        0 <= k < s.len(),
        !text::whitespace(s[k]),
        inside(s, k, spans[start].start as int, spans[end - 1].end as int),
    ensures
        chunk::chunk_at(s, spans, start, end) is Some,
        inside(
            s,
            k,
            (chunk::chunk_at(s, spans, start, end)->0).byte_start,
            (chunk::chunk_at(s, spans, start, end)->0).byte_end,
        ),
{
    let from = spans[start].start as int;
    let to = spans[end - 1].end as int;
    assert(spans[start].start <= spans[end - 1].start);
    assert(text::between(s, from, to) is Some);
    lemma_trimmed_holds(s, from, to, k);
    chunk::lemma_trimmed_span(s, from, to);
}

/// No content is lost: without a cap, some chunk holds all that is not blank in token `t`.
pub proof fn no_token_is_lost(
    s: Seq<char>,
    spans: Seq<TokenSpan>,
    opts: ChunkOptions,
    t: int,
    k: int,
)
    requires
        opts.max_chunks is None,
        ordered(s, spans),
        0 <= t < spans.len(),
        0 <= k < s.len(),
        !text::whitespace(s[k]),
        inside(s, k, spans[t].start as int, spans[t].end as int),
    ensures
        exists|m: int|
            0 <= m < chunk::chunks(s, spans, opts).len() && holds(
                #[trigger] chunk::chunks(s, spans, opts)[m],
                s,
                spans[t].start as int,
                spans[t].end as int,
            ),
{
    let overlap = opts.overlap_tokens as int;
    let cuts = chunk::windows(s, spans, opts.window(), overlap, 0);
    windows_tile(s, spans, opts.window(), overlap, 0);
    let i = windows_cover(s, spans, opts.window(), overlap, 0, t);
    let (a, b) = cuts[i];
    assert(spans[a].start <= spans[t].start);
    assert(spans[t].end <= spans[b - 1].end);
    lemma_chunk_holds(s, spans, a, b, k);
    let m = lemma_emitted_all(s, spans, cuts, i);
    let c = chunk::chunks(s, spans, opts)[m];
    assert forall|l: int|
        0 <= l < s.len() && !text::whitespace(s[l]) && #[trigger] inside(
            s,
            l,
            spans[t].start as int,
            spans[t].end as int,
        ) implies inside(s, l, c.byte_start, c.byte_end) by {
        lemma_chunk_holds(s, spans, a, b, l);
    }
    assert(holds(c, s, spans[t].start as int, spans[t].end as int));
}

/// Whether the bytes `from..to` of `s` hold a non-blank character.
pub open spec fn not_blank(s: Seq<char>, from: int, to: int) -> bool {
    exists|k: int| 0 <= k < s.len() && !text::whitespace(s[k]) && #[trigger] inside(s, k, from, to)
}

/// Whether every span of `spans` ends before the next one starts and holds a non-blank character.
pub open spec fn separate(s: Seq<char>, spans: Seq<TokenSpan>) -> bool {
    &&& forall|i: int, j: int|
        0 <= i < j < spans.len() ==> (#[trigger] spans[i]).end <= (#[trigger] spans[j]).start
    &&& forall|i: int|
        0 <= i < spans.len() ==> not_blank(
            s,
            (#[trigger] spans[i]).start as int,
            spans[i].end as int,
        )
}

/// Without overlap, chunks of tokens that do not overlap do not overlap either, so that nothing
/// is in two chunks.
pub proof fn chunks_are_disjoint(
    s: Seq<char>,
    spans: Seq<TokenSpan>,
    opts: ChunkOptions,
    k: int,
    l: int,
)
    requires
        opts.overlap_tokens == 0,
        forall|i: int, j: int|
            0 <= i < j < spans.len() ==> (#[trigger] spans[i]).end <= (#[trigger] spans[j]).start,
        ordered(s, spans),
        0 <= k < l < chunk::chunks(s, spans, opts).len(),
    ensures
        chunk::chunks(s, spans, opts)[k].byte_end <= chunk::chunks(s, spans, opts)[l].byte_start,
{
    let cuts = chunk::windows(s, spans, opts.window(), 0, 0);
    windows_tile(s, spans, opts.window(), 0, 0);
    let (i, j) = lemma_emitted_ordered(s, spans, cuts, k, l);
    lemma_starts_increase(cuts, i + 1, j, spans.len() as int, opts.window(), 0);
    assert(cuts[i + 1].0 == cuts[i].1);
    lemma_chunk_at(s, spans, cuts[i].0, cuts[i].1);
    lemma_chunk_at(s, spans, cuts[j].0, cuts[j].1);
    assert(spans[cuts[i].1 - 1].end <= spans[cuts[j].0].start);
}

/// Whether no span of `spans` is empty, and each ends before the next one starts.
pub open spec fn apart(spans: Seq<TokenSpan>) -> bool {
    &&& forall|i: int| 0 <= i < spans.len() ==> (#[trigger] spans[i]).start < spans[i].end
    &&& forall|i: int, j: int|
        0 <= i < j < spans.len() ==> (#[trigger] spans[i]).end <= (#[trigger] spans[j]).start
}

/// Chunks overlap by at most `opts.overlap_tokens` tokens. The earlier one is the chunk of the
/// tokens `first.0..first.1`, the later one that of `second.0..second.1`, which start behind the
/// others and at most so many before their end; and where no two tokens overlap and none is empty,
/// the tokens in both chunks are among those from `second.0` to `first.1`.
pub proof fn chunks_share_few_tokens(
    s: Seq<char>,
    spans: Seq<TokenSpan>,
    opts: ChunkOptions,
    k: int,
    l: int,
) -> (r: ((int, int), (int, int)))
    requires
        0 <= k < l < chunk::chunks(s, spans, opts).len(),
    ensures
        ({
            let (first, second) = r;
            let earlier = chunk::chunks(s, spans, opts)[k];
            let later = chunk::chunks(s, spans, opts)[l];
            &&& 0 <= first.0 < first.1 <= spans.len()
            &&& 0 <= second.0 < second.1 <= spans.len()
            &&& chunk::chunk_at(s, spans, first.0, first.1) == Some(earlier)
            &&& chunk::chunk_at(s, spans, second.0, second.1) == Some(later)
            &&& first.0 < second.0
            &&& first.1 - second.0 <= opts.overlap_tokens
            &&& apart(spans) ==> forall|t: int|
                0 <= t < spans.len() && later.byte_start <= (#[trigger] spans[t]).start
                    && spans[t].end <= earlier.byte_end ==> second.0 <= t < first.1
        }),
{
    let overlap = opts.overlap_tokens as int;
    let cuts = chunk::windows(s, spans, opts.window(), overlap, 0);
    windows_tile(s, spans, opts.window(), overlap, 0);
    let (i, j) = lemma_emitted_ordered(s, spans, cuts, k, l);
    lemma_starts_increase(cuts, i + 1, j, spans.len() as int, opts.window(), overlap);
    assert(cuts[i].0 < cuts[i + 1].0);
    lemma_chunk_at(s, spans, cuts[i].0, cuts[i].1);
    lemma_chunk_at(s, spans, cuts[j].0, cuts[j].1);
    (cuts[i], cuts[j])
}

proof fn lemma_starts_increase(
    cuts: Seq<(int, int)>,
    i: int,
    j: int,
    to: int,
    max: int,
    overlap: int,
)
    requires
        0 <= i <= j < cuts.len(),
        tiles(cuts, 0, to, max, overlap),
    ensures
        cuts[i].0 <= cuts[j].0,
        i < j ==> cuts[i].0 < cuts[j].0,
    decreases j - i,
{
    if i < j {
        lemma_starts_increase(cuts, i, j - 1, to, max, overlap);
        assert(cuts[j - 1].0 < cuts[j].0);
    }
}

/// Chunking makes progress whatever the overlap: each chunk starts behind the one before it, where
/// no token is blank and no two overlap.
pub proof fn chunk_starts_increase(
    s: Seq<char>,
    spans: Seq<TokenSpan>,
    opts: ChunkOptions,
    k: int,
    l: int,
)
    requires
        ordered(s, spans),
        separate(s, spans),
        0 <= k < l < chunk::chunks(s, spans, opts).len(),
    ensures
        chunk::chunks(s, spans, opts)[k].byte_start < chunk::chunks(s, spans, opts)[l].byte_start,
{
    let overlap = opts.overlap_tokens as int;
    let cuts = chunk::windows(s, spans, opts.window(), overlap, 0);
    windows_tile(s, spans, opts.window(), overlap, 0);
    let (i, j) = lemma_emitted_ordered(s, spans, cuts, k, l);
    lemma_starts_increase(cuts, i, j, spans.len() as int, opts.window(), overlap);
    lemma_chunk_start(s, spans, cuts[i].0, cuts[i].1);
    lemma_chunk_start(s, spans, cuts[j].0, cuts[j].1);
    assert(spans[cuts[i].0].end <= spans[cuts[j].0].start);
}

/// The chunk of a window starts in the window's first token.
proof fn lemma_chunk_start(s: Seq<char>, spans: Seq<TokenSpan>, start: int, end: int)
    requires
        0 <= start < end <= spans.len(),
        ordered(s, spans),
        separate(s, spans),
    ensures
        chunk::chunk_at(s, spans, start, end) matches Some(c) ==> spans[start].start <= c.byte_start
            < spans[start].end,
{
    let from = spans[start].start as int;
    let to = spans[start].end as int;
    assert(not_blank(s, from, to));
    let k = choose|k: int|
        0 <= k < s.len() && !text::whitespace(s[k]) && #[trigger] inside(s, k, from, to);
    assert(spans[start].end <= spans[end - 1].end);
    assert(inside(s, k, from, spans[end - 1].end as int));
    text::lemma_offset_step(s, k);
    lemma_chunk_holds(s, spans, start, end, k);
    lemma_chunk_at(s, spans, start, end);
}

// ---- what chunks are -----------------------------------------------------------------------

/// Whether a blank line ends just before character `p` of `w`.
pub open spec fn paragraph_ends(w: Seq<char>, p: int) -> bool {
    2 <= p <= w.len() && w[p - 2] == '\n' && w[p - 1] == '\n'
}

/// Whether the end mark of a sentence and a space end just before character `p` of `w`.
pub open spec fn sentence_ends(w: Seq<char>, p: int) -> bool {
    2 <= p <= w.len() && w[p - 1] == ' ' && seq!['.', '!', '?'].contains(w[p - 2])
}

/// Whether character `p` of `w` is white space.
pub open spec fn blank_at(w: Seq<char>, p: int) -> bool {
    0 <= p < w.len() && text::whitespace(w[p])
}

/// Whether `q` is where `w` is best broken: behind its last paragraph; where none ends in it, behind
/// its last sentence; where none ends either, at its last white space.
pub open spec fn best_break(w: Seq<char>, q: int) -> bool {
    if exists|p: int| #[trigger] paragraph_ends(w, p) {
        paragraph_ends(w, q) && forall|p: int| #[trigger] paragraph_ends(w, p) ==> p <= q
    } else if exists|p: int| #[trigger] sentence_ends(w, p) {
        sentence_ends(w, q) && forall|p: int| #[trigger] sentence_ends(w, p) ==> p <= q
    } else {
        blank_at(w, q) && forall|p: int| #[trigger] blank_at(w, p) ==> p <= q
    }
}

/// Whether `b` is the first of the tokens from `a` to `end` that reaches beyond the best break of the
/// text that they span; `end` where none does, or where there is no such break.
pub open spec fn broken_at(s: Seq<char>, spans: Seq<TokenSpan>, a: int, end: int, b: int) -> bool {
    match text::between(s, spans[a].start as int, spans[end - 1].end as int) {
        None => b == end,
        Some(w) => {
            &&& a <= b <= end
            &&& (forall|q: int| !#[trigger] best_break(w, q)) ==> b == end
            &&& forall|q: int| #[trigger]
                best_break(w, q) ==> {
                    let at = spans[a].start + text::offset(w, q);
                    &&& forall|t: int| a <= t < b ==> (#[trigger] spans[t]).end <= at
                    &&& b < end ==> spans[b].end > at
                }
        },
    }
}

proof fn lemma_best_break(w: Seq<char>)
    ensures
        match chunk::break_at(w) {
            Some(q) => best_break(w, q) && forall|p: int| #[trigger] best_break(w, p) ==> p == q,
            None => forall|p: int| !#[trigger] best_break(w, p),
        },
{
    assert forall|p: int| #[trigger] paragraph_ends(w, p) == chunk::ends(
        Separator::Paragraph,
        w,
        p,
    ) by {}
    assert forall|p: int| #[trigger] sentence_ends(w, p) == chunk::ends(
        Separator::Sentence,
        w,
        p,
    ) by {
        let marks = seq!['.', '!', '?'];
        assert(marks[0] == '.' && marks[1] == '!' && marks[2] == '?');
        if sentence_ends(w, p) {
            let i = choose|i: int| 0 <= i < marks.len() && marks[i] == w[p - 2];
            assert(i == 0 || i == 1 || i == 2);
        }
    }
    assert forall|p: int| #[trigger] blank_at(w, p) == chunk::whitespace_at(w, p) by {}
    lemma_last_end(Separator::Paragraph, w, w.len() as int);
    lemma_last_end(Separator::Sentence, w, w.len() as int);
    lemma_last_space(w, w.len() as int);
    match chunk::last_end(Separator::Paragraph, w, w.len() as int) {
        Some(q) => {
            assert(paragraph_ends(w, q));
        },
        None => {
            assert(forall|p: int| !#[trigger] paragraph_ends(w, p));
            match chunk::last_end(Separator::Sentence, w, w.len() as int) {
                Some(q) => {
                    assert(sentence_ends(w, q));
                },
                None => {
                    assert(forall|p: int| !#[trigger] sentence_ends(w, p));
                    if let Some(q) = chunk::last_space(w, w.len() as int) {
                        assert(blank_at(w, q));
                    }
                },
            }
        },
    }
}

proof fn lemma_covered_tokens(spans: Seq<TokenSpan>, start: int, end: int, at: int)
    requires
        0 <= start <= end <= spans.len(),
    ensures
        ({
            let b = start + chunk::covered(spans, start, end, at);
            &&& start <= b <= end
            &&& forall|t: int| start <= t < b ==> (#[trigger] spans[t]).end <= at
            &&& b < end ==> spans[b].end > at
        }),
    decreases end - start,
{
    if start < end && spans[start].end <= at {
        lemma_covered_tokens(spans, start + 1, end, at);
    }
}

/// A break is found at the best place in the text that the tokens span, by what stands there: behind
/// a blank line, else behind the end mark of a sentence and a space, else at white space, and always
/// at the last of these.
pub proof fn breaks_are_found_at_the_best_place(
    s: Seq<char>,
    spans: Seq<TokenSpan>,
    start: int,
    end: int,
)
    requires
        0 <= start < end <= spans.len(),
    ensures
        broken_at(s, spans, start, end, chunk::natural_break(s, spans, start, end)),
{
    let from = spans[start].start as int;
    if let Some(w) = text::between(s, from, spans[end - 1].end as int) {
        lemma_best_break(w);
        if let Some(q) = chunk::break_at(w) {
            lemma_covered_tokens(spans, start, end, from + text::offset(w, q));
        }
    }
}

/// Whether `cuts` are ranges of at most `max` of the tokens from `from` to `to`, each but the last
/// starting more than `max` tokens before `to`, and each starting `overlap` tokens before the one
/// before it ends, but at least one token behind its start.
pub open spec fn stepped(cuts: Seq<(int, int)>, from: int, to: int, max: int, overlap: int) -> bool {
    &&& from >= to ==> cuts.len() == 0
    &&& from < to ==> cuts.len() > 0 && cuts[0].0 == from && cuts.last().1 == to
    &&& forall|i: int|
        0 <= i < cuts.len() ==> {
            &&& from <= (#[trigger] cuts[i]).0 < cuts[i].1 <= to
            &&& cuts[i].1 - cuts[i].0 <= max
            &&& i < cuts.len() - 1 <==> to - cuts[i].0 > max
        }
    &&& forall|i: int, j: int|
        0 <= i && j == i + 1 && j < cuts.len() ==> (#[trigger] cuts[j]).0 == (if (
        #[trigger] cuts[i]).1 - overlap > cuts[i].0 + 1 {
            cuts[i].1 - overlap
        } else {
            cuts[i].0 + 1
        })
}

/// Whether each of `cuts` but the last ends where the text of its first `max` tokens is best broken,
/// or has them all where that would leave none of them.
pub open spec fn ends_well(
    cuts: Seq<(int, int)>,
    s: Seq<char>,
    spans: Seq<TokenSpan>,
    max: int,
) -> bool {
    forall|i: int|
        0 <= i < cuts.len() - 1 ==> {
            let (a, b) = #[trigger] cuts[i];
            broken_at(s, spans, a, a + max, b) || (b == a + max && broken_at(s, spans, a, b, a))
        }
}

proof fn lemma_windows_step(s: Seq<char>, spans: Seq<TokenSpan>, max: int, overlap: int, start: int)
    requires
        0 <= start,
        max >= 1,
        overlap >= 0,
    ensures
        stepped(
            chunk::windows(s, spans, max, overlap, start),
            start,
            spans.len() as int,
            max,
            overlap,
        ),
        ends_well(chunk::windows(s, spans, max, overlap, start), s, spans, max),
    decreases
            (if start < spans.len() {
                spans.len() - start
            } else {
                0
            }),
{
    if start < spans.len() && spans.len() - start > max {
        let end = chunk::window_end(s, spans, max, start);
        let next = chunk::next_start(start, end, overlap);
        chunk::lemma_natural_break(s, spans, start, start + max);
        breaks_are_found_at_the_best_place(s, spans, start, start + max);
        lemma_windows_step(s, spans, max, overlap, next);
        let rest = chunk::windows(s, spans, max, overlap, next);
        let cuts = chunk::windows(s, spans, max, overlap, start);
        assert(cuts =~= seq![(start, end)] + rest);
        assert forall|i: int| 0 <= i < cuts.len() - 1 implies {
            let (a, b) = #[trigger] cuts[i];
            broken_at(s, spans, a, a + max, b) || (b == a + max && broken_at(s, spans, a, b, a))
        } by {
            if i > 0 {
                assert(cuts[i] == rest[i - 1]);
            }
        }
        assert forall|i: int| 0 <= i < cuts.len() implies {
            &&& start <= (#[trigger] cuts[i]).0 < cuts[i].1 <= spans.len()
            &&& cuts[i].1 - cuts[i].0 <= max
            &&& i < cuts.len() - 1 <==> spans.len() - cuts[i].0 > max
        } by {
            if i > 0 {
                assert(cuts[i] == rest[i - 1]);
            }
        }
        assert forall|i: int, j: int| 0 <= i && j == i + 1 && j < cuts.len() implies (
        #[trigger] cuts[j]).0 == (if (#[trigger] cuts[i]).1 - overlap > cuts[i].0 + 1 {
            cuts[i].1 - overlap
        } else {
            cuts[i].0 + 1
        }) by {
            assert(cuts[j] == rest[j - 1]);
            if i > 0 {
                assert(cuts[i] == rest[i - 1]);
            }
        }
    }
}

/// Whether `c` is the bytes `from..to` of `s` without their outer white space, and counts `tokens`
/// tokens.
pub open spec fn trimmed_to(c: Chunk, s: Seq<char>, from: int, to: int, tokens: int) -> bool {
    &&& c.tokens == tokens
    &&& from <= c.byte_start < c.byte_end <= to
    &&& text::between(s, c.byte_start, c.byte_end) == Some(c.text)
    &&& c.text.len() > 0
    &&& !text::whitespace(c.text[0])
    &&& !text::whitespace(c.text.last())
    &&& holds(c, s, from, to)
}

/// Whether there is nothing to make a chunk of in the bytes `from..to` of `s`: they are no slice of
/// it, or blank.
pub open spec fn nothing_in(s: Seq<char>, from: int, to: int) -> bool {
    text::between(s, from, to) is None || !not_blank(s, from, to)
}

proof fn lemma_chunk_is_trimmed(s: Seq<char>, spans: Seq<TokenSpan>, start: int, end: int)
    requires
        0 <= start < end <= spans.len(),
    ensures
        match chunk::chunk_at(s, spans, start, end) {
            Some(c) => trimmed_to(
                c,
                s,
                spans[start].start as int,
                spans[end - 1].end as int,
                end - start,
            ),
            None => nothing_in(s, spans[start].start as int, spans[end - 1].end as int),
        },
{
    let from = spans[start].start as int;
    let to = spans[end - 1].end as int;
    if text::between(s, from, to) is Some {
        chunk::lemma_trimmed_span(s, from, to);
        match chunk::chunk_at(s, spans, start, end) {
            Some(c) => {
                lemma_chunk_at(s, spans, start, end);
                assert forall|k: int|
                    0 <= k < s.len() && !text::whitespace(s[k]) && #[trigger] inside(
                        s,
                        k,
                        from,
                        to,
                    ) implies inside(s, k, c.byte_start, c.byte_end) by {
                    lemma_trimmed_holds(s, from, to, k);
                }
            },
            None => {
                if not_blank(s, from, to) {
                    let k = choose|k: int|
                        0 <= k < s.len() && !text::whitespace(s[k]) && #[trigger] inside(
                            s,
                            k,
                            from,
                            to,
                        );
                    lemma_trimmed_holds(s, from, to, k);
                }
            },
        }
    }
}

/// The chunk of window `i`.
spec fn window_chunk(
    s: Seq<char>,
    spans: Seq<TokenSpan>,
    cuts: Seq<(int, int)>,
    i: int,
) -> Option<Chunk> {
    chunk::chunk_at(s, spans, cuts[i].0, cuts[i].1)
}

/// Which windows the emitted chunks come from.
proof fn lemma_picks(s: Seq<char>, spans: Seq<TokenSpan>, cuts: Seq<(int, int)>) -> (picks: Seq<int>)
    ensures
        picks.len() == chunk::emitted(s, spans, cuts).len(),
        picked(picks, cuts),
        forall|k: int|
            0 <= k < picks.len() ==> window_chunk(s, spans, cuts, #[trigger] picks[k]) == Some(
                chunk::emitted(s, spans, cuts)[k],
            ),
        forall|i: int|
            0 <= i < cuts.len() && !#[trigger] picks.contains(i) ==> window_chunk(
                s,
                spans,
                cuts,
                i,
            ) is None,
    decreases cuts.len(),
{
    if cuts.len() == 0 {
        Seq::empty()
    } else {
        let rest = cuts.drop_first();
        let before = lemma_picks(s, spans, rest);
        let first = chunk::chunk_at(s, spans, cuts[0].0, cuts[0].1);
        let n = if first is Some {
            1int
        } else {
            0int
        };
        let picks = Seq::new(
            (before.len() + n) as nat,
            |k: int|
                if k < n {
                    0
                } else {
                    before[k - n] + 1
                },
        );
        assert forall|k: int| 0 <= k < picks.len() implies 0 <= #[trigger] picks[k] < cuts.len()
            && window_chunk(s, spans, cuts, picks[k]) == Some(
            chunk::emitted(s, spans, cuts)[k],
        ) by {
            if k >= n {
                let i = before[k - n];
                assert(rest[i] == cuts[i + 1]);
                assert(window_chunk(s, spans, rest, i) == window_chunk(s, spans, cuts, i + 1));
            }
        }
        assert forall|k: int, l: int| 0 <= k < l < picks.len() implies #[trigger] picks[k]
            < #[trigger] picks[l] by {
            if k >= n {
                assert(before[k - n] < before[l - n]);
            } else {
                assert(0 <= before[l - n]);
            }
        }
        assert forall|i: int| 0 <= i < cuts.len() && !#[trigger] picks.contains(i) implies
            window_chunk(s, spans, cuts, i) is None by {
            if i == 0 {
                if n == 1 {
                    assert(picks[0] == 0);
                }
            } else {
                assert(rest[i - 1] == cuts[i]);
                if before.contains(i - 1) {
                    let k = choose|k: int| 0 <= k < before.len() && before[k] == i - 1;
                    assert(picks[k + n] == i);
                }
                assert(window_chunk(s, spans, rest, i - 1) is None);
            }
        }
        picks
    }
}

/// Whether `picks` are positions of `cuts`, in order.
pub open spec fn picked(picks: Seq<int>, cuts: Seq<(int, int)>) -> bool {
    &&& forall|k: int| 0 <= k < picks.len() ==> 0 <= #[trigger] picks[k] < cuts.len()
    &&& forall|k: int, l: int| 0 <= k < l < picks.len() ==> #[trigger] picks[k] < #[trigger] picks[l]
}

/// Whether `c` is the window `cut` of `s` without its outer white space.
pub open spec fn window_text(c: Chunk, s: Seq<char>, spans: Seq<TokenSpan>, cut: (int, int)) -> bool {
    trimmed_to(c, s, spans[cut.0].start as int, spans[cut.1 - 1].end as int, cut.1 - cut.0)
}

/// Whether there is nothing to make a chunk of in the window `cut` of `s`.
pub open spec fn window_blank(s: Seq<char>, spans: Seq<TokenSpan>, cut: (int, int)) -> bool {
    nothing_in(s, spans[cut.0].start as int, spans[cut.1 - 1].end as int)
}

/// Whether all of `cuts` are ranges of `n` tokens, and not empty.
spec fn within(cuts: Seq<(int, int)>, n: int) -> bool {
    forall|i: int| 0 <= i < cuts.len() ==> 0 <= (#[trigger] cuts[i]).0 < cuts[i].1 <= n
}

/// Which windows the first `count` emitted chunks come from.
proof fn lemma_first_picks(
    s: Seq<char>,
    spans: Seq<TokenSpan>,
    cuts: Seq<(int, int)>,
    count: int,
) -> (picks: Seq<int>)
    requires
        within(cuts, spans.len() as int),
        0 <= count <= chunk::emitted(s, spans, cuts).len(),
    ensures
        picks.len() == count,
        picked(picks, cuts),
        forall|k: int|
            0 <= k < count ==> window_text(
                chunk::emitted(s, spans, cuts)[k],
                s,
                spans,
                cuts[#[trigger] picks[k]],
            ),
        forall|i: int|
            0 <= i < cuts.len() && !#[trigger] picks.contains(i) && (count == chunk::emitted(
                s,
                spans,
                cuts,
            ).len() || (count > 0 && i < picks.last())) ==> window_blank(s, spans, cuts[i]),
{
    let all = lemma_picks(s, spans, cuts);
    let picks = all.take(count);
    assert forall|k: int| 0 <= k < picks.len() implies 0 <= #[trigger] picks[k] < cuts.len() by {
        assert(picks[k] == all[k]);
    }
    assert forall|k: int, l: int| 0 <= k < l < picks.len() implies #[trigger] picks[k]
        < #[trigger] picks[l] by {
        assert(picks[k] == all[k] && picks[l] == all[l]);
    }
    assert forall|k: int| 0 <= k < count implies window_text(
        chunk::emitted(s, spans, cuts)[k],
        s,
        spans,
        cuts[#[trigger] picks[k]],
    ) by {
        let i = all[k];
        assert(picks[k] == i);
        assert(0 <= cuts[i].0 < cuts[i].1 <= spans.len());
        lemma_chunk_is_trimmed(s, spans, cuts[i].0, cuts[i].1);
    }
    assert forall|i: int|
        0 <= i < cuts.len() && !#[trigger] picks.contains(i) && (count == chunk::emitted(
            s,
            spans,
            cuts,
        ).len() || (count > 0 && i < picks.last())) implies window_blank(s, spans, cuts[i]) by {
        assert(0 <= cuts[i].0 < cuts[i].1 <= spans.len());
        lemma_chunk_is_trimmed(s, spans, cuts[i].0, cuts[i].1);
        if all.contains(i) {
            let k = choose|k: int| 0 <= k < all.len() && all[k] == i;
            if k < count {
                assert(picks[k] == i);
            } else {
                assert(picks.last() == all[count - 1]);
                assert(all[count - 1] < all[k]);
            }
        }
        assert(window_chunk(s, spans, cuts, i) is None);
    }
    picks
}

proof fn lemma_within(cuts: Seq<(int, int)>, to: int, max: int, overlap: int)
    requires
        stepped(cuts, 0, to, max, overlap),
    ensures
        within(cuts, to),
{
}

/// Whether `chunks` are what a document is cut into: `cuts` are the windows, of at most
/// `opts.max_tokens` tokens (one where that is zero), and `picks` says which of them the chunks are.
pub open spec fn cut_into(
    chunks: Seq<Chunk>,
    s: Seq<char>,
    spans: Seq<TokenSpan>,
    opts: ChunkOptions,
    cuts: Seq<(int, int)>,
    picks: Seq<int>,
) -> bool {
    let max = if opts.max_tokens == 0 {
        1
    } else {
        opts.max_tokens as int
    };
    &&& stepped(cuts, 0, spans.len() as int, max, opts.overlap_tokens as int)
    &&& ends_well(cuts, s, spans, max)
    &&& picked(picks, cuts)
    &&& picks.len() == chunks.len()
    &&& forall|k: int|
        0 <= k < chunks.len() ==> window_text(chunks[k], s, spans, cuts[#[trigger] picks[k]])
    &&& opts.max_chunks matches Some(n) ==> chunks.len() <= n@
    &&& forall|i: int|
        0 <= i < cuts.len() && !#[trigger] picks.contains(i) && (opts.max_chunks matches Some(n)
            ==> chunks.len() < n@ || (picks.len() > 0 && i < picks.last())) ==> window_blank(
            s,
            spans,
            cuts[i],
        )
}

/// What a document is cut into. The tokens are gone through from the first to the last in windows of
/// at most `opts.max_tokens` tokens (one where that is zero). Each window starts exactly
/// `opts.overlap_tokens` tokens before the end of the one before, but at least one token behind its
/// start, so that the two share as many tokens as asked for; it ends at the best break. The chunks
/// are the windows without their outer white space, in order: all that are not blank, as far as
/// `opts.max_chunks` allows.
pub proof fn chunks_are_trimmed_windows(s: Seq<char>, spans: Seq<TokenSpan>, opts: ChunkOptions) -> (r:
    (Seq<(int, int)>, Seq<int>))
    ensures
        cut_into(chunk::chunks(s, spans, opts), s, spans, opts, r.0, r.1),
{
    let max = opts.window();
    let overlap = opts.overlap_tokens as int;
    let cuts = chunk::windows(s, spans, max, overlap, 0);
    let chunks = chunk::chunks(s, spans, opts);
    let picks = lemma_capped_picks(s, spans, opts, cuts);
    lemma_windows_step(s, spans, max, overlap, 0);
    (cuts, picks)
}

proof fn lemma_capped_picks(
    s: Seq<char>,
    spans: Seq<TokenSpan>,
    opts: ChunkOptions,
    cuts: Seq<(int, int)>,
) -> (picks: Seq<int>)
    requires
        cuts == chunk::windows(s, spans, opts.window(), opts.overlap_tokens as int, 0),
    ensures
        picked(picks, cuts),
        picks.len() == chunk::chunks(s, spans, opts).len(),
        forall|k: int|
            0 <= k < picks.len() ==> window_text(
                chunk::chunks(s, spans, opts)[k],
                s,
                spans,
                cuts[#[trigger] picks[k]],
            ),
        opts.max_chunks matches Some(n) ==> picks.len() <= n@,
        forall|i: int|
            0 <= i < cuts.len() && !#[trigger] picks.contains(i) && (opts.max_chunks matches Some(n)
                ==> picks.len() < n@ || (picks.len() > 0 && i < picks.last())) ==> window_blank(
                s,
                spans,
                cuts[i],
            ),
{
    lemma_windows_step(s, spans, opts.window(), opts.overlap_tokens as int, 0);
    lemma_within(cuts, spans.len() as int, opts.window(), opts.overlap_tokens as int);
    lemma_first_picks(s, spans, cuts, chunk::chunks(s, spans, opts).len() as int)
}

// ---- words as tokens -----------------------------------------------------------------------

/// Whether `span` is a word of `s` that starts before character `n`.
spec fn word_before(s: Seq<char>, span: TokenSpan, n: int) -> bool {
    exists|a: int|
        a < n && chunk::starts_word(s, a) && span == #[trigger] chunk::word_span(s, a)
}

/// The words that start before character `n` are words, and apart from each other.
proof fn lemma_words(s: Seq<char>, n: int)
    requires
        0 <= n <= s.len(),
        text::byte_len(s) <= usize::MAX,
    ensures
        forall|i: int|
            0 <= i < chunk::words(s, n).len() ==> word_before(
                s,
                #[trigger] chunk::words(s, n)[i],
                n,
            ),
        forall|i: int, j: int|
            0 <= i < j < chunk::words(s, n).len() ==> (#[trigger] chunk::words(s, n)[i]).end
                <= (#[trigger] chunk::words(s, n)[j]).start,
    decreases n,
{
    if n > 0 {
        lemma_words(s, n - 1);
        let before = chunk::words(s, n - 1);
        assert forall|i: int| 0 <= i < before.len() implies word_before(
            s,
            #[trigger] before[i],
            n,
        ) by {
            assert(word_before(s, before[i], n - 1));
        }
        if chunk::starts_word(s, n - 1) {
            let span = chunk::word_span(s, n - 1);
            assert(word_before(s, span, n));
            assert forall|i: int| 0 <= i < before.len() implies (#[trigger] before[i]).end
                <= span.start by {
                assert(word_before(s, before[i], n - 1));
                let a = choose|a: int|
                    a < n - 1 && chunk::starts_word(s, a) && before[i]
                        == #[trigger] chunk::word_span(s, a);
                lemma_word_span(s, a);
                lemma_word_span(s, n - 1);
                chunk::lemma_word_end(s, a);
                if n - 1 < chunk::word_end(s, a) {
                    assert(!text::whitespace(s[n - 2]));
                }
                text::lemma_offset_monotonic(s, chunk::word_end(s, a), n - 1);
            }
        }
    }
}

proof fn lemma_word_span(s: Seq<char>, a: int)
    requires
        chunk::starts_word(s, a),
        text::byte_len(s) <= usize::MAX,
    ensures
        a < chunk::word_end(s, a) <= s.len(),
        chunk::word_span(s, a).start == text::offset(s, a),
        chunk::word_span(s, a).end == text::offset(s, chunk::word_end(s, a)),
        text::offset(s, a) < text::offset(s, chunk::word_end(s, a)) <= text::byte_len(s),
{
    chunk::lemma_word_end(s, a);
    assert(chunk::word_end(s, a) == chunk::word_end(s, a + 1));
    chunk::lemma_word_end(s, a + 1);
    text::lemma_offset_ends(s);
    text::lemma_offset_monotonic(s, a, chunk::word_end(s, a));
    text::lemma_offset_monotonic(s, chunk::word_end(s, a), s.len() as int);
    text::lemma_offset_monotonic(s, 0, a);
}

/// The words of a text are spans of it, in order and apart from each other, and none of them
/// starts with white space.
pub proof fn words_are_ordered(s: Seq<char>)
    requires
        text::byte_len(s) <= usize::MAX,
    ensures
        ordered(s, chunk::words(s, s.len() as int)),
        separate(s, chunk::words(s, s.len() as int)),
        forall|i: int|
            0 <= i < chunk::words(s, s.len() as int).len() ==> {
                let k = text::char_index(
                    s,
                    (#[trigger] chunk::words(s, s.len() as int)[i]).start as int,
                );
                k < s.len() && !text::whitespace(s[k])
            },
{
    let spans = chunk::words(s, s.len() as int);
    lemma_words(s, s.len() as int);
    assert forall|i: int| 0 <= i < spans.len() implies {
        let k = text::char_index(s, (#[trigger] spans[i]).start as int);
        &&& spans[i].start < spans[i].end
        &&& text::boundary(s, spans[i].start as int)
        &&& text::boundary(s, spans[i].end as int)
        &&& k < s.len()
        &&& !text::whitespace(s[k])
        &&& not_blank(s, spans[i].start as int, spans[i].end as int)
    } by {
        assert(word_before(s, spans[i], s.len() as int));
        let a = choose|a: int|
            a < s.len() && chunk::starts_word(s, a) && spans[i] == #[trigger] chunk::word_span(
                s,
                a,
            );
        lemma_word_span(s, a);
        text::lemma_char_index(s, a);
        text::lemma_char_index(s, chunk::word_end(s, a));
        text::lemma_offset_monotonic(s, a + 1, chunk::word_end(s, a));
        assert(inside(s, a, spans[i].start as int, spans[i].end as int));
    }
    assert forall|i: int, j: int| 0 <= i <= j < spans.len() implies {
        &&& (#[trigger] spans[i]).start <= (#[trigger] spans[j]).start
        &&& spans[i].end <= spans[j].end
    } by {}
}

/// A word is a whole run of characters that are not white space: white space, or an end of the text,
/// stands on both sides of it.
pub proof fn words_are_whole_runs(s: Seq<char>, i: int) -> (r: (int, int))
    requires
        text::byte_len(s) <= usize::MAX,
        0 <= i < chunk::words(s, s.len() as int).len(),
    ensures
        ({
            let (a, b) = r;
            let span = chunk::words(s, s.len() as int)[i];
            &&& 0 <= a < b <= s.len()
            &&& span.start == text::offset(s, a)
            &&& span.end == text::offset(s, b)
            &&& forall|k: int| a <= k < b ==> !text::whitespace(#[trigger] s[k])
            &&& a > 0 ==> text::whitespace(s[a - 1])
            &&& b < s.len() ==> text::whitespace(s[b])
        }),
{
    let span = chunk::words(s, s.len() as int)[i];
    lemma_words(s, s.len() as int);
    assert(word_before(s, span, s.len() as int));
    let a = choose|a: int|
        a < s.len() && chunk::starts_word(s, a) && span == #[trigger] chunk::word_span(s, a);
    lemma_word_span(s, a);
    chunk::lemma_word_end(s, a);
    (a, chunk::word_end(s, a))
}

/// Every non-blank character is in a word.
pub proof fn words_cover(s: Seq<char>, k: int)
    requires
        0 <= k < s.len(),
        !text::whitespace(s[k]),
        text::byte_len(s) <= usize::MAX,
    ensures
        exists|t: int|
            0 <= t < chunk::words(s, s.len() as int).len() && inside(
                s,
                k,
                (#[trigger] chunk::words(s, s.len() as int)[t]).start as int,
                chunk::words(s, s.len() as int)[t].end as int,
            ),
{
    let a = lemma_word_of(s, k);
    let t = lemma_word_listed(s, a, s.len() as int);
    lemma_word_span(s, a);
    text::lemma_offset_monotonic(s, a, k);
    text::lemma_offset_monotonic(s, k + 1, chunk::word_end(s, a));
    let span = chunk::words(s, s.len() as int)[t];
    assert(inside(s, k, span.start as int, span.end as int));
}

proof fn lemma_word_of(s: Seq<char>, k: int) -> (a: int)
    requires
        0 <= k < s.len(),
        !text::whitespace(s[k]),
    ensures
        chunk::starts_word(s, a),
        a <= k < chunk::word_end(s, a),
    decreases k,
{
    if k == 0 || text::whitespace(s[k - 1]) {
        assert(chunk::word_end(s, k) == chunk::word_end(s, k + 1));
        chunk::lemma_word_end(s, k + 1);
        k
    } else {
        let a = lemma_word_of(s, k - 1);
        chunk::lemma_word_end(s, a);
        a
    }
}

proof fn lemma_word_listed(s: Seq<char>, a: int, n: int) -> (t: int)
    requires
        chunk::starts_word(s, a),
        a < n <= s.len(),
    ensures
        0 <= t < chunk::words(s, n).len(),
        chunk::words(s, n)[t] == chunk::word_span(s, a),
    decreases n,
{
    if a == n - 1 {
        chunk::words(s, n).len() - 1
    } else {
        lemma_word_listed(s, a, n - 1)
    }
}

/// With white-space words as tokens, every non-blank character of the text is in a chunk.
pub proof fn no_word_is_lost(s: Seq<char>, opts: ChunkOptions, k: int)
    requires
        opts.max_chunks is None,
        text::byte_len(s) <= usize::MAX,
        0 <= k < s.len(),
        !text::whitespace(s[k]),
    ensures
        exists|m: int|
            0 <= m < chunk::chunks(s, chunk::words(s, s.len() as int), opts).len() && inside(
                s,
                k,
                (#[trigger] chunk::chunks(s, chunk::words(s, s.len() as int), opts)[m]).byte_start,
                chunk::chunks(s, chunk::words(s, s.len() as int), opts)[m].byte_end,
            ),
{
    let spans = chunk::words(s, s.len() as int);
    words_are_ordered(s);
    words_cover(s, k);
    let t = choose|t: int|
        0 <= t < spans.len() && inside(
            s,
            k,
            (#[trigger] spans[t]).start as int,
            spans[t].end as int,
        );
    no_token_is_lost(s, spans, opts, t, k);
    let m = choose|m: int|
        0 <= m < chunk::chunks(s, spans, opts).len() && holds(
            #[trigger] chunk::chunks(s, spans, opts)[m],
            s,
            spans[t].start as int,
            spans[t].end as int,
        );
    let c = chunk::chunks(s, spans, opts)[m];
    assert(inside(s, k, c.byte_start, c.byte_end));
}

// ---- rows of a batch -----------------------------------------------------------------------

/// Whether row `a` comes before row `b`: by document, then by chunk.
pub open spec fn row_before(a: Row, b: Row) -> bool {
    a.doc_ix < b.doc_ix || (a.doc_ix == b.doc_ix && a.chunk_ix < b.chunk_ix)
}

/// Every row points back at the chunk it was made from.
pub proof fn rows_point_back(docs: Seq<Seq<Chunk>>, i: int)
    requires
        0 <= i < chunk::rows(docs).len(),
    ensures
        ({
            let row = chunk::rows(docs)[i];
            &&& 0 <= row.doc_ix < docs.len()
            &&& 0 <= row.chunk_ix < docs[row.doc_ix].len()
            &&& row.chunk == docs[row.doc_ix][row.chunk_ix]
        }),
    decreases docs.len(),
{
    let before = chunk::rows(docs.drop_last());
    if i < before.len() {
        rows_point_back(docs.drop_last(), i);
        assert(docs.drop_last()[before[i].doc_ix] == docs[before[i].doc_ix]);
    }
}

/// Rows come out ordered by document and chunk, so that they group without sorting; none occurs
/// twice.
pub proof fn rows_are_ordered(docs: Seq<Seq<Chunk>>, i: int, j: int)
    requires
        0 <= i < j < chunk::rows(docs).len(),
    ensures
        row_before(chunk::rows(docs)[i], chunk::rows(docs)[j]),
    decreases docs.len(),
{
    let before = chunk::rows(docs.drop_last());
    if j < before.len() {
        rows_are_ordered(docs.drop_last(), i, j);
    } else if i < before.len() {
        rows_point_back(docs.drop_last(), i);
    }
}

/// Every chunk of every document has its row; a document without chunks has none.
pub proof fn rows_are_complete(docs: Seq<Seq<Chunk>>, d: int, c: int) -> (i: int)
    requires
        0 <= d < docs.len(),
        0 <= c < docs[d].len(),
    ensures
        0 <= i < chunk::rows(docs).len(),
        chunk::rows(docs)[i] == (Row { doc_ix: d, chunk_ix: c, chunk: docs[d][c] }),
    decreases docs.len(),
{
    let before = chunk::rows(docs.drop_last());
    if d == docs.len() - 1 {
        before.len() + c
    } else {
        assert(docs.drop_last()[d] == docs[d]);
        rows_are_complete(docs.drop_last(), d, c)
    }
}

/// Every row is embedded as its whole text behind the prefix, in order.
pub proof fn inputs_are_whole_rows(rows: Seq<Row>, prefix: Seq<char>, i: int)
    requires
        0 <= i < rows.len(),
    ensures
        chunk::prefixed(rows, prefix).len() == rows.len(),
        chunk::prefixed(rows, prefix)[i].take(prefix.len() as int) == prefix,
        chunk::prefixed(rows, prefix)[i].skip(prefix.len() as int) == rows[i].chunk.text,
{
    let input = prefix + rows[i].chunk.text;
    assert(input.take(prefix.len() as int) =~= prefix);
    assert(input.skip(prefix.len() as int) =~= rows[i].chunk.text);
}

/// Every row keeps its place and gets the vector at that place.
pub proof fn rows_get_their_vectors(rows: Seq<Row>, vectors: Seq<Seq<F32>>, i: int)
    requires
        rows.len() == vectors.len(),
        0 <= i < rows.len(),
    ensures
        chunk::paired(rows, vectors).len() == rows.len(),
        chunk::paired(rows, vectors)[i].0 == rows[i],
        chunk::paired(rows, vectors)[i].1 == vectors[i],
{
}

/// What cutting a text gives: its windows without their outer white space, each starting as many tokens
/// before the end of the one before as the overlap says.
pub proof fn cutting_gives_trimmed_windows(
    given: &str,
    spans: &[TokenSpan],
    opts: &ChunkOptions,
    r: Vec<TextChunk>,
) -> (found: (Seq<(int, int)>, Seq<int>))
    requires
        call_ensures(chunk::chunk_spans, (given, spans, opts), r),
    ensures
        cut_into(chunk::views(r@), given@, spans@, *opts, found.0, found.1),
{
    chunks_are_trimmed_windows(given@, spans@, *opts)
}

/// A window leaves room for two special tokens, and for at least one token of the text.
pub proof fn windows_leave_room_for_special_tokens(max: usize, r: usize)
    requires
        call_ensures(chunk::content_window, (max,), r),
    ensures
        r >= 1,
        max >= 3 ==> r + 2 == max,
        max < 3 ==> r == 1,
{
}

} // verus!
