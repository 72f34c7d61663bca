//! Token-window chunking shared by the in-process and the remote embedder.
//!
//! Chunking works on a text and the list of its tokens' byte spans, so that both
//! embedders cut a document in the same places whatever tokenizer they use.

pub mod laws;
pub mod plan;

use crate::error::Error;
use crate::float::F32;
use crate::num::NonZeroUsize;
use crate::text;
use vstd::prelude::*;

verus! {

broadcast use vstd::seq::group_seq_axioms;

/// Byte span of a single token within its source text.
#[derive(Clone, Copy, Debug, PartialEq, Eq, Structural)]
pub struct TokenSpan {
    pub start: usize,
    pub end: usize,
}

/// Tokens the tokenizer adds around every input ([CLS]/[SEP]), left out of chunk content so
/// that the model never truncates a chunk.
pub const SPECIAL_TOKEN_HEADROOM: usize = 2;

/// Content tokens of a context window of `max_tokens`: what the special tokens leave of it, at
/// least one.
pub fn content_window(max_tokens: usize) -> (r: usize)
    ensures
        r == (if max_tokens <= SPECIAL_TOKEN_HEADROOM + 1 {
            1
        } else {
            max_tokens - SPECIAL_TOKEN_HEADROOM
        }),
{
    let left: usize = max_tokens.saturating_sub(SPECIAL_TOKEN_HEADROOM);
    if left < 1 {
        1
    } else {
        left
    }
}

/// Chunking policy for document embedding (model-agnostic limits).
#[derive(Clone, Copy, Debug)]
pub struct ChunkOptions {
    /// Content tokens per chunk, excluding special tokens ([CLS]/[SEP]).
    pub max_tokens: usize,
    /// Token overlap between consecutive chunks.
    pub overlap_tokens: usize,
    /// Texts below this token count are not worth embedding.
    pub min_tokens: usize,
    /// Most chunks to emit per text; `None` for all of them.
    pub max_chunks: Option<NonZeroUsize>,
}

impl ChunkOptions {
    /// Options at `max_tokens` with the default overlap and minimum, and no cap.
    pub fn new(max_tokens: usize) -> (r: ChunkOptions)
        ensures
            r.max_tokens == max_tokens,
            r.overlap_tokens == 64,
            r.min_tokens == 5,
            r.max_chunks is None,
    {
        ChunkOptions { max_tokens, overlap_tokens: 64, min_tokens: 5, max_chunks: None }
    }

    /// Tokens per chunk, at least one.
    pub open spec fn window(self) -> int {
        if self.max_tokens < 1 {
            1
        } else {
            self.max_tokens as int
        }
    }
}

/// A slice of a source text, aligned to token boundaries.
#[derive(Debug, PartialEq, Eq)]
pub struct TextChunk {
    pub text: String,
    pub tokens: usize,
    /// `source[byte_start..byte_end]`, outer white space trimmed.
    pub byte_start: usize,
    pub byte_end: usize,
}

impl Clone for TextChunk {
    fn clone(&self) -> (r: TextChunk)
        ensures
            r == *self,
    {
        TextChunk {
            text: self.text.clone(),
            tokens: self.tokens,
            byte_start: self.byte_start,
            byte_end: self.byte_end,
        }
    }
}

/// What a [`TextChunk`] holds.
pub struct Chunk {
    pub text: Seq<char>,
    pub tokens: int,
    pub byte_start: int,
    pub byte_end: int,
}

impl View for TextChunk {
    type V = Chunk;

    open spec fn view(&self) -> Chunk {
        Chunk {
            text: self.text@,
            tokens: self.tokens as int,
            byte_start: self.byte_start as int,
            byte_end: self.byte_end as int,
        }
    }
}

// ---- white-space words ---------------------------------------------------------------------

/// Whether a word of `s` starts at character `k`.
pub open spec fn starts_word(s: Seq<char>, k: int) -> bool {
    &&& 0 <= k < s.len()
    &&& !text::whitespace(s[k])
    &&& k == 0 || text::whitespace(s[k - 1])
}

/// The first white space of `s` from character `k` on, or the end of `s`.
pub open spec fn word_end(s: Seq<char>, k: int) -> int
    decreases s.len() - k,
{
    if 0 <= k < s.len() && !text::whitespace(s[k]) {
        word_end(s, k + 1)
    } else {
        k
    }
}

/// Byte span of the word of `s` that starts at character `k`.
pub open spec fn word_span(s: Seq<char>, k: int) -> TokenSpan {
    TokenSpan { start: text::offset(s, k) as usize, end: text::offset(s, word_end(s, k)) as usize }
}

/// Byte spans of the words of `s` that start before character `k`, in order.
pub open spec fn words(s: Seq<char>, k: int) -> Seq<TokenSpan>
    decreases k,
{
    if k <= 0 {
        Seq::empty()
    } else if starts_word(s, k - 1) {
        words(s, k - 1).push(word_span(s, k - 1))
    } else {
        words(s, k - 1)
    }
}

/// A word ends behind its last character: at white space, or where the text ends.
pub proof fn lemma_word_end(s: Seq<char>, k: int)
    requires
        0 <= k <= s.len(),
    ensures
        k <= word_end(s, k) <= s.len(),
        forall|i: int| k <= i < word_end(s, k) ==> !text::whitespace(#[trigger] s[i]),
        word_end(s, k) < s.len() ==> text::whitespace(s[word_end(s, k)]),
    decreases s.len() - k,
{
    if k < s.len() && !text::whitespace(s[k]) {
        lemma_word_end(s, k + 1);
    }
}

proof fn lemma_word_end_unique(s: Seq<char>, a: int, k: int)
    requires
        0 <= a <= k <= s.len(),
        forall|i: int| a <= i < k ==> !text::whitespace(#[trigger] s[i]),
        k < s.len() ==> text::whitespace(s[k]),
    ensures
        word_end(s, a) == k,
{
    lemma_word_end(s, a);
    let e = word_end(s, a);
    if e < k {
        assert(!text::whitespace(s[e]));
    } else if k < e {
        assert(!text::whitespace(s[k]));
    }
}

/// White-space words as tokens: the documented approximation of the fake embedder.
pub fn fake_token_spans(text: &str) -> (spans: Vec<TokenSpan>)
    ensures
        spans@ == words(text@, text@.len() as int),
{
    let total: usize = text::byte_count(text);
    let chars = text::chars_of(text);
    let ghost s = text@;
    let mut spans: Vec<TokenSpan> = Vec::new();
    let mut at: usize = 0;
    let mut start: Option<usize> = None;
    let ghost mut first: int = 0;
    let mut k: usize = 0;
    proof {
        text::lemma_offset_ends(s);
    }
    while k < chars.len()
        invariant
            chars@ == s,
            total == text::byte_len(s),
            0 <= k <= s.len(),
            at == text::offset(s, k as int),
            match start {
                None => {
                    &&& spans@ == words(s, k as int)
                    &&& k == 0 || text::whitespace(s[k - 1])
                },
                Some(b) => {
                    &&& 0 <= first < k
                    &&& starts_word(s, first)
                    &&& forall|i: int| first <= i < k ==> !text::whitespace(#[trigger] s[i])
                    &&& b == text::offset(s, first)
                    &&& words(s, k as int) == spans@.push(word_span(s, first))
                },
            },
        decreases s.len() - k,
    {
        let c: char = chars[k];
        proof {
            text::lemma_offset_step(s, k as int);
            text::lemma_offset_monotonic(s, k + 1, s.len() as int);
            text::lemma_offset_ends(s);
        }
        if text::is_whitespace(c) {
            if let Some(b) = start {
                proof {
                    lemma_word_end_unique(s, first, k as int);
                }
                spans.push(TokenSpan { start: b, end: at });
                start = None;
            }
        } else if start.is_none() {
            start = Some(at);
            proof {
                first = k as int;
                assert(starts_word(s, first));
            }
        }
        at = at + text::char_width(c);
        k += 1;
    }
    if let Some(b) = start {
        proof {
            lemma_word_end_unique(s, first, s.len() as int);
        }
        spans.push(TokenSpan { start: b, end: at });
    }
    spans
}

// ---- natural breaks ------------------------------------------------------------------------

/// What ends just before a natural break.
#[derive(Clone, Copy, PartialEq, Eq, Structural)]
pub enum Separator {
    /// A blank line between paragraphs.
    Paragraph,
    /// The end mark of a sentence and the space behind it.
    Sentence,
}

/// Whether such a separator ends just before character `p` of `w`.
pub open spec fn ends(separator: Separator, w: Seq<char>, p: int) -> bool {
    &&& 2 <= p <= w.len()
    &&& match separator {
        Separator::Paragraph => w[p - 2] == '\n' && w[p - 1] == '\n',
        Separator::Sentence => (w[p - 2] == '.' || w[p - 2] == '!' || w[p - 2] == '?') && w[p - 1]
            == ' ',
    }
}

/// The last position up to `p` just behind such a separator of `w`.
pub open spec fn last_end(separator: Separator, w: Seq<char>, p: int) -> Option<int>
    decreases p,
{
    if p < 2 {
        None
    } else if ends(separator, w, p) {
        Some(p)
    } else {
        last_end(separator, w, p - 1)
    }
}

/// The last white space of `w` before character `p`.
pub open spec fn last_space(w: Seq<char>, p: int) -> Option<int>
    decreases p,
{
    if p < 1 {
        None
    } else if whitespace_at(w, p - 1) {
        Some(p - 1)
    } else {
        last_space(w, p - 1)
    }
}

/// Whether character `k` of `w` is white space.
pub open spec fn whitespace_at(w: Seq<char>, k: int) -> bool {
    0 <= k < w.len() && text::whitespace(w[k])
}

/// Where to break `w`: behind its last paragraph, else behind its last sentence, else at its last
/// white space.
pub open spec fn break_at(w: Seq<char>) -> Option<int> {
    let n = w.len() as int;
    match last_end(Separator::Paragraph, w, n) {
        Some(p) => Some(p),
        None => match last_end(Separator::Sentence, w, n) {
            Some(p) => Some(p),
            None => last_space(w, n),
        },
    }
}

/// How many of the tokens `spans[start..end]` end by byte `at`, counted up to the first that
/// does not.
pub open spec fn covered(spans: Seq<TokenSpan>, start: int, end: int, at: int) -> int
    decreases end - start,
{
    if 0 <= start < end <= spans.len() && spans[start].end <= at {
        1 + covered(spans, start + 1, end, at)
    } else {
        0
    }
}

/// Last natural break inside the tokens `spans[start..end]` of `s`, as a token index; `end`
/// where there is none.
pub open spec fn natural_break(s: Seq<char>, spans: Seq<TokenSpan>, start: int, end: int) -> int {
    let last = if end < 1 {
        0
    } else {
        end - 1
    };
    if start >= spans.len() || last >= spans.len() {
        end
    } else {
        let from = spans[start].start as int;
        match text::between(s, from, spans[last].end as int) {
            None => end,
            Some(w) => match break_at(w) {
                None => end,
                Some(p) => start + covered(spans, start, end, from + text::offset(w, p)),
            },
        }
    }
}

fn separator_position(separator: Separator, window: &str, chars: &Vec<char>) -> (r: Option<usize>)
    requires
        chars@ == window@,
    ensures
        match last_end(separator, window@, window@.len() as int) {
            Some(p) => 0 <= p <= window@.len() && r == Some(text::offset(window@, p) as usize),
            None => r is None,
        },
{
    let ghost w = window@;
    let mut at: usize = text::byte_count(window);
    let mut p: usize = chars.len();
    proof {
        text::lemma_offset_ends(w);
    }
    while p >= 2
        invariant
            w == window@,
            chars@ == w,
            0 <= p <= w.len(),
            at == text::offset(w, p as int),
            last_end(separator, w, w.len() as int) == last_end(separator, w, p as int),
        decreases p,
    {
        let a: char = chars[p - 2];
        let b: char = chars[p - 1];
        let found: bool = match separator {
            Separator::Paragraph => a == '\n' && b == '\n',
            Separator::Sentence => (a == '.' || a == '!' || a == '?') && b == ' ',
        };
        assert(found == ends(separator, w, p as int));
        if found {
            return Some(at);
        }
        proof {
            text::lemma_offset_step(w, p - 1);
            text::lemma_offset_monotonic(w, 0, p - 1);
            text::lemma_offset_ends(w);
        }
        at = at - text::char_width(b);
        p -= 1;
    }
    None
}

fn break_position(window: &str) -> (r: Option<usize>)
    ensures
        match break_at(window@) {
            Some(p) => 0 <= p <= window@.len() && r == Some(text::offset(window@, p) as usize),
            None => r is None,
        },
{
    let chars = text::chars_of(window);
    let ghost w = window@;
    if let Some(at) = separator_position(Separator::Paragraph, window, &chars) {
        return Some(at);
    }
    if let Some(at) = separator_position(Separator::Sentence, window, &chars) {
        return Some(at);
    }
    let mut at: usize = text::byte_count(window);
    let mut p: usize = chars.len();
    proof {
        text::lemma_offset_ends(w);
    }
    while p >= 1
        invariant
            w == window@,
            chars@ == w,
            0 <= p <= w.len(),
            at == text::offset(w, p as int),
            last_end(Separator::Paragraph, w, w.len() as int) is None,
            last_end(Separator::Sentence, w, w.len() as int) is None,
            last_space(w, w.len() as int) == last_space(w, p as int),
        decreases p,
    {
        let b: char = chars[p - 1];
        proof {
            text::lemma_offset_step(w, p - 1);
            text::lemma_offset_monotonic(w, 0, p - 1);
            text::lemma_offset_ends(w);
        }
        at = at - text::char_width(b);
        p -= 1;
        if text::is_whitespace(b) {
            return Some(at);
        }
    }
    None
}

/// Last natural break inside `spans[start..end]`, as a token index: behind a paragraph where one
/// ends there, else behind a sentence, else at white space.
pub fn find_break(text: &str, spans: &[TokenSpan], start: usize, end: usize) -> (r: usize)
    ensures
        r == natural_break(text@, spans@, start as int, end as int),
{
    let last: usize = end.saturating_sub(1);
    if start >= spans.len() || last >= spans.len() {
        return end;
    }
    let from: usize = spans[start].start;
    let window = match text::slice(text, from, spans[last].end) {
        Some(window) => window,
        None => return end,
    };
    let pos: usize = match break_position(window) {
        Some(pos) => pos,
        None => return end,
    };
    proof {
        lemma_window_fits(text@, from as int, spans[last as int].end as int, break_at(window@)->0);
    }
    let at: usize = from + pos;
    let mut ix: usize = start;
    while ix < end && ix < spans.len() && end <= spans.len() && spans[ix].end <= at
        invariant
            start <= ix <= spans@.len(),
            start <= end ==> ix <= end,
            ix > start ==> end <= spans@.len(),
            covered(spans@, start as int, end as int, at as int) == (ix - start) + covered(
                spans@,
                ix as int,
                end as int,
                at as int,
            ),
        decreases spans@.len() - ix,
    {
        ix += 1;
    }
    ix
}

proof fn lemma_window_fits(s: Seq<char>, from: int, to: int, p: int)
    requires
        text::between(s, from, to) matches Some(w) && 0 <= p <= w.len(),
    ensures
        0 <= from,
        0 <= text::offset(text::between(s, from, to)->0, p) <= to - from,
        text::boundary(s, from + text::offset(text::between(s, from, to)->0, p)),
{
    let i = text::char_index(s, from);
    let j = text::char_index(s, to);
    text::lemma_offset_ends(s);
    text::lemma_offset_monotonic(s, 0, i);
    if j < i {
        text::lemma_offset_monotonic(s, j, i);
    }
    text::lemma_offset_subrange(s, i, j, p);
    text::lemma_offset_monotonic(s, i, i + p);
    text::lemma_offset_monotonic(s, i + p, j);
    text::lemma_char_index(s, i + p);
}

// ---- chunks --------------------------------------------------------------------------------

/// The byte span `start..end` of `s` without its outer white space; empty at `start` where
/// nothing else is left of it, or where `s` has no such slice.
pub open spec fn trimmed_span(s: Seq<char>, start: int, end: int) -> (int, int) {
    match text::between(s, start, end) {
        None => (start, start),
        Some(w) => if text::trim(w).len() == 0 {
            (start, start)
        } else {
            let from = start + text::offset(w, text::leading(w) as int);
            (from, from + text::byte_len(text::trim(w)))
        },
    }
}

/// A trimmed span lies inside the span and holds the trimmed slice.
pub proof fn lemma_trimmed_span(s: Seq<char>, start: int, end: int)
    requires
        text::between(s, start, end) is Some,
    ensures
        ({
            let w = text::between(s, start, end)->0;
            let (a, b) = trimmed_span(s, start, end);
            let i = text::char_index(s, start) + text::leading(w);
            let j = i + text::trim(w).len();
            &&& 0 <= start <= a <= b <= end <= text::byte_len(s)
            &&& text::trim(w).len() > 0 ==> {
                &&& a < b
                &&& text::between(s, a, b) == Some(text::trim(w))
                &&& a == text::offset(s, i)
                &&& b == text::offset(s, j)
                &&& 0 <= i < j <= s.len()
                &&& text::trim(w) == s.subrange(i, j)
                &&& !text::whitespace(s[i])
                &&& !text::whitespace(s[j - 1])
            }
        }),
{
    let w = text::between(s, start, end)->0;
    let i = text::char_index(s, start);
    let j = text::char_index(s, end);
    text::lemma_offset_ends(s);
    text::lemma_offset_monotonic(s, 0, i);
    text::lemma_offset_monotonic(s, j, s.len() as int);
    if j < i {
        text::lemma_offset_monotonic(s, j, i);
    }
    text::lemma_trim(w);
    let lead = text::leading(w) as int;
    let a = i + lead;
    let b = a + text::trim(w).len();
    text::lemma_offset_subrange(s, i, j, lead);
    assert(text::trim(w) =~= s.subrange(a, b));
    text::lemma_byte_len_subrange(s, a, b);
    text::lemma_offset_monotonic(s, i, a);
    text::lemma_offset_monotonic(s, a, b);
    text::lemma_offset_monotonic(s, b, j);
    text::lemma_char_index(s, a);
    text::lemma_char_index(s, b);
}

/// Trim ASCII/Unicode white space from a byte span.
pub fn trim_span(text: &str, start: usize, end: usize) -> (r: (usize, usize))
    ensures
        (r.0 as int, r.1 as int) == trimmed_span(text@, start as int, end as int),
{
    let slice = match text::slice(text, start, end) {
        Some(slice) => slice,
        None => return (start, start),
    };
    let trimmed = text::trimmed(slice);
    let size: usize = text::byte_count(trimmed);
    proof {
        lemma_trimmed_span(text@, start as int, end as int);
        text::lemma_offset_ends(trimmed@);
        text::lemma_offset_monotonic(trimmed@, 0, trimmed@.len() as int);
    }
    if size == 0 {
        return (start, start);
    }
    let rest = text::trimmed_start(slice);
    proof {
        text::lemma_leading(slice@);
        text::lemma_byte_len_subrange(slice@, text::leading(slice@) as int, slice@.len() as int);
        text::lemma_offset_ends(slice@);
        text::lemma_offset_monotonic(slice@, 0, text::leading(slice@) as int);
        assert(rest@ =~= slice@.subrange(text::leading(slice@) as int, slice@.len() as int));
    }
    let lead: usize = text::byte_count(slice) - text::byte_count(rest);
    let from: usize = start + lead;
    (from, from + size)
}

/// The chunk made of the tokens `spans[start..end]` of `s`, unless there are none such or it is
/// blank.
pub open spec fn chunk_at(s: Seq<char>, spans: Seq<TokenSpan>, start: int, end: int) -> Option<
    Chunk,
> {
    if start >= spans.len() || end < 1 || end > spans.len() || start > end {
        None
    } else {
        let (a, b) = trimmed_span(s, spans[start].start as int, spans[end - 1].end as int);
        match text::between(s, a, b) {
            Some(t) => if a < b {
                Some(Chunk { text: t, tokens: end - start, byte_start: a, byte_end: b })
            } else {
                None
            },
            None => None,
        }
    }
}

/// The chunk made of the tokens `spans[start..end]`, unless there are none such or it is blank.
pub fn make_chunk(text: &str, spans: &[TokenSpan], start: usize, end: usize) -> (r: Option<
    TextChunk,
>)
    ensures
        match chunk_at(text@, spans@, start as int, end as int) {
            Some(c) => r matches Some(chunk) && chunk@ == c,
            None => r is None,
        },
{
    if start >= spans.len() || end < 1 || end > spans.len() || start > end {
        return None;
    }
    let (byte_start, byte_end) = trim_span(text, spans[start].start, spans[end - 1].end);
    if byte_start >= byte_end {
        return None;
    }
    match text::slice(text, byte_start, byte_end) {
        Some(slice) => Some(
            TextChunk { text: slice.to_owned(), tokens: end - start, byte_start, byte_end },
        ),
        None => None,
    }
}

/// Where the window of at most `max` tokens that starts at token `start` ends: at the last
/// natural break behind `start`, or at its full width.
pub open spec fn window_end(s: Seq<char>, spans: Seq<TokenSpan>, max: int, start: int) -> int {
    let b = natural_break(s, spans, start, start + max);
    if b > start {
        b
    } else {
        start + max
    }
}

/// The first token of the window behind one that ends at token `end`: `overlap` tokens back,
/// but always past `start`.
pub open spec fn next_start(start: int, end: int, overlap: int) -> int {
    if end - overlap > start + 1 {
        end - overlap
    } else {
        start + 1
    }
}

/// The windows, as token ranges, into which the tokens from `start` on are cut.
pub open spec fn windows(
    s: Seq<char>,
    spans: Seq<TokenSpan>,
    max: int,
    overlap: int,
    start: int,
) -> Seq<(int, int)>
    decreases
        (if start < spans.len() {
            spans.len() - start
        } else {
            0
        }),
{
    if start >= spans.len() {
        Seq::empty()
    } else if spans.len() - start <= max {
        seq![(start, spans.len() as int)]
    } else {
        let end = window_end(s, spans, max, start);
        seq![(start, end)] + windows(s, spans, max, overlap, next_start(start, end, overlap))
    }
}

/// The chunks of the given windows, in order, blank ones left out.
pub open spec fn emitted(s: Seq<char>, spans: Seq<TokenSpan>, cuts: Seq<(int, int)>) -> Seq<Chunk>
    decreases cuts.len(),
{
    if cuts.len() == 0 {
        Seq::empty()
    } else {
        let rest = emitted(s, spans, cuts.drop_first());
        match chunk_at(s, spans, cuts[0].0, cuts[0].1) {
            Some(c) => seq![c] + rest,
            None => rest,
        }
    }
}

/// The chunks of `s` under `opts`, before the cap on their number.
pub open spec fn all_chunks(s: Seq<char>, spans: Seq<TokenSpan>, opts: ChunkOptions) -> Seq<Chunk> {
    emitted(s, spans, windows(s, spans, opts.window(), opts.overlap_tokens as int, 0))
}

/// The chunks of `s` under `opts`.
pub open spec fn chunks(s: Seq<char>, spans: Seq<TokenSpan>, opts: ChunkOptions) -> Seq<Chunk> {
    let all = all_chunks(s, spans, opts);
    match opts.max_chunks {
        Some(n) => if n@ < all.len() {
            all.take(n@ as int)
        } else {
            all
        },
        None => all,
    }
}

/// What a list of chunks holds.
pub open spec fn views(list: Seq<TextChunk>) -> Seq<Chunk> {
    list.map_values(|c: TextChunk| c@)
}

/// What chunking comes to.
pub open spec fn chunks_outcome(r: Result<Vec<TextChunk>, Error>) -> Result<Seq<Chunk>, Seq<char>> {
    match r {
        Ok(list) => Ok(views(list@)),
        Err(e) => Err(e@),
    }
}

/// Split pre-tokenized `spans` into chunks of at most `opts.max_tokens` tokens (at least one),
/// preferring paragraph, then sentence, then white space boundaries, and stopping at
/// `opts.max_chunks` chunks.
pub fn chunk_spans(text: &str, spans: &[TokenSpan], opts: &ChunkOptions) -> (r: Vec<TextChunk>)
    ensures
        views(r@) == chunks(text@, spans@, *opts),
{
    let max: usize = if opts.max_tokens < 1 {
        1
    } else {
        opts.max_tokens
    };
    let mut out: Vec<TextChunk> = Vec::new();
    let mut start: usize = 0;
    let ghost s = text@;
    let ghost overlap = opts.overlap_tokens as int;
    while start < spans.len()
        invariant
            s == text@,
            max == opts.window(),
            overlap == opts.overlap_tokens,
            start <= spans@.len(),
            all_chunks(s, spans@, *opts) == views(out@) + emitted(
                s,
                spans@,
                windows(s, spans@, max as int, overlap, start as int),
            ),
            opts.max_chunks matches Some(n) ==> out@.len() <= n@,
        decreases spans@.len() - start,
    {
        if let Some(n) = opts.max_chunks {
            if out.len() >= n.get() {
                assert(all_chunks(s, spans@, *opts).take(n@ as int) =~= views(out@));
                return out;
            }
        }
        let ghost cuts = windows(s, spans@, max as int, overlap, start as int);
        let last = spans.len() - start <= max;
        let end: usize = if last {
            spans.len()
        } else {
            let found: usize = find_break(text, spans, start, start + max);
            if found > start {
                found
            } else {
                start + max
            }
        };
        let next: usize = if last {
            spans.len()
        } else {
            let back: usize = end.saturating_sub(opts.overlap_tokens);
            if back > start + 1 {
                back
            } else {
                start + 1
            }
        };
        let ghost rest = windows(s, spans@, max as int, overlap, next as int);
        proof {
            lemma_natural_break(s, spans@, start as int, start + max);
            assert(cuts =~= seq![(start as int, end as int)] + rest);
            assert(cuts.drop_first() =~= rest);
        }
        let ghost before = out@;
        if let Some(chunk) = make_chunk(text, spans, start, end) {
            out.push(chunk);
            assert(views(out@) =~= views(before).push(chunk@));
        }
        assert(all_chunks(s, spans@, *opts) =~= views(out@) + emitted(s, spans@, rest));
        start = next;
    }
    assert(all_chunks(s, spans@, *opts) =~= views(out@));
    out
}

/// A natural break lies inside the window it was looked for in.
pub proof fn lemma_natural_break(s: Seq<char>, spans: Seq<TokenSpan>, start: int, end: int)
    requires
        0 <= start <= end,
    ensures
        start <= natural_break(s, spans, start, end) <= end,
{
    assert forall|at: int| start <= start + #[trigger] covered(spans, start, end, at) <= end by {
        lemma_covered(spans, start, end, at);
    }
}

proof fn lemma_covered(spans: Seq<TokenSpan>, start: int, end: int, at: int)
    requires
        start <= end,
    ensures
        0 <= covered(spans, start, end, at) <= end - start,
    decreases end - start,
{
    if 0 <= start < end <= spans.len() && spans[start].end <= at {
        lemma_covered(spans, start + 1, end, at);
    }
}

// ---- rows ----------------------------------------------------------------------------------

/// A chunk that waits for its embedding.
#[derive(Debug)]
pub struct PendingChunk {
    /// Index of the source text in the batch's input slice.
    pub doc_ix: usize,
    /// Position of this chunk within its document.
    pub chunk_ix: usize,
    pub chunk: TextChunk,
}

/// One embedded chunk: a storage row.
#[derive(Debug)]
pub struct EmbeddedChunk {
    /// Index of the source text in the batch's input slice (0 for single-document calls).
    pub doc_ix: usize,
    /// Position of this chunk within its document.
    pub chunk_ix: usize,
    pub chunk: TextChunk,
    pub embedding: Vec<F32>,
}

/// Where a chunk stands in a batch, and what it holds.
pub struct Row {
    pub doc_ix: int,
    pub chunk_ix: int,
    pub chunk: Chunk,
}

impl View for PendingChunk {
    type V = Row;

    open spec fn view(&self) -> Row {
        Row {
            doc_ix: self.doc_ix as int,
            chunk_ix: self.chunk_ix as int,
            chunk: self.chunk@,
        }
    }
}

impl View for EmbeddedChunk {
    type V = (Row, Seq<F32>);

    open spec fn view(&self) -> (Row, Seq<F32>) {
        (
            Row {
                doc_ix: self.doc_ix as int,
                chunk_ix: self.chunk_ix as int,
                chunk: self.chunk@,
            },
            self.embedding@,
        )
    }
}

/// The chunks of document `doc_ix`, numbered.
pub open spec fn numbered(doc_ix: int, list: Seq<Chunk>) -> Seq<Row> {
    list.map(|i: int, chunk: Chunk| Row { doc_ix, chunk_ix: i, chunk })
}

/// The rows of a batch whose documents have the given chunks: one document after the other, each
/// document's chunks in order.
pub open spec fn rows(docs: Seq<Seq<Chunk>>) -> Seq<Row>
    decreases docs.len(),
{
    if docs.len() == 0 {
        Seq::empty()
    } else {
        rows(docs.drop_last()) + numbered(docs.len() - 1, docs.last())
    }
}

/// The rows of documents with the given chunks, or the failure that ended their chunking.
pub open spec fn rows_of(docs: Seq<Result<Seq<Chunk>, Seq<char>>>) -> Result<
    Seq<Row>,
    Seq<char>,
> {
    if docs.len() > 0 && docs.last() is Err {
        Err(docs.last()->Err_0)
    } else {
        Ok(rows(docs.map_values(|d: Result<Seq<Chunk>, Seq<char>>| d->Ok_0)))
    }
}

/// What a list of pending chunks holds.
pub open spec fn pending_rows(list: Seq<PendingChunk>) -> Seq<Row> {
    list.map_values(|p: PendingChunk| p@)
}

/// What planning a batch comes to.
pub open spec fn rows_outcome(r: Result<Vec<PendingChunk>, Error>) -> Result<Seq<Row>, Seq<char>> {
    match r {
        Ok(list) => Ok(pending_rows(list@)),
        Err(e) => Err(e@),
    }
}

/// Number the chunks of document `doc_ix` and append them to the batch.
pub fn append_chunks(pending: &mut Vec<PendingChunk>, doc_ix: usize, chunks: Vec<TextChunk>)
    ensures
        pending_rows(final(pending)@) == pending_rows(old(pending)@) + numbered(
            doc_ix as int,
            views(chunks@),
        ),
{
    let ghost before = pending_rows(pending@);
    let ghost all = numbered(doc_ix as int, views(chunks@));
    let mut i: usize = 0;
    while i < chunks.len()
        invariant
            all == numbered(doc_ix as int, views(chunks@)),
            0 <= i <= chunks@.len(),
            pending_rows(pending@) == before + all.take(i as int),
        decreases chunks@.len() - i,
    {
        let ghost current = pending@;
        let row = PendingChunk { doc_ix, chunk_ix: i, chunk: chunks[i].clone() };
        pending.push(row);
        proof {
            assert(pending_rows(pending@) =~= pending_rows(current).push(row@));
            assert(all.take(i + 1) =~= all.take(i as int).push(all[i as int]));
            assert(pending_rows(pending@) =~= before + all.take(i + 1));
        }
        i += 1;
    }
    assert(all.take(i as int) =~= all);
}

/// The texts to embed for the given rows, each behind `prefix`.
pub open spec fn prefixed(rows: Seq<Row>, prefix: Seq<char>) -> Seq<Seq<char>> {
    rows.map_values(|row: Row| prefix + row.chunk.text)
}

/// The texts to embed for the pending chunks, each behind `prefix`.
pub fn prefixed_inputs(pending: &Vec<PendingChunk>, prefix: &str) -> (r: Vec<String>)
    ensures
        text::texts(r@) == prefixed(pending_rows(pending@), prefix@),
{
    let ghost all = prefixed(pending_rows(pending@), prefix@);
    let mut out: Vec<String> = Vec::new();
    let mut i: usize = 0;
    while i < pending.len()
        invariant
            all == prefixed(pending_rows(pending@), prefix@),
            0 <= i <= pending@.len(),
            text::texts(out@) == all.take(i as int),
        decreases pending@.len() - i,
    {
        let ghost before = out@;
        let input = prefix.to_owned().concat(pending[i].chunk.text.as_str());
        out.push(input);
        proof {
            assert(text::texts(out@) =~= text::texts(before).push(input@));
            assert(all.take(i + 1) =~= all.take(i as int).push(all[i as int]));
        }
        i += 1;
    }
    assert(all.take(i as int) =~= all);
    out
}

/// What a list of vectors holds.
pub open spec fn vectors(list: Seq<Vec<F32>>) -> Seq<Seq<F32>> {
    list.map_values(|v: Vec<F32>| v@)
}

/// What a list of embedded chunks holds.
pub open spec fn embedded_rows(list: Seq<EmbeddedChunk>) -> Seq<(Row, Seq<F32>)> {
    list.map_values(|c: EmbeddedChunk| c@)
}

/// The rows with their vectors, as far as both go.
pub open spec fn paired(rows: Seq<Row>, vectors: Seq<Seq<F32>>) -> Seq<(Row, Seq<F32>)> {
    Seq::new(
        if rows.len() <= vectors.len() {
            rows.len()
        } else {
            vectors.len()
        },
        |i: int| (rows[i], vectors[i]),
    )
}

/// Give each pending chunk its embedding.
pub fn pair_rows(pending: Vec<PendingChunk>, embeddings: Vec<Vec<F32>>) -> (r: Vec<EmbeddedChunk>)
    ensures
        embedded_rows(r@) == paired(pending_rows(pending@), vectors(embeddings@)),
{
    let ghost all = paired(pending_rows(pending@), vectors(embeddings@));
    let mut out: Vec<EmbeddedChunk> = Vec::new();
    let mut i: usize = 0;
    while i < pending.len() && i < embeddings.len()
        invariant
            all == paired(pending_rows(pending@), vectors(embeddings@)),
            0 <= i <= all.len(),
            embedded_rows(out@) == all.take(i as int),
        decreases pending@.len() - i,
    {
        let ghost before = out@;
        let row = EmbeddedChunk {
            doc_ix: pending[i].doc_ix,
            chunk_ix: pending[i].chunk_ix,
            chunk: pending[i].chunk.clone(),
            embedding: copy_vector(&embeddings[i]),
        };
        out.push(row);
        proof {
            assert(embedded_rows(out@) =~= embedded_rows(before).push(row@));
            assert(all.take(i + 1) =~= all.take(i as int).push(all[i as int]));
        }
        i += 1;
    }
    assert(all.take(i as int) =~= all);
    out
}

fn copy_vector(v: &Vec<F32>) -> (r: Vec<F32>)
    ensures
        r@ == v@,
{
    let mut out: Vec<F32> = Vec::new();
    let mut i: usize = 0;
    while i < v.len()
        invariant
            0 <= i <= v@.len(),
            out@ == v@.take(i as int),
        decreases v@.len() - i,
    {
        out.push(v[i]);
        assert(v@.take(i + 1) =~= v@.take(i as int).push(v@[i as int]));
        i += 1;
    }
    assert(v@.take(i as int) =~= v@);
    out
}

} // verus!
