//! Chunking, step by step.

use patterns::chunk::{
    append_chunks, chunk_spans, content_window, fake_token_spans, find_break, make_chunk,
    pair_rows, prefixed_inputs, trim_span, ChunkOptions, TextChunk, TokenSpan,
};
use patterns::float::F32;
use patterns::num::NonZeroUsize;
use patterns::tokens::spans_of;

fn span(start: usize, end: usize) -> TokenSpan {
    TokenSpan { start, end }
}

fn options(max_tokens: usize, overlap_tokens: usize) -> ChunkOptions {
    ChunkOptions {
        max_tokens,
        overlap_tokens,
        min_tokens: 1,
        max_chunks: None,
    }
}

fn texts(chunks: &[TextChunk]) -> Vec<&str> {
    chunks.iter().map(|c| c.text.as_str()).collect()
}

#[test]
fn words_are_cut_at_any_white_space() {
    assert_eq!(
        fake_token_spans(" é\u{3000}b\tcc "),
        vec![span(1, 3), span(6, 7), span(8, 10)]
    );
    assert_eq!(fake_token_spans(""), vec![]);
    assert_eq!(fake_token_spans("\u{85}\u{2028}"), vec![]);
    assert_eq!(fake_token_spans("one"), vec![span(0, 3)]);
}

#[test]
fn empty_offsets_are_no_tokens() {
    assert_eq!(
        spans_of(&vec![(0, 0), (0, 2), (2, 2), (3, 5)]),
        vec![span(0, 2), span(3, 5)]
    );
}

#[test]
fn breaks_prefer_the_last_separator() {
    let text = "aa. bb! cc dd";
    let spans = fake_token_spans(text);
    // behind "! ", with two tokens before it
    assert_eq!(find_break(text, &spans, 0, 4), 2);
    // only ". " is inside the first two tokens
    assert_eq!(find_break(text, &spans, 0, 2), 1);
    // no separator: the last white space
    assert_eq!(find_break(text, &spans, 2, 4), 3);
    // nothing to break at
    assert_eq!(find_break(text, &spans, 3, 4), 4);
    // outside the tokens
    assert_eq!(find_break(text, &spans, 4, 9), 9);
    assert_eq!(find_break(text, &spans, 0, 9), 9);
}

#[test]
fn breaks_prefer_paragraphs_to_sentences() {
    let text = "a\n\nb. c d";
    let spans = [span(0, 1), span(3, 5), span(6, 7), span(8, 9)];
    // behind the blank line, though ". " ends later
    assert_eq!(find_break(text, &spans, 0, 3), 1);
    // the sentence, once the paragraph is over
    assert_eq!(find_break(text, &spans, 1, 4), 2);
    assert_eq!(
        texts(&chunk_spans(text, &spans, &options(3, 0))),
        ["a", "b. c d"]
    );
    // of several paragraphs the last
    let text = "a\n\nb\n\nc! d e";
    assert_eq!(find_break(text, &fake_token_spans(text), 0, 4), 2);
}

#[test]
fn chunks_share_at_most_the_overlap() {
    let text = "a b c d e f g h i j";
    let spans = fake_token_spans(text);
    for overlap in 0..4 {
        let chunks = chunk_spans(text, &spans, &options(4, overlap));
        for pair in chunks.windows(2) {
            let shared = spans
                .iter()
                .filter(|s| pair[1].byte_start <= s.start && s.end <= pair[0].byte_end)
                .count();
            assert!(shared <= overlap, "{shared} tokens in {pair:?}");
        }
    }
}

#[test]
fn breaks_count_no_token_of_a_reversed_range() {
    let text = "a b c";
    let spans = fake_token_spans(text);
    assert_eq!(find_break(text, &spans, 1, 0), 0, "no such slice");
    assert_eq!(find_break(text, &spans, 0, 0), 0, "nothing to break at");
}

#[test]
fn spans_are_trimmed() {
    assert_eq!(trim_span("  a b  ", 0, 7), (2, 5));
    assert_eq!(trim_span("   ", 1, 3), (1, 1));
    assert_eq!(trim_span("é x", 1, 3), (1, 1), "inside a character");
    assert_eq!(trim_span("ab", 2, 1), (2, 2), "reversed");
    assert_eq!(trim_span("\u{a0}é\u{a0}", 0, 6), (2, 4));
}

#[test]
fn chunks_are_made_of_tokens() {
    let text = " a  bb ";
    let spans = fake_token_spans(text);
    let chunk = make_chunk(text, &spans, 0, 2).expect("chunk");
    assert_eq!(chunk.text, "a  bb");
    assert_eq!((chunk.tokens, chunk.byte_start, chunk.byte_end), (2, 1, 6));
    assert_eq!(make_chunk(text, &spans, 2, 2), None);
    assert_eq!(make_chunk(text, &spans, 0, 0), None);
    assert_eq!(make_chunk(text, &spans, 0, 3), None);
    assert_eq!(make_chunk(text, &spans, 1, 0), None, "reversed");
    let more = fake_token_spans("a b c");
    assert_eq!(make_chunk("a b c", &more, 2, 1), None, "reversed");
    assert_eq!(make_chunk("   ", &[span(0, 3)], 0, 1), None, "blank");
}

#[test]
fn chunks_overlap_by_the_given_tokens() {
    let chunks = chunk_spans(
        "a b c d e f g",
        &fake_token_spans("a b c d e f g"),
        &options(4, 2),
    );
    // a window of four tokens breaks at its last white space, before the fourth
    assert_eq!(texts(&chunks), vec!["a b c", "b c d", "c d e", "d e f g"]);
}

#[test]
fn windows_never_stall() {
    let text = "a b c d";
    let chunks = chunk_spans(text, &fake_token_spans(text), &options(2, 9));
    assert_eq!(texts(&chunks), vec!["a", "b", "c d"]);
    let zero = chunk_spans(text, &fake_token_spans(text), &options(0, 0));
    assert_eq!(texts(&zero), vec!["a", "b", "c", "d"], "at least one token");
}

#[test]
fn chunks_start_one_behind_the_other() {
    // tokens that hold the blank before their word
    let text = "a  b c  d e";
    let spans = [span(0, 1), span(1, 4), span(4, 6), span(6, 9), span(9, 11)];
    for max in 1..6 {
        for overlap in 0..6 {
            let chunks = chunk_spans(text, &spans, &options(max, overlap));
            for pair in chunks.windows(2) {
                assert!(pair[0].byte_start < pair[1].byte_start, "{pair:?}");
            }
        }
    }
    let chunks = chunk_spans(text, &spans, &options(1, 0));
    assert_eq!(texts(&chunks), vec!["a", "b", "c", "d", "e"]);
}

#[test]
fn chunks_without_overlap_share_nothing() {
    let text = "one two. three\n\nfour five six! seven eight";
    for max in 1..9 {
        let chunks = chunk_spans(text, &fake_token_spans(text), &options(max, 0));
        for pair in chunks.windows(2) {
            assert!(pair[0].byte_end <= pair[1].byte_start);
        }
        let kept: usize = chunks.iter().map(|c| c.tokens).sum();
        assert_eq!(kept, 8, "every word once");
    }
}

#[test]
fn blank_windows_give_no_chunk() {
    let text = "a   b";
    let spans = [span(0, 1), span(1, 4), span(4, 5)];
    let chunks = chunk_spans(text, &spans, &options(1, 0));
    assert_eq!(texts(&chunks), vec!["a", "b"]);
    assert!(chunk_spans("", &[], &options(4, 0)).is_empty());
}

#[test]
fn the_cap_counts_chunks_and_not_windows() {
    let text = "a   b c";
    let spans = [span(0, 1), span(1, 4), span(4, 5), span(6, 7)];
    let capped = chunk_spans(
        text,
        &spans,
        &ChunkOptions {
            max_chunks: NonZeroUsize::new(2),
            ..options(1, 0)
        },
    );
    assert_eq!(texts(&capped), vec!["a", "b"]);
    assert!(NonZeroUsize::new(0).is_none());
    assert_eq!(NonZeroUsize::new(2).expect("not zero").get(), 2);
}

#[test]
fn windows_leave_room_for_special_tokens() {
    assert_eq!(content_window(512), 510);
    assert_eq!(content_window(3), 1);
    assert_eq!(content_window(2), 1);
    assert_eq!(content_window(0), 1);
}

#[test]
fn rows_are_numbered_and_paired() {
    let text = "a b c";
    let spans = fake_token_spans(text);
    let mut pending = Vec::new();
    append_chunks(&mut pending, 0, chunk_spans(text, &spans, &options(1, 0)));
    append_chunks(&mut pending, 1, Vec::new());
    append_chunks(&mut pending, 2, chunk_spans(text, &spans, &options(3, 0)));
    let at: Vec<(usize, usize)> = pending.iter().map(|p| (p.doc_ix, p.chunk_ix)).collect();
    assert_eq!(at, vec![(0, 0), (0, 1), (0, 2), (2, 0)]);
    assert_eq!(
        prefixed_inputs(&pending, "d: "),
        vec!["d: a", "d: b", "d: c", "d: a b c"]
    );
    let vectors: Vec<Vec<F32>> = (0..3).map(|bits| vec![F32::from_bits(bits)]).collect();
    let rows = pair_rows(pending, vectors);
    assert_eq!(rows.len(), 3, "as far as both go");
    assert_eq!(rows[2].chunk.text, "c");
    assert_eq!(rows[2].embedding, vec![F32::from_bits(2)]);
}
