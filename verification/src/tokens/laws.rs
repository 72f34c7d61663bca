//! What holds of the tokens of a text.

use crate::chunk::TokenSpan;
use crate::json::Json;
use crate::tokens;
use crate::tokens::{parts, pattern};
use vstd::prelude::*;

verus! {

broadcast use {vstd::seq::group_seq_axioms, vstd::map::group_map_axioms};

/// The spans are those of the tokens that are not empty, all of them and in their order; `picks` says
/// which token each of them is.
pub proof fn spans_are_the_tokens_that_are_not_empty(offsets: Seq<(usize, usize)>) -> (picks: Seq<int>)
    ensures
        ({
            let spans = tokens::spans(offsets);
            &&& picks.len() == spans.len()
            &&& forall|i: int, j: int|
                0 <= i < j < picks.len() ==> #[trigger] picks[i] < #[trigger] picks[j]
            &&& forall|i: int|
                0 <= i < picks.len() ==> 0 <= #[trigger] picks[i] < offsets.len()
                    && spans[i].start == offsets[picks[i]].0 && spans[i].end == offsets[picks[i]].1
            &&& forall|k: int| 0 <= k < offsets.len() ==> (picks.contains(k) <==> (
            #[trigger] offsets[k]).0 != offsets[k].1)
        }),
    decreases offsets.len(),
{
    if offsets.len() == 0 {
        Seq::empty()
    } else {
        let before = spans_are_the_tokens_that_are_not_empty(offsets.drop_last());
        let last = offsets.len() - 1;
        let rest = offsets.drop_last();
        let picks = if offsets[last].0 != offsets[last].1 {
            before.push(last)
        } else {
            before
        };
        assert forall|k: int| 0 <= k < offsets.len() implies (picks.contains(k) <==> (
        #[trigger] offsets[k]).0 != offsets[k].1) by {
            if k < last {
                assert(rest[k] == offsets[k]);
                assert(before.contains(k) <==> rest[k].0 != rest[k].1);
                if before.contains(k) {
                    let i = choose|i: int| 0 <= i < before.len() && before[i] == k;
                    assert(picks[i] == k);
                }
                if picks.contains(k) {
                    let i = choose|i: int| 0 <= i < picks.len() && picks[i] == k;
                    assert(before[i] == k);
                }
            } else {
                if offsets[k].0 != offsets[k].1 {
                    assert(picks[picks.len() - 1] == k);
                }
                if picks.contains(k) {
                    let i = choose|i: int| 0 <= i < picks.len() && picks[i] == k;
                    if i < before.len() {
                        assert(before[i] < rest.len());
                    }
                }
            }
        }
        picks
    }
}

/// A count is the number of tokens that a text is encoded to.
pub proof fn counts_are_numbers_of_tokens(
    tokenizer: tokenizers::Tokenizer,
    text: Seq<char>,
    n: int,
) -> (encoding: (Seq<u32>, Seq<(usize, usize)>))
    requires
        tokens::counted_by(tokenizer, text, Ok(n)),
    ensures
        tokens::encodes(tokenizer, text, Ok(encoding)),
        n == encoding.0.len(),
{
    let outcome = choose|outcome: tokens::Encoded| #[trigger]
        tokens::may_encode(tokenizer, text, outcome) && Ok::<int, Seq<char>>(n)
            == tokens::count_in(outcome);
    outcome->Ok_0
}

/// Spans are those of the tokens that a text is encoded to.
pub proof fn spans_are_those_of_an_encoding(
    tokenizer: tokenizers::Tokenizer,
    text: Seq<char>,
    spans: Seq<TokenSpan>,
) -> (encoding: (Seq<u32>, Seq<(usize, usize)>))
    requires
        tokens::spanned_by(tokenizer, text, Ok(spans)),
    ensures
        tokens::encodes(tokenizer, text, Ok(encoding)),
        spans == tokens::spans(encoding.1),
{
    let outcome = choose|outcome: tokens::Encoded| #[trigger]
        tokens::may_encode(tokenizer, text, outcome) && Ok::<Seq<TokenSpan>, Seq<char>>(spans)
            == tokens::spans_in(outcome);
    outcome->Ok_0
}

/// A text that is short enough fails only as its encoding does, and the whole cause is told.
pub proof fn failures_are_those_of_the_encoding(
    tokenizer: tokenizers::Tokenizer,
    text: Seq<char>,
    told: Seq<char>,
) -> (cause: Seq<char>)
    requires
        tokens::counted_by(tokenizer, text, Err(told)),
        text.len() <= 1_000_000,
    ensures
        told == "tokenize: "@ + cause,
        tokens::encodes(tokenizer, text, Err(cause)),
{
    let outcome = choose|outcome: tokens::Encoded| #[trigger]
        tokens::may_encode(tokenizer, text, outcome) && Err::<int, Seq<char>>(told)
            == tokens::count_in(outcome);
    outcome->Err_0
}

// ---- tokenizers that can be trusted --------------------------------------------------------

/// Whether `j` is a step of the kind `kind`.
pub open spec fn is_kind(j: Json, kind: Seq<char>) -> bool {
    j matches Json::Object(m) && m.dom().contains("type"@) && m["type"@] == Json::Text(kind)
}

/// Whether `j` is a step that is no chain, and of none of the kinds that may not work on every text.
pub open spec fn is_plain(j: Json) -> bool {
    &&& j is Object
    &&& !is_kind(j, "Sequence"@)
    &&& !is_kind(j, "Prepend"@)
    &&& !is_kind(j, "Replace"@)
    &&& !is_kind(j, "Precompiled"@)
    &&& !is_kind(j, "FixedLength"@)
    &&& !is_kind(j, "Split"@)
    &&& !is_kind(j, "TemplateProcessing"@)
}

/// Whether `j` is nothing, a plain step, or a chain of plain steps, listed under `key`.
pub open spec fn is_plain_chain(j: Json, key: Seq<char>) -> bool {
    ||| j is Null
    ||| is_plain(j)
    ||| is_kind(j, "Sequence"@) && (j->Object_0).dom().contains(key) && ((j->Object_0)[key] matches
        Json::Array(list) && all_plain(list))
}

/// Whether all steps of a list are plain.
pub open spec fn all_plain(list: Seq<Json>) -> bool {
    forall|k: int| 0 <= k < list.len() ==> is_plain(#[trigger] list[k])
}

proof fn lemma_kind(j: Json, kind: Seq<char>)
    ensures
        parts::kind(j) == Some(kind) <==> is_kind(j, kind),
{
}

proof fn lemma_plain_steps(list: Seq<Json>, key: Seq<char>, fuel: nat)
    requires
        all_plain(list),
    ensures
        parts::steps_of(list, key, fuel) == Some(list),
    decreases list.len(),
{
    if list.len() == 0 {
        assert(list =~= Seq::empty());
    } else {
        let before = list.drop_last();
        let last = list.last();
        assert(is_plain(list[list.len() - 1]));
        assert forall|k: int| 0 <= k < before.len() implies is_plain(#[trigger] before[k]) by {
            assert(is_plain(list[k]));
        }
        lemma_plain_steps(before, key, fuel);
        lemma_kind(last, "Sequence"@);
        assert(parts::steps(last, key, fuel) == Some(seq![last]));
        assert(before + seq![last] =~= list);
    }
}

proof fn lemma_plain_chain(j: Json, key: Seq<char>) -> (list: Seq<Json>)
    requires
        is_plain_chain(j, key),
    ensures
        parts::steps(j, key, parts::MAX_NESTING as nat) == Some(list),
        all_plain(list),
{
    let fuel = parts::MAX_NESTING as nat;
    lemma_kind(j, "Sequence"@);
    if j is Null {
        Seq::empty()
    } else if is_plain(j) {
        let list = seq![j];
        assert(list[0] == j);
        list
    } else {
        let list = (j->Object_0)[key]->Array_0;
        lemma_plain_steps(list, key, (fuel - 1) as nat);
        list
    }
}

/// Whether no added token takes the white space behind it.
pub open spec fn none_takes_behind(tokens: Map<Seq<char>, Json>) -> bool {
    forall|k: Seq<char>| #[trigger]
        tokens.dom().contains(k) ==> !(tokens[k] matches Json::Object(m) && m.dom().contains(
            "rstrip"@,
        ) && m["rstrip"@] == Json::Bool(true))
}

/// Whether a piece of a template stands for the first text, or for none.
pub open spec fn names_no_second(piece: Json) -> bool {
    piece matches Json::Object(m) && (!m.dom().contains("Sequence"@) || (m["Sequence"@] matches
        Json::Object(x) && x.dom().contains("id"@) && x["id"@] == Json::Text("A"@)))
}

/// Whether `j` is a template that puts tokens around one text.
pub open spec fn is_template_of_one(j: Json) -> bool {
    is_kind(j, "TemplateProcessing"@) && (j->Object_0).dom().contains("single"@) && (
    (j->Object_0)["single"@] matches Json::Array(pieces) && forall|k: int|
        0 <= k < pieces.len() ==> names_no_second(#[trigger] pieces[k]))
}

proof fn lemma_kinds()
    ensures
        "TemplateProcessing"@ != "Sequence"@,
{
    reveal_strlit("TemplateProcessing");
    reveal_strlit("Sequence");
    assert("TemplateProcessing"@.len() == 18 && "Sequence"@.len() == 8);
}

/// A tokenizer of plain steps, which may put tokens around a text by a template, whose added tokens take no white space behind them, which does not pad
/// and draws nothing at random, is trusted; and it encodes texts of any length.
pub proof fn plain_tokenizers_are_trusted(
    tokenizer: tokenizers::Tokenizer,
    added: Map<Seq<char>, Json>,
    normalizer: Json,
    pre_tokenizer: Json,
    post_processor: Json,
    text: Seq<char>,
    outcome: tokens::Encoded,
)
    requires
        tokens::settings(tokenizer) == Ok::<Json, Seq<char>>(
            Json::Array(
                seq![
                    Json::Object(added),
                    normalizer,
                    pre_tokenizer,
                    post_processor,
                    Json::Null,
                    Json::Null,
                ],
            ),
        ),
        none_takes_behind(added),
        is_plain_chain(normalizer, "normalizers"@),
        is_plain_chain(pre_tokenizer, "pretokenizers"@),
        is_plain_chain(post_processor, "processors"@) || is_template_of_one(post_processor),
    ensures
        tokens::refusal(tokenizer) is None,
        tokens::window(tokenizer) is None ==> tokens::encodes_all(tokenizer),
        tokens::may_encode(tokenizer, text, outcome) <==> tokens::encodes(tokenizer, text, outcome),
{
    let first = lemma_plain_chain(normalizer, "normalizers"@);
    let second = lemma_plain_chain(pre_tokenizer, "pretokenizers"@);
    let third = if is_template_of_one(post_processor) {
        seq![post_processor]
    } else {
        lemma_plain_chain(post_processor, "processors"@)
    };
    assert(parts::steps(post_processor, "processors"@, parts::MAX_NESTING as nat) == Some(third)) by {
        lemma_kind(post_processor, "Sequence"@);
        lemma_kinds();
    }
    assert forall|j: Json| #[trigger] is_plain(j) implies !parts::watched(j)
        && !parts::is_template(j) && forall|g: nat|
        parts::normalizes(j, g) && #[trigger] parts::splits(j, g) by {
        lemma_kind(j, "Prepend"@);
        lemma_kind(j, "Replace"@);
        lemma_kind(j, "Precompiled"@);
        lemma_kind(j, "FixedLength"@);
        lemma_kind(j, "Split"@);
        lemma_kind(j, "TemplateProcessing"@);
    }
    assert(parts::all_normalize(first)) by {
        assert forall|k: int| 0 <= k < first.len() implies parts::normalizes(
            #[trigger] first[k],
            parts::growth(first, k),
        ) by {
            assert(is_plain(first[k]));
            assert(parts::splits(first[k], parts::growth(first, k)));
        }
    }
    let start = parts::total_growth(normalizer);
    assert(parts::all_split(second, start)) by {
        assert forall|k: int| 0 <= k < second.len() implies parts::splits(
            #[trigger] second[k],
            parts::spread(second, start, k),
        ) by {
            assert(is_plain(second[k]));
        }
    }
    assert(parts::all_process(third)) by {
        if is_template_of_one(post_processor) {
            let pieces = (post_processor->Object_0)["single"@]->Array_0;
            assert forall|k: int| 0 <= k < pieces.len() implies parts::names_first(
                #[trigger] pieces[k],
            ) by {
                assert(names_no_second(pieces[k]));
            }
        } else {
            assert forall|k: int| 0 <= k < third.len() implies !parts::is_template(
                #[trigger] third[k],
            ) by {
                assert(is_plain(third[k]));
            }
        }
    }
    assert(!parts::any_watched(first) && !parts::any_watched(second)) by {
        assert(forall|k: int| 0 <= k < first.len() ==> is_plain(#[trigger] first[k]));
        assert(forall|k: int| 0 <= k < second.len() ==> is_plain(#[trigger] second[k]));
    }
    assert(!parts::some_strip_right(added));
}

/// A tokenizer whose settings cannot be read is not trusted, and the whole cause is told.
pub proof fn unreadable_tokenizers_are_refused(tokenizer: tokenizers::Tokenizer, cause: Seq<char>)
    requires
        tokens::settings(tokenizer) == Err::<Json, Seq<char>>(cause),
    ensures
        tokens::refusal(tokenizer) == Some("read the tokenizer's settings: "@ + cause),
{
}

/// Whether an object says something else than a text under `key`, an empty one, or nothing.
pub open spec fn gives_no_text(m: Map<Seq<char>, Json>, key: Seq<char>) -> bool {
    !(m.dom().contains(key) && (m[key] matches Json::Text(t) && t.len() > 0))
}

/// Whether `j` is a step that works on no text, or not on every text: a prefix of nothing, pieces of
/// no length, or a template that names a second text.
pub open spec fn may_fail(j: Json) -> bool {
    j matches Json::Object(m) && {
        ||| is_kind(j, "Prepend"@) && gives_no_text(m, "prepend"@)
        ||| is_kind(j, "FixedLength"@) && !(m.dom().contains("length"@) && (m["length"@] matches
            Json::Unsigned(n) && n >= 1))
        ||| is_kind(j, "TemplateProcessing"@) && !(m.dom().contains("single"@) && (m["single"@]
            matches Json::Array(pieces) && forall|k: int|
            0 <= k < pieces.len() ==> parts::names_first(#[trigger] pieces[k])))
    }
}

/// A tokenizer is not trusted if its normalizer puts nothing in front of a text, its pre-tokenizer cuts
/// pieces of no length, its post-processor names a second text, or its model draws at random.
pub proof fn tokenizers_that_may_fail_are_refused(
    tokenizer: tokenizers::Tokenizer,
    settings: Seq<Json>,
)
    requires
        tokens::settings(tokenizer) == Ok::<Json, Seq<char>>(Json::Array(settings)),
        ({
            ||| settings.len() != 6
            ||| is_kind(settings[1], "Prepend"@) && may_fail(settings[1])
            ||| is_kind(settings[2], "FixedLength"@) && may_fail(settings[2])
            ||| is_kind(settings[3], "TemplateProcessing"@) && may_fail(settings[3])
            ||| settings[5] !is Null && settings[5] != Json::Unsigned(0)
        }),
    ensures
        tokens::refusal(tokenizer) is Some,
{
    reveal_strlit("Prepend");
    reveal_strlit("FixedLength");
    reveal_strlit("TemplateProcessing");
    reveal_strlit("Sequence");
    let fuel = parts::MAX_NESTING as nat;
    assert("Prepend"@.len() == 7 && "FixedLength"@.len() == 11 && "Sequence"@.len() == 8
        && "TemplateProcessing"@.len() == 18);
    if settings.len() == 6 {
        let (a, b, c) = (settings[1], settings[2], settings[3]);
        if is_kind(a, "Prepend"@) && may_fail(a) {
            lemma_kind(a, "Prepend"@);
            let list = parts::steps(a, "normalizers"@, fuel)->0;
            assert(list =~= seq![a]);
            assert(!parts::normalizes(list[0], parts::growth(list, 0)));
        }
        if is_kind(b, "FixedLength"@) && may_fail(b) {
            lemma_kind(b, "FixedLength"@);
            let list = parts::steps(b, "pretokenizers"@, fuel)->0;
            assert(list =~= seq![b]);
            let start = parts::total_growth(a);
            assert(!parts::splits(list[0], parts::spread(list, start, 0)));
        }
        if is_kind(c, "TemplateProcessing"@) && may_fail(c) {
            lemma_kind(c, "TemplateProcessing"@);
            let list = parts::steps(c, "processors"@, fuel)->0;
            assert(list =~= seq![c]);
            assert(!parts::processes(list[0]));
        }
    }
}

// ---- patterns ------------------------------------------------------------------------------

/// Whether a pattern is made of letters, digits and spaces.
pub open spec fn is_literal(p: Seq<char>) -> bool {
    forall|k: int|
        0 <= k < p.len() ==> ('a' <= #[trigger] p[k] <= 'z') || ('A' <= p[k] <= 'Z') || ('0' <= p[k]
            <= '9') || p[k] == ' '
}

/// A pattern of letters, digits and spaces can be searched for without going back, and what is found is
/// not empty if the pattern is not.
pub proof fn literal_patterns_are_searched_for(p: Seq<char>)
    requires
        is_literal(p),
    ensures
        pattern::settles(p),
        pattern::takes(p) <==> p.len() > 0,
        pattern::load(p) == 0,
{
    lemma_literal(p, 0, pattern::begun());
}

proof fn lemma_literal(p: Seq<char>, i: int, s: pattern::Scan)
    requires
        is_literal(p),
        0 <= i <= p.len(),
        s == (pattern::Scan { last: s.last, takes: i > 0, ..pattern::begun() }),
    ensures
        pattern::scanned(p, i, s) matches Some(t) && t == (pattern::Scan {
            last: t.last,
            takes: p.len() > 0,
            ..pattern::begun()
        }),
    decreases p.len() - i,
{
    if i < p.len() {
        let c = p[i];
        assert(('a' <= c <= 'z') || ('A' <= c <= 'Z') || ('0' <= c <= '9') || c == ' ');
        assert(pattern::item_at(p, i) == (pattern::Item::Atom, i + 1));
        let next = pattern::item_at(p, i + 1).0;
        if i + 1 < p.len() {
            let d = p[i + 1];
            assert(('a' <= d <= 'z') || ('A' <= d <= 'Z') || ('0' <= d <= '9') || d == ' ');
        }
        assert(next == pattern::Item::Atom);
        let t = pattern::Scan { last: pattern::Last::Atom, takes: true, ..s };
        assert(pattern::step(s, pattern::Item::Atom, next) == Some(t));
        lemma_literal(p, i + 1, t);
    }
}

} // verus!
