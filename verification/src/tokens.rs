//! Tokenizing, by way of `tokenizers`.

pub mod charsmap;
pub mod laws;
pub mod parts;
pub mod pattern;

use crate::chunk::TokenSpan;
use crate::error::{self, Error};
use crate::json::{self, Json};
use vstd::prelude::*;

verus! {

broadcast use vstd::seq::group_seq_axioms;

#[verifier::external_type_specification]
#[verifier::external_body]
pub struct ExTokenizer(tokenizers::Tokenizer);

/// What encoding a text came to: the ids of its tokens and their byte offsets, or the text of
/// the error.
pub type Encoded = Result<(Seq<u32>, Seq<(usize, usize)>), Seq<char>>;

/// Whether `tokenizers::Tokenizer::encode`, without special tokens, may come to `outcome` on
/// `text`. A tokenizer with dropout can come to several outcomes on one text.
pub uninterp spec fn encodes(
    tokenizer: tokenizers::Tokenizer,
    text: Seq<char>,
    outcome: Result<(Seq<u32>, Seq<(usize, usize)>), Seq<char>>,
) -> bool;

/// The length to which a tokenizer truncates what it encodes, if it does.
pub uninterp spec fn window(tokenizer: tokenizers::Tokenizer) -> Option<usize>;

/// The tokenizer that is like the given one, but does not truncate.
pub uninterp spec fn untruncated(tokenizer: tokenizers::Tokenizer) -> tokenizers::Tokenizer;

/// The settings of a tokenizer's parts, as JSON: a list of its added tokens by id, its normalizer,
/// its pre-tokenizer, its post-processor, its padding, and the bits of the number by which its
/// model draws at random.
pub uninterp spec fn settings(tokenizer: tokenizers::Tokenizer) -> Result<Json, Seq<char>>;

/// What reading settings comes to.
pub open spec fn settings_outcome(r: Result<serde_json::Value, String>) -> Result<Json, Seq<char>> {
    match r {
        Ok(value) => Ok(json::json(value)),
        Err(message) => Err(message@),
    }
}

/// Why a tokenizer is not trusted to encode every text, if it is not.
pub open spec fn refusal(tokenizer: tokenizers::Tokenizer) -> Option<Seq<char>> {
    match settings(tokenizer) {
        Err(message) => Some("read the tokenizer's settings: "@ + message),
        Ok(settings) => match parts::flaw(settings) {
            Some(part) => Some("the tokenizer's "@ + part + " may fail on a text"@),
            None => None,
        },
    }
}

/// Whether a tokenizer encodes texts in full: it does not truncate, and no part of it may fail.
pub open spec fn encodes_all(tokenizer: tokenizers::Tokenizer) -> bool {
    window(tokenizer) is None && refusal(tokenizer) is None
}

/// Whether a text is not too long for the patterns that a tokenizer searches for.
pub open spec fn fits(tokenizer: tokenizers::Tokenizer, text: Seq<char>) -> bool {
    text.len() <= parts::MAX_TEXT || match settings(tokenizer) {
        Ok(settings) => !parts::limited(settings),
        Err(_) => false,
    }
}

/// What is said of a text that does not fit.
pub const TOO_LONG: &'static str = "the text is too long for the tokenizer's patterns";

/// Whether encoding a text may come to `outcome`.
pub open spec fn may_encode(
    tokenizer: tokenizers::Tokenizer,
    text: Seq<char>,
    outcome: Encoded,
) -> bool {
    if fits(tokenizer, text) {
        encodes(tokenizer, text, outcome)
    } else {
        outcome == Err::<(Seq<u32>, Seq<(usize, usize)>), Seq<char>>(TOO_LONG@)
    }
}

/// What the pieces of an encoding hold.
pub open spec fn encoded(r: Result<(Vec<u32>, Vec<(usize, usize)>), String>) -> Encoded {
    match r {
        Ok((ids, offsets)) => Ok((ids@, offsets@)),
        Err(message) => Err(message@),
    }
}

/// `tokenizers::Tokenizer::encode` without special tokens, with `Encoding::get_ids` and
/// `Encoding::get_offsets` of what it gives. All that is claimed is that the outcome is one that
/// [`encodes`] allows for this tokenizer and text: how a tokenizer cuts a text is its own affair.
///
/// The tokenizer must be one that [`encodes_all`]. On others `encode` can panic: with a truncation
/// whose stride is not below its length; a template that names a second text, or two templates in a
/// chain; pieces of length zero; padding beyond what can be allocated; added tokens that take each
/// other's white space; a normalizer that inserts before the first character without replacing any,
/// or whose compiled table leads out of itself; a pattern on which the search engine gives up; or a
/// model that draws tokens by weights that add up to nothing. And the text must be one that
/// [`fits`]: in a longer one the search engine can go back ten million times from one place, at
/// which it gives up too.
#[verifier::external_body]
pub(crate) fn encode(tokenizer: &tokenizers::Tokenizer, text: &str) -> (r: Result<
    (Vec<u32>, Vec<(usize, usize)>),
    String,
>)
    requires
        encodes_all(*tokenizer),
        fits(*tokenizer, text@),
    ensures
        encodes(*tokenizer, text@, encoded(r)),
{
    match tokenizer.encode(text, false) {
        Ok(encoding) => Ok((encoding.get_ids().to_vec(), encoding.get_offsets().to_vec())),
        Err(error) => Err(error.to_string()),
    }
}

/// `tokenizers::Tokenizer::get_truncation`: the length of the truncation that is configured, named
/// [`window`].
#[verifier::external_body]
pub(crate) fn truncation_length(tokenizer: &tokenizers::Tokenizer) -> (r: Option<usize>)
    ensures
        r == window(*tokenizer),
{
    tokenizer.get_truncation().map(|truncation| truncation.max_length)
}

/// `tokenizers::Tokenizer::with_truncation` with nothing to truncate to, on a copy: the tokenizer
/// named [`untruncated`], which has no truncation configured. Only a truncation that is set can be
/// refused, so this cannot fail.
#[verifier::external_body]
pub(crate) fn disable_truncation(tokenizer: &tokenizers::Tokenizer) -> (r: Result<
    tokenizers::Tokenizer,
    String,
>)
    ensures
        r is Ok,
        r->Ok_0 == untruncated(*tokenizer),
        window(r->Ok_0) is None,
{
    let mut copy = tokenizer.clone();
    copy.with_truncation(None).map(|_| ()).map_err(|error| error.to_string())?;
    Ok(copy)
}

/// `serde_json::to_value` of what `tokenizers::Tokenizer::get_added_tokens_decoder`,
/// `get_normalizer`, `get_pre_tokenizer`, `get_post_processor` and `get_padding` give, and of the
/// bits of a Unigram model's `alpha`: named [`settings`].
#[verifier::external_body]
pub(crate) fn read_settings(tokenizer: &tokenizers::Tokenizer) -> (r: Result<
    serde_json::Value,
    String,
>)
    ensures
        settings_outcome(r) == settings(*tokenizer),
{
    let added = tokenizer.get_added_tokens_decoder();
    let drawn = match tokenizer.get_model() {
        tokenizers::ModelWrapper::Unigram(model) => model.alpha.map(|alpha| alpha.to_bits()),
        _ => None,
    };
    serde_json::to_value((
        added.into_iter().collect::<std::collections::BTreeMap<_, _>>(),
        tokenizer.get_normalizer(),
        tokenizer.get_pre_tokenizer(),
        tokenizer.get_post_processor(),
        tokenizer.get_padding(),
        drawn,
    )).map_err(|error| error.to_string())
}

/// Whether a tokenizer can be trusted to encode every text, by the settings of its parts.
pub fn check(tokenizer: &tokenizers::Tokenizer) -> (r: Result<(), Error>)
    ensures
        match refusal(*tokenizer) {
            Some(m) => r matches Err(e) && e@ == m,
            None => r is Ok,
        },
{
    match read_settings(tokenizer) {
        Err(message) => Err(
            Error::new("read the tokenizer's settings: ".to_owned().concat(message.as_str())),
        ),
        Ok(settings) => match parts::find_flaw(&settings) {
            Some(part) => Err(
                Error::new(
                    "the tokenizer's ".to_owned().concat(part).concat(" may fail on a text"),
                ),
            ),
            None => Ok(()),
        },
    }
}

/// A copy of the tokenizer that encodes every text in full, if it can be trusted to.
pub fn counting(tokenizer: &tokenizers::Tokenizer) -> (r: Result<tokenizers::Tokenizer, Error>)
    ensures
        match refusal(untruncated(*tokenizer)) {
            Some(m) => r matches Err(e) && e@ == m,
            None => r matches Ok(copy) && copy == untruncated(*tokenizer) && encodes_all(copy),
        },
{
    match without_truncation(tokenizer) {
        Ok(copy) => match check(&copy) {
            Ok(_) => Ok(copy),
            Err(e) => Err(e),
        },
        Err(e) => Err(e),
    }
}

fn has_room(tokenizer: &tokenizers::Tokenizer, text: &str) -> (r: bool)
    ensures
        r == fits(*tokenizer, text@),
{
    text.unicode_len() <= parts::MAX_TEXT || match read_settings(tokenizer) {
        Ok(settings) => !parts::is_limited(&settings),
        Err(_) => false,
    }
}

fn try_encode(tokenizer: &tokenizers::Tokenizer, text: &str) -> (r: Result<
    (Vec<u32>, Vec<(usize, usize)>),
    String,
>)
    requires
        encodes_all(*tokenizer),
    ensures
        may_encode(*tokenizer, text@, encoded(r)),
{
    if has_room(tokenizer, text) {
        encode(tokenizer, text)
    } else {
        Err(TOO_LONG.to_owned())
    }
}

/// Context window of a model by its tokenizer: the length to which the tokenizer truncates, if it
/// does.
pub fn context_window(tokenizer: &tokenizers::Tokenizer) -> (r: Option<usize>)
    ensures
        r == window(*tokenizer),
{
    truncation_length(tokenizer)
}

/// A copy of the tokenizer that does not truncate, so that counts are never capped. The one given
/// is left as it is: a model keeps truncating what it embeds.
pub fn without_truncation(tokenizer: &tokenizers::Tokenizer) -> (r: Result<
    tokenizers::Tokenizer,
    Error,
>)
    ensures
        r matches Ok(copy) && copy == untruncated(*tokenizer) && window(copy) is None,
{
    match disable_truncation(tokenizer) {
        Ok(copy) => Ok(copy),
        Err(message) => Err(
            Error::new("disable truncation: ".to_owned().concat(message.as_str())),
        ),
    }
}

/// The byte spans of the offsets that are not empty, in order.
pub open spec fn spans(offsets: Seq<(usize, usize)>) -> Seq<TokenSpan>
    decreases offsets.len(),
{
    if offsets.len() == 0 {
        Seq::empty()
    } else {
        let (start, end) = offsets.last();
        if start != end {
            spans(offsets.drop_last()).push(TokenSpan { start, end })
        } else {
            spans(offsets.drop_last())
        }
    }
}

/// The byte spans of the offsets that are not empty, in order.
pub fn spans_of(offsets: &Vec<(usize, usize)>) -> (r: Vec<TokenSpan>)
    ensures
        r@ == spans(offsets@),
{
    let mut out: Vec<TokenSpan> = Vec::new();
    let mut i: usize = 0;
    assert(offsets@.take(0) =~= Seq::empty());
    while i < offsets.len()
        invariant
            0 <= i <= offsets@.len(),
            out@ == spans(offsets@.take(i as int)),
        decreases offsets@.len() - i,
    {
        assert(offsets@.take(i + 1).drop_last() =~= offsets@.take(i as int));
        let (start, end) = offsets[i];
        if start != end {
            out.push(TokenSpan { start, end });
        }
        i += 1;
    }
    assert(offsets@.take(i as int) =~= offsets@);
    out
}

/// Number of tokens in an encoding.
pub open spec fn count_in(outcome: Encoded) -> Result<int, Seq<char>> {
    match outcome {
        Ok((ids, _)) => Ok(ids.len() as int),
        Err(message) => Err("tokenize: "@ + message),
    }
}

/// Byte spans of the tokens in an encoding.
pub open spec fn spans_in(outcome: Encoded) -> Result<Seq<TokenSpan>, Seq<char>> {
    match outcome {
        Ok((_, offsets)) => Ok(spans(offsets)),
        Err(message) => Err("tokenize: "@ + message),
    }
}

/// `r` is a count of the tokens of `text`.
pub open spec fn counted_by(
    tokenizer: tokenizers::Tokenizer,
    text: Seq<char>,
    r: Result<int, Seq<char>>,
) -> bool {
    exists|outcome: Encoded| #[trigger]
        may_encode(tokenizer, text, outcome) && r == count_in(outcome)
}

/// `r` are byte spans of the tokens of `text`.
pub open spec fn spanned_by(
    tokenizer: tokenizers::Tokenizer,
    text: Seq<char>,
    r: Result<Seq<TokenSpan>, Seq<char>>,
) -> bool {
    exists|outcome: Encoded| #[trigger]
        may_encode(tokenizer, text, outcome) && r == spans_in(outcome)
}

/// What a count holds.
pub open spec fn count_view(r: Result<usize, Error>) -> Result<int, Seq<char>> {
    match r {
        Ok(n) => Ok(n as int),
        Err(e) => Err(e@),
    }
}

/// Number of tokens of `text`. The tokenizer has truncation disabled, so that counts are never
/// capped; see [`counting`]. A text that does not fit is an error.
pub fn token_count(tokenizer: &tokenizers::Tokenizer, text: &str) -> (r: Result<usize, Error>)
    requires
        encodes_all(*tokenizer),
    ensures
        counted_by(*tokenizer, text@, count_view(r)),
{
    let outcome = try_encode(tokenizer, text);
    assert(may_encode(*tokenizer, text@, encoded(outcome)));
    match outcome {
        Ok((ids, _)) => Ok(ids.len()),
        Err(message) => Err(Error::new("tokenize: ".to_owned().concat(message.as_str()))),
    }
}

/// Byte span of every token of `text`, empty spans left out. The tokenizer has truncation
/// disabled, so that no token is missing; see [`counting`]. A text that does not fit is an error.
pub fn token_spans(tokenizer: &tokenizers::Tokenizer, text: &str) -> (r: Result<
    Vec<TokenSpan>,
    Error,
>)
    requires
        encodes_all(*tokenizer),
    ensures
        spanned_by(*tokenizer, text@, error::outcome(r)),
{
    let outcome = try_encode(tokenizer, text);
    assert(may_encode(*tokenizer, text@, encoded(outcome)));
    match outcome {
        Ok((_, offsets)) => Ok(spans_of(&offsets)),
        Err(message) => Err(Error::new("tokenize: ".to_owned().concat(message.as_str()))),
    }
}

} // verus!
