//! English language detection, by way of `lingua`.

pub mod laws;

use crate::text;
use vstd::prelude::*;

verus! {

#[verifier::external_type_specification]
#[verifier::external_body]
pub struct ExLanguageDetector(lingua::LanguageDetector);

#[verifier::external_type_specification]
#[verifier::external_body]
pub struct ExLanguage(lingua::Language);

/// Whether `lingua::LanguageDetector::detect_language_of` may find `language` in `text`. The
/// detector adds up probabilities in the order of hash tables that each process seeds, so that a
/// close call may end in several ways.
pub uninterp spec fn detects(
    detector: lingua::LanguageDetector,
    text: Seq<char>,
    language: Option<lingua::Language>,
) -> bool;

/// Whether `lingua::LanguageDetector::compute_language_confidence` may give the double-precision
/// number with the given bits for `language` in `text`, in one order of adding up or another.
pub uninterp spec fn rates(
    detector: lingua::LanguageDetector,
    text: Seq<char>,
    language: lingua::Language,
    bits: u64,
) -> bool;

/// The ISO 639-1 code of a language.
pub uninterp spec fn iso_code(language: lingua::Language) -> Seq<char>;

/// `lingua::LanguageDetector::detect_language_of`: the language of a text, if it is clear. All
/// that is claimed is that [`detects`] allows the outcome: which language it is rests on the
/// detector's models.
#[verifier::external_body]
pub(crate) fn detect_language(detector: &lingua::LanguageDetector, text: &str) -> (r: Option<
    lingua::Language,
>)
    ensures
        detects(*detector, text@, r),
{
    detector.detect_language_of(text)
}

/// `lingua::LanguageDetector::compute_language_confidence`, by its bits. All that is claimed is
/// that [`rates`] allows the outcome.
#[verifier::external_body]
pub(crate) fn confidence_bits(
    detector: &lingua::LanguageDetector,
    text: &str,
    language: &lingua::Language,
) -> (r: u64)
    ensures
        rates(*detector, text@, *language, r),
{
    detector.compute_language_confidence(text, *language).to_bits()
}

/// `lingua::Language::iso_code_639_1`, as text: named [`iso_code`].
#[verifier::external_body]
pub(crate) fn code_of(language: &lingua::Language) -> (r: String)
    ensures
        r@ == iso_code(*language),
{
    language.iso_code_639_1().to_string()
}

/// Whether a confidence, given by the bits of a double-precision number, is above one half.
pub open spec fn confident(bits: u64) -> bool {
    0x3fe0_0000_0000_0000 < bits <= 0x7ff0_0000_0000_0000
}

/// Whether a language with the given code and confidence counts as English.
pub open spec fn english(code: Seq<char>, bits: u64) -> bool {
    code == "en"@ && confident(bits)
}

/// Whether a language with the given code and confidence counts as English.
pub fn is_english(code: &str, bits: u64) -> (r: bool)
    ensures
        r == english(code@, bits),
{
    text::same(code, "en") && 0x3fe0_0000_0000_0000 < bits && bits <= 0x7ff0_0000_0000_0000
}

/// Whether `r` may be the verdict on `text`: that its language was detected, is English, and is
/// rated above one half.
pub open spec fn judged(detector: lingua::LanguageDetector, text: Seq<char>, r: bool) -> bool {
    exists|language: Option<lingua::Language>| #[trigger]
        detects(detector, text, language) && match language {
            None => !r,
            Some(language) => exists|bits: u64| #[trigger]
                rates(detector, text, language, bits) && r == english(iso_code(language), bits),
        }
}

/// Whether `text` is English: its detected language is English, with a confidence above one half.
pub fn detect_one(detector: &lingua::LanguageDetector, text: &str) -> (r: bool)
    ensures
        judged(*detector, text@, r),
{
    let detected = detect_language(detector, text);
    assert(detects(*detector, text@, detected));
    match detected {
        None => false,
        Some(language) => {
            let bits: u64 = confidence_bits(detector, text, &language);
            assert(rates(*detector, text@, language, bits));
            is_english(code_of(&language).as_str(), bits)
        },
    }
}

} // verus!
