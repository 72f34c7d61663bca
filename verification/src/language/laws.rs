//! What holds of telling English.

use crate::language;
use vstd::prelude::*;

verus! {

broadcast use vstd::seq::group_seq_axioms;

/// Whether the bits of a double-precision number are those of one above one half: its sign is not set,
/// its exponent is that of one half with a fraction above zero, or above that; and it is a number.
pub open spec fn above_one_half(bits: u64) -> bool {
    let sign = bits / 0x8000_0000_0000_0000;
    let exponent = bits / 0x10_0000_0000_0000 % 0x800;
    let fraction = bits % 0x10_0000_0000_0000;
    &&& sign == 0
    &&& exponent > 1022 || (exponent == 1022 && fraction > 0)
    &&& exponent == 2047 ==> fraction == 0
}

/// A text is English exactly where its language is coded `en`, with a confidence above one half.
pub proof fn english_is_coded_and_confident(code: Seq<char>, bits: u64)
    ensures
        language::english(code, bits) <==> code.len() == 2 && code[0] == 'e' && code[1] == 'n'
            && above_one_half(bits),
{
    reveal_strlit("en");
    if code.len() == 2 && code[0] == 'e' && code[1] == 'n' {
        assert(code =~= "en"@);
    }
}

/// A text that is told English was detected as such, with a confidence above one half.
pub proof fn english_was_detected(
    detector: lingua::LanguageDetector,
    text: Seq<char>,
) -> (found: (lingua::Language, u64))
    requires
        language::judged(detector, text, true),
    ensures
        language::detects(detector, text, Some(found.0)),
        language::rates(detector, text, found.0, found.1),
        language::iso_code(found.0) == "en"@,
        above_one_half(found.1),
{
    let detected = choose|detected: Option<lingua::Language>| #[trigger]
        language::detects(detector, text, detected) && match detected {
            None => false,
            Some(l) => exists|bits: u64| #[trigger]
                language::rates(detector, text, l, bits) && language::english(
                    language::iso_code(l),
                    bits,
                ),
        };
    let l = detected->0;
    let bits = choose|bits: u64| #[trigger]
        language::rates(detector, text, l, bits) && language::english(language::iso_code(l), bits);
    english_is_coded_and_confident(language::iso_code(l), bits);
    (l, bits)
}

/// A text is not told otherwise where it can only be detected as English, with a confidence above one
/// half.
pub proof fn confident_english_is_told(detector: lingua::LanguageDetector, text: Seq<char>, r: bool)
    requires
        language::judged(detector, text, r),
        forall|d: Option<lingua::Language>| #[trigger]
            language::detects(detector, text, d) ==> d is Some && language::iso_code(d->0) == "en"@,
        forall|l: lingua::Language, bits: u64| #[trigger]
            language::rates(detector, text, l, bits) ==> above_one_half(bits),
    ensures
        r,
{
    reveal_strlit("en");
    if !r {
        let detected = choose|detected: Option<lingua::Language>| #[trigger]
            language::detects(detector, text, detected) && match detected {
                None => true,
                Some(l) => exists|bits: u64| #[trigger]
                    language::rates(detector, text, l, bits) && !language::english(
                        language::iso_code(l),
                        bits,
                    ),
            };
        let l = detected->0;
        let bits = choose|bits: u64| #[trigger]
            language::rates(detector, text, l, bits) && !language::english(
                language::iso_code(l),
                bits,
            );
        english_is_coded_and_confident(language::iso_code(l), bits);
    }
}

} // verus!
