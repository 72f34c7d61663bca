//! What holds of texts.

use crate::text;
use vstd::prelude::*;

verus! {

broadcast use vstd::seq::group_seq_axioms;

/// The code points of white space.
pub open spec fn white_space() -> Seq<u32> {
    seq![
        0x0009,
        0x000a,
        0x000b,
        0x000c,
        0x000d,
        0x0020,
        0x0085,
        0x00a0,
        0x1680,
        0x2000,
        0x2001,
        0x2002,
        0x2003,
        0x2004,
        0x2005,
        0x2006,
        0x2007,
        0x2008,
        0x2009,
        0x200a,
        0x2028,
        0x2029,
        0x202f,
        0x205f,
        0x3000,
    ]
}

/// White space are exactly the twenty-five code points that Unicode lists as such.
pub proof fn white_space_is_what_unicode_lists(c: char)
    ensures
        text::whitespace(c) <==> white_space().contains(c as u32),
{
    let list = white_space();
    let u = c as u32;
    if list.contains(u) {
        let i = choose|i: int| 0 <= i < list.len() && list[i] == u;
        assert(0 <= i < 25);
    }
    if text::whitespace(c) {
        if u <= 0x0d {
            assert(list[u - 9] == u);
        } else if 0x2000 <= u <= 0x200a {
            assert(list[9 + u - 0x2000] == u);
        } else {
            assert(list[5] == 0x20 && list[6] == 0x85 && list[7] == 0xa0 && list[8] == 0x1680);
            assert(list[20] == 0x2028 && list[21] == 0x2029 && list[22] == 0x202f);
            assert(list[23] == 0x205f && list[24] == 0x3000);
        }
    }
}

/// Trimming takes away the white space at both ends and nothing else: what is left is the part of
/// the text outside of which all is white space, and which has none at its own ends.
pub proof fn trimming_takes_white_space_only(s: Seq<char>, i: int, j: int)
    requires
        0 <= i <= j <= s.len(),
        forall|k: int| 0 <= k < i ==> text::whitespace(#[trigger] s[k]),
        forall|k: int| j <= k < s.len() ==> text::whitespace(#[trigger] s[k]),
        i < j ==> !text::whitespace(s[i]) && !text::whitespace(s[j - 1]),
        i == j ==> i == s.len(),
    ensures
        text::trim(s) == s.subrange(i, j),
        text::trim_start(s) == s.skip(i),
{
    text::lemma_leading_unique(s, i);
    let rest = text::trim_start(s);
    assert forall|k: int| rest.len() - (s.len() - j) <= k < rest.len() implies text::whitespace(
        #[trigger] rest[k],
    ) by {
        assert(rest[k] == s[k + i]);
    }
    if i < j {
        assert(rest[rest.len() - (s.len() - j) - 1] == s[j - 1]);
    }
    text::lemma_trailing_unique(rest, s.len() - j);
    assert(text::trim(s) =~= s.subrange(i, j));
}

/// The number that decimal digits stand for.
pub open spec fn number(s: Seq<char>) -> int
    decreases s.len(),
{
    if s.len() == 0 {
        0
    } else {
        10 * number(s.drop_last()) + (s.last() as int - '0' as int)
    }
}

/// A number in decimal reads as the number, and has no leading zero.
pub proof fn decimals_read_back(n: nat)
    ensures
        number(text::digits(n)) == n,
        forall|k: int|
            0 <= k < text::digits(n).len() ==> '0' <= #[trigger] text::digits(n)[k] <= '9',
        text::digits(n).len() > 0,
        n > 0 ==> text::digits(n)[0] != '0',
    decreases n,
{
    let d = text::digits(n);
    text::lemma_digits(n);
    assert(text::digit(n % 10) as int == 0x30 + n % 10);
    if n >= 10 {
        decimals_read_back(n / 10);
        assert(d.drop_last() =~= text::digits(n / 10));
        assert(d[0] == text::digits(n / 10)[0]);
    } else {
        assert(d.drop_last() =~= Seq::empty());
        assert(number(d.drop_last()) == 0);
    }
}

/// A text is a word whatever the case of its letters.
pub proof fn words_go_by_letters(s: Seq<char>, word: Seq<char>)
    requires
        forall|k: int| 0 <= k < word.len() ==> 'a' <= #[trigger] word[k] <= 'z',
    ensures
        text::same_word(s, word) <==> {
            &&& s.len() == word.len()
            &&& forall|k: int|
                0 <= k < s.len() ==> (#[trigger] s[k]) == word[k] || s[k] as u32 + 32
                    == word[k] as u32
        },
{
    if text::same_word(s, word) {
        assert forall|k: int| 0 <= k < s.len() implies (#[trigger] s[k]) == word[k] || s[k] as u32
            + 32 == word[k] as u32 by {
            assert(text::lowered(s[k]) == text::lowered(word[k]));
        }
    }
    if s.len() == word.len() && forall|k: int|
        0 <= k < s.len() ==> (#[trigger] s[k]) == word[k] || s[k] as u32 + 32 == word[k] as u32 {
        assert forall|k: int| 0 <= k < s.len() implies #[trigger] text::lowered(s[k])
            == text::lowered(word[k]) by {
            assert('a' <= word[k] <= 'z');
            assert(s[k] == word[k] || s[k] as u32 + 32 == word[k] as u32);
        }
    }
}

// ---- replacing -----------------------------------------------------------------------------

/// Whether `pattern` stands nowhere in `s`.
pub open spec fn absent(s: Seq<char>, pattern: Seq<char>) -> bool {
    forall|at: int| !#[trigger] text::occurs(s, pattern, at)
}

/// Where a pattern does not start in the first characters of a text, these are left as they are.
pub proof fn lemma_replaced_behind(a: Seq<char>, b: Seq<char>, pattern: Seq<char>, by: Seq<char>)
    requires
        pattern.len() > 0,
        forall|at: int| 0 <= at < a.len() ==> !#[trigger] text::occurs(a + b, pattern, at),
    ensures
        text::replaced(a + b, pattern, by) == a + text::replaced(b, pattern, by),
    decreases a.len(),
{
    if a.len() == 0 {
        assert(a + b =~= b);
        assert(a + text::replaced(b, pattern, by) =~= text::replaced(b, pattern, by));
    } else {
        let rest = a.drop_first();
        assert((a + b).skip(1) =~= rest + b);
        assert(!text::occurs(a + b, pattern, 0));
        assert forall|at: int| 0 <= at < rest.len() implies !#[trigger] text::occurs(
            rest + b,
            pattern,
            at,
        ) by {
            if text::occurs(rest + b, pattern, at) {
                assert((a + b).subrange(at + 1, at + 1 + pattern.len()) =~= (rest + b).subrange(
                    at,
                    at + pattern.len(),
                ));
                assert(text::occurs(a + b, pattern, at + 1));
            }
        }
        lemma_replaced_behind(rest, b, pattern, by);
        assert(a + text::replaced(b, pattern, by) =~= seq![a[0]] + (rest + text::replaced(
            b,
            pattern,
            by,
        )));
    }
}

/// A pattern is replaced where it stands.
pub proof fn lemma_replaced_here(b: Seq<char>, pattern: Seq<char>, by: Seq<char>)
    requires
        pattern.len() > 0,
    ensures
        text::replaced(pattern + b, pattern, by) == by + text::replaced(b, pattern, by),
{
    assert((pattern + b).subrange(0, pattern.len() as int) =~= pattern);
    assert((pattern + b).skip(pattern.len() as int) =~= b);
}

/// A text without the pattern is left as it is.
pub proof fn lemma_replaced_nowhere(s: Seq<char>, pattern: Seq<char>, by: Seq<char>)
    requires
        absent(s, pattern),
    ensures
        text::replaced(s, pattern, by) == s,
{
    let none = Seq::<char>::empty();
    assert(s + none =~= s);
    if pattern.len() > 0 {
        lemma_replaced_behind(s, none, pattern, by);
    }
}

/// A pattern that does not hold `mark` stands in `a`, `mark` and `b` only where it stands in `a` or
/// in `b`.
pub proof fn lemma_no_pattern_across(
    a: Seq<char>,
    mark: char,
    b: Seq<char>,
    pattern: Seq<char>,
    at: int,
)
    requires
        pattern.len() > 0,
        forall|k: int| 0 <= k < pattern.len() ==> #[trigger] pattern[k] != mark,
        absent(a, pattern),
        0 <= at <= a.len(),
    ensures
        !text::occurs(a + seq![mark] + b, pattern, at),
{
    let s = a + seq![mark] + b;
    let n = pattern.len() as int;
    if text::occurs(s, pattern, at) {
        if at + n <= a.len() {
            assert(a.subrange(at, at + n) =~= s.subrange(at, at + n));
            assert(text::occurs(a, pattern, at));
        } else {
            assert(s[a.len() as int] == mark);
            assert(s.subrange(at, at + n)[a.len() - at] == mark);
            assert(pattern[a.len() - at] == mark);
        }
    }
}

// ---- joining -------------------------------------------------------------------------------

/// Nothing joins to nothing, one part to itself, and a further part stands behind a separator.
pub proof fn parts_are_joined_by_separators(
    parts: Seq<Seq<char>>,
    part: Seq<char>,
    separator: Seq<char>,
)
    ensures
        text::joined(Seq::empty(), separator) == Seq::<char>::empty(),
        text::joined(seq![part], separator) == part,
        parts.len() > 0 ==> text::joined(parts.push(part), separator) == text::joined(
            parts,
            separator,
        ) + separator + part,
{
    assert(parts.push(part).drop_last() =~= parts);
}

// ---- dictionary order ----------------------------------------------------------------------

/// A text comes before another exactly where it has the smaller character at the first place in which
/// they differ, or ends before they do.
pub proof fn order_goes_by_the_first_difference(a: Seq<char>, b: Seq<char>, k: int)
    requires
        0 <= k <= a.len(),
        k <= b.len(),
        forall|i: int| 0 <= i < k ==> a[i] == b[i],
        k < a.len() && k < b.len() ==> a[k] != b[k],
    ensures
        k < a.len() && k < b.len() ==> (text::less(a, b) <==> a[k] < b[k]),
        k == a.len() ==> (text::less(a, b) <==> k < b.len()),
        k == b.len() ==> !text::less(a, b),
    decreases k,
{
    if k > 0 {
        let x = a.drop_first();
        let y = b.drop_first();
        assert(a[0] == b[0]);
        assert forall|i: int| 0 <= i < k - 1 implies x[i] == y[i] by {
            assert(a[i + 1] == b[i + 1]);
        }
        order_goes_by_the_first_difference(x, y, k - 1);
    }
}

} // verus!
