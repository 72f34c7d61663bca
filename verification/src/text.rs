//! Text as a sequence of characters, addressed by UTF-8 byte offsets.
//!
//! `str` indexes by byte, while everything worth saying about a text is about
//! its characters. The functions here work on both at once: a text is modelled
//! by its characters, and [`offset`] gives the byte at which a character starts.

pub mod laws;

use vstd::prelude::*;
use vstd::utf8::*;

verus! {

broadcast use vstd::seq::group_seq_axioms;

// ---- characters ----------------------------------------------------------------------------

/// The Unicode `White_Space` property.
pub open spec fn whitespace(c: char) -> bool {
    let u = c as u32;
    ||| 0x09 <= u <= 0x0d
    ||| u == 0x20
    ||| u == 0x85
    ||| u == 0xa0
    ||| u == 0x1680
    ||| 0x2000 <= u <= 0x200a
    ||| u == 0x2028
    ||| u == 0x2029
    ||| u == 0x202f
    ||| u == 0x205f
    ||| u == 0x3000
}

/// Whether `c` is white space, in the sense of `char::is_whitespace`.
pub fn is_whitespace(c: char) -> (r: bool)
    ensures
        r == whitespace(c),
{
    let u: u32 = c as u32;
    (0x09 <= u && u <= 0x0d) || u == 0x20 || u == 0x85 || u == 0xa0 || u == 0x1680 || (0x2000 <= u
        && u <= 0x200a) || u == 0x2028 || u == 0x2029 || u == 0x202f || u == 0x205f || u == 0x3000
}

/// Number of bytes that encode `c`.
pub open spec fn width(c: char) -> nat {
    encode_scalar(c as u32).len()
}

/// Number of bytes that encode `c`.
pub fn char_width(c: char) -> (r: usize)
    ensures
        r == width(c),
        1 <= r <= 4,
{
    let u: u32 = c as u32;
    if u <= 0x7f {
        1
    } else if u <= 0x7ff {
        2
    } else if u <= 0xffff {
        3
    } else {
        4
    }
}

// ---- byte offsets --------------------------------------------------------------------------

/// Number of bytes that encode `s`.
pub open spec fn byte_len(s: Seq<char>) -> nat {
    encode_utf8(s).len()
}

/// Byte at which character `k` of `s` starts; the byte length of `s` for `k == s.len()`.
pub open spec fn offset(s: Seq<char>, k: int) -> int {
    byte_len(s.take(k)) as int
}

/// Whether byte `at` of `s` is the start of a character, or the end of `s`.
pub open spec fn boundary(s: Seq<char>, at: int) -> bool {
    exists|k: int| 0 <= k <= s.len() && #[trigger] offset(s, k) == at
}

/// The character that starts at byte `at` of `s`, for a boundary `at`.
pub open spec fn char_index(s: Seq<char>, at: int) -> int {
    choose|k: int| 0 <= k <= s.len() && #[trigger] offset(s, k) == at
}

/// The characters between bytes `from` and `to` of `s`, where both are boundaries.
pub open spec fn between(s: Seq<char>, from: int, to: int) -> Option<Seq<char>> {
    if from <= to && boundary(s, from) && boundary(s, to) {
        Some(s.subrange(char_index(s, from), char_index(s, to)))
    } else {
        None
    }
}

/// Encoding distributes over concatenation.
pub proof fn lemma_encode_concat(a: Seq<char>, b: Seq<char>)
    ensures
        encode_utf8(a + b) == encode_utf8(a) + encode_utf8(b),
    decreases a.len(),
{
    if a.len() == 0 {
        assert(a + b =~= b);
        assert(encode_utf8(a) + encode_utf8(b) =~= encode_utf8(b));
    } else {
        assert((a + b).drop_first() =~= a.drop_first() + b);
        assert((a + b)[0] == a[0]);
        lemma_encode_concat(a.drop_first(), b);
        assert(encode_utf8(a + b) =~= encode_utf8(a) + encode_utf8(b));
    }
}

/// Different texts have different encodings.
pub proof fn lemma_encode_injective(a: Seq<char>, b: Seq<char>)
    requires
        encode_utf8(a) == encode_utf8(b),
    ensures
        a == b,
{
    encode_utf8_decode_utf8(a);
    encode_utf8_decode_utf8(b);
}

/// A character starts where the one before it ends.
pub proof fn lemma_offset_step(s: Seq<char>, k: int)
    requires
        0 <= k < s.len(),
    ensures
        offset(s, k + 1) == offset(s, k) + width(s[k]),
        1 <= width(s[k]) <= 4,
{
    assert(s.take(k + 1) =~= s.take(k) + seq![s[k]]);
    lemma_encode_concat(s.take(k), seq![s[k]]);
    lemma_byte_len_single(s[k]);
}

proof fn lemma_byte_len_single(c: char)
    ensures
        byte_len(seq![c]) == width(c),
        1 <= width(c) <= 4,
{
    reveal_with_fuel(encode_utf8, 2);
    assert(seq![c].drop_first() =~= Seq::<char>::empty());
    assert(encode_utf8(seq![c]) =~= encode_scalar(c as u32));
}

pub proof fn lemma_offset_ends(s: Seq<char>)
    ensures
        offset(s, 0) == 0,
        offset(s, s.len() as int) == byte_len(s),
{
    assert(s.take(0) =~= Seq::<char>::empty());
    assert(s.take(s.len() as int) =~= s);
}

/// Later characters start later.
pub proof fn lemma_offset_monotonic(s: Seq<char>, i: int, j: int)
    requires
        0 <= i <= j <= s.len(),
    ensures
        offset(s, i) <= offset(s, j),
        i < j ==> offset(s, i) < offset(s, j),
        offset(s, j) - offset(s, i) >= j - i,
    decreases j - i,
{
    if i < j {
        lemma_offset_monotonic(s, i, j - 1);
        lemma_offset_step(s, j - 1);
    }
}

/// `char_index` inverts `offset`.
pub proof fn lemma_char_index(s: Seq<char>, k: int)
    requires
        0 <= k <= s.len(),
    ensures
        boundary(s, offset(s, k)),
        char_index(s, offset(s, k)) == k,
{
    let at = offset(s, k);
    let c = char_index(s, at);
    assert(0 <= c <= s.len() && offset(s, c) == at);
    if c < k {
        lemma_offset_monotonic(s, c, k);
    } else if k < c {
        lemma_offset_monotonic(s, k, c);
    }
}

/// The bytes of a subrange are the difference of the offsets of its ends.
pub proof fn lemma_byte_len_subrange(s: Seq<char>, i: int, j: int)
    requires
        0 <= i <= j <= s.len(),
    ensures
        byte_len(s.subrange(i, j)) == offset(s, j) - offset(s, i),
{
    assert(s.take(j) =~= s.take(i) + s.subrange(i, j));
    lemma_encode_concat(s.take(i), s.subrange(i, j));
}

/// Offsets inside a subrange are shifted by the offset of its start.
pub proof fn lemma_offset_subrange(s: Seq<char>, i: int, j: int, k: int)
    requires
        0 <= i <= j <= s.len(),
        0 <= k <= j - i,
    ensures
        offset(s.subrange(i, j), k) == offset(s, i + k) - offset(s, i),
{
    assert(s.subrange(i, j).take(k) =~= s.subrange(i, i + k));
    lemma_byte_len_subrange(s, i, i + k);
}

/// The boundaries of an encoded text are the offsets of its characters.
pub proof fn lemma_boundary(s: Seq<char>, at: int)
    ensures
        is_char_boundary(encode_utf8(s), at) <==> boundary(s, at),
    decreases s.len(),
{
    let bytes = encode_utf8(s);
    encode_utf8_valid_utf8(s);
    lemma_offset_ends(s);
    if at == 0 {
        lemma_char_index(s, 0);
    } else if at < 0 || at > bytes.len() {
        assert forall|k: int| 0 <= k <= s.len() implies #[trigger] offset(s, k) != at by {
            lemma_offset_monotonic(s, 0, k);
            lemma_offset_monotonic(s, k, s.len() as int);
        }
    } else {
        let rest = s.drop_first();
        let w = width(s[0]) as int;
        encode_utf8_first_scalar(s);
        assert(pop_first_scalar(bytes) =~= encode_utf8(rest));
        lemma_boundary(rest, at - w);
        assert(rest =~= s.subrange(1, s.len() as int));
        lemma_offset_step(s, 0);
        if boundary(rest, at - w) {
            let k = char_index(rest, at - w);
            lemma_offset_subrange(s, 1, s.len() as int, k);
            assert(offset(s, k + 1) == at);
        }
        if boundary(s, at) {
            let k = char_index(s, at);
            lemma_offset_subrange(s, 1, s.len() as int, k - 1);
            assert(offset(rest, k - 1) == at - w);
        }
    }
}

/// Number of bytes of `text`.
pub fn byte_count(text: &str) -> (r: usize)
    ensures
        r == byte_len(text@),
{
    text.as_bytes().len()
}

/// The text between bytes `from` and `to`, or `None` where `str::get` gives none.
pub fn slice<'a>(text: &'a str, from: usize, to: usize) -> (r: Option<&'a str>)
    ensures
        match between(text@, from as int, to as int) {
            Some(t) => r matches Some(x) && x@ == t,
            None => r is None,
        },
{
    proof {
        lemma_boundary(text@, from as int);
        lemma_boundary(text@, to as int);
    }
    if from > to || !text.is_char_boundary(from) || !text.is_char_boundary(to) {
        return None;
    }
    let ghost s = text@;
    let ghost i = char_index(s, from as int);
    let ghost j = char_index(s, to as int);
    let head = text.split_at(to).0;
    proof {
        lemma_offset_ends(s);
        lemma_char_index(s, j);
        if j < i {
            lemma_offset_monotonic(s, j, i);
        }
        lemma_take_bytes(s, j);
        lemma_encode_injective(head@, s.take(j));
        assert(s.take(j).take(i) =~= s.take(i));
        lemma_char_index(head@, i);
        lemma_boundary(head@, from as int);
    }
    let tail = head.split_at(from).1;
    proof {
        lemma_skip_bytes(head@, i);
        lemma_encode_injective(tail@, head@.skip(i));
        assert(head@.skip(i) =~= s.subrange(i, j));
    }
    Some(tail)
}

proof fn lemma_take_bytes(s: Seq<char>, k: int)
    requires
        0 <= k <= s.len(),
    ensures
        encode_utf8(s).subrange(0, offset(s, k)) == encode_utf8(s.take(k)),
{
    assert(s =~= s.take(k) + s.skip(k));
    lemma_encode_concat(s.take(k), s.skip(k));
    assert(encode_utf8(s).subrange(0, offset(s, k)) =~= encode_utf8(s.take(k)));
}

proof fn lemma_skip_bytes(s: Seq<char>, k: int)
    requires
        0 <= k <= s.len(),
    ensures
        encode_utf8(s).subrange(offset(s, k), byte_len(s) as int) == encode_utf8(s.skip(k)),
{
    assert(s =~= s.take(k) + s.skip(k));
    lemma_encode_concat(s.take(k), s.skip(k));
    assert(encode_utf8(s).subrange(offset(s, k), byte_len(s) as int) =~= encode_utf8(s.skip(k)));
}

/// The characters of `text`.
pub fn chars_of(text: &str) -> (r: Vec<char>)
    ensures
        r@ == text@,
{
    let mut out: Vec<char> = Vec::new();
    for c in it: text.chars()
        invariant
            it.seq() == text@,
            out@ == text@.take(it.index()),
    {
        out.push(c);
    }
    assert(text@.take(text@.len() as int) =~= text@);
    out
}

/// Whether two texts are the same.
pub fn same(a: &str, b: &str) -> (r: bool)
    ensures
        r == (a@ == b@),
{
    let x = a.as_bytes();
    let y = b.as_bytes();
    if x.len() != y.len() {
        return false;
    }
    let mut i: usize = 0;
    while i < x.len()
        invariant
            x@.len() == y@.len(),
            x@ == encode_utf8(a@),
            y@ == encode_utf8(b@),
            0 <= i <= x@.len(),
            forall|k: int| 0 <= k < i ==> x@[k] == y@[k],
        decreases x@.len() - i,
    {
        if x[i] != y[i] {
            return false;
        }
        i += 1;
    }
    proof {
        assert(x@ =~= y@);
        lemma_encode_injective(a@, b@);
    }
    true
}

/// Whether `a` comes before `b` in dictionary order, character by character; this is the order
/// of `str`, which compares by bytes.
pub open spec fn less(a: Seq<char>, b: Seq<char>) -> bool
    decreases a.len(),
{
    if b.len() == 0 {
        false
    } else if a.len() == 0 {
        true
    } else if a[0] == b[0] {
        less(a.drop_first(), b.drop_first())
    } else {
        a[0] < b[0]
    }
}

/// Dictionary order is strict and total.
pub proof fn lemma_less_total(a: Seq<char>, b: Seq<char>)
    ensures
        less(a, b) ==> !less(b, a) && a != b,
        less(a, b) || less(b, a) || a == b,
    decreases a.len(),
{
    if a.len() > 0 && b.len() > 0 && a[0] == b[0] {
        lemma_less_total(a.drop_first(), b.drop_first());
        if a.drop_first() == b.drop_first() {
            assert(a =~= seq![a[0]] + a.drop_first());
            assert(b =~= seq![b[0]] + b.drop_first());
        }
    } else if a.len() == 0 && b.len() == 0 {
        assert(a =~= b);
    }
}

/// Dictionary order is transitive.
pub proof fn lemma_less_transitive(a: Seq<char>, b: Seq<char>, c: Seq<char>)
    requires
        less(a, b),
        less(b, c),
    ensures
        less(a, c),
    decreases a.len(),
{
    if a.len() > 0 && a[0] == b[0] && b[0] == c[0] {
        lemma_less_transitive(a.drop_first(), b.drop_first(), c.drop_first());
    }
}

/// Whether `a` comes before `b` in dictionary order.
pub fn precedes(a: &str, b: &str) -> (r: bool)
    ensures
        r == less(a@, b@),
{
    let x = chars_of(a);
    let y = chars_of(b);
    let mut i: usize = 0;
    assert(x@.skip(0) =~= a@);
    assert(y@.skip(0) =~= b@);
    while i < x.len() && i < y.len()
        invariant
            x@ == a@,
            y@ == b@,
            0 <= i <= x@.len(),
            i <= y@.len(),
            less(a@, b@) == less(a@.skip(i as int), b@.skip(i as int)),
        decreases x@.len() - i,
    {
        assert(a@.skip(i as int).drop_first() =~= a@.skip(i + 1));
        assert(b@.skip(i as int).drop_first() =~= b@.skip(i + 1));
        if x[i] != y[i] {
            return x[i] < y[i];
        }
        i += 1;
    }
    i < y.len()
}

// ---- trimming ------------------------------------------------------------------------------

/// Number of white-space characters at the start of `s`.
pub open spec fn leading(s: Seq<char>) -> nat
    decreases s.len(),
{
    if s.len() > 0 && whitespace(s[0]) {
        1 + leading(s.drop_first())
    } else {
        0
    }
}

/// Number of white-space characters at the end of `s`.
pub open spec fn trailing(s: Seq<char>) -> nat
    decreases s.len(),
{
    if s.len() > 0 && whitespace(s.last()) {
        1 + trailing(s.drop_last())
    } else {
        0
    }
}

/// `s` without the white space at its end.
pub open spec fn trim_end(s: Seq<char>) -> Seq<char> {
    s.take(s.len() - trailing(s))
}

/// `s` without the white space at its start.
pub open spec fn trim_start(s: Seq<char>) -> Seq<char> {
    s.skip(leading(s) as int)
}

/// `s` without the white space at either end.
pub open spec fn trim(s: Seq<char>) -> Seq<char> {
    trim_end(trim_start(s))
}

/// The leading white space is white space, and the character after it is not.
pub proof fn lemma_leading(s: Seq<char>)
    ensures
        leading(s) <= s.len(),
        forall|k: int| 0 <= k < leading(s) ==> whitespace(#[trigger] s[k]),
        leading(s) < s.len() ==> !whitespace(s[leading(s) as int]),
    decreases s.len(),
{
    if s.len() > 0 && whitespace(s[0]) {
        let rest = s.drop_first();
        lemma_leading(rest);
        assert forall|k: int| 0 <= k < leading(s) implies whitespace(#[trigger] s[k]) by {
            if k > 0 {
                assert(s[k] == rest[k - 1]);
            }
        }
        if leading(s) < s.len() {
            assert(s[leading(s) as int] == rest[leading(rest) as int]);
        }
    }
}

/// The trailing white space is white space, and the character before it is not.
pub proof fn lemma_trailing(s: Seq<char>)
    ensures
        trailing(s) <= s.len(),
        forall|k: int| s.len() - trailing(s) <= k < s.len() ==> whitespace(#[trigger] s[k]),
        trailing(s) < s.len() ==> !whitespace(s[s.len() - trailing(s) - 1]),
    decreases s.len(),
{
    if s.len() > 0 && whitespace(s.last()) {
        let rest = s.drop_last();
        lemma_trailing(rest);
        assert forall|k: int| s.len() - trailing(s) <= k < s.len() implies whitespace(
            #[trigger] s[k],
        ) by {
            if k < s.len() - 1 {
                assert(s[k] == rest[k]);
            }
        }
        if trailing(s) < s.len() {
            assert(s[s.len() - trailing(s) - 1] == rest[rest.len() - trailing(rest) - 1]);
        }
    }
}

/// The count of leading white space is fixed by where the first other character stands.
pub proof fn lemma_leading_unique(s: Seq<char>, n: int)
    requires
        0 <= n <= s.len(),
        forall|k: int| 0 <= k < n ==> whitespace(#[trigger] s[k]),
        n < s.len() ==> !whitespace(s[n]),
    ensures
        leading(s) == n,
{
    lemma_leading(s);
    let m = leading(s) as int;
    if m < n {
        assert(whitespace(s[m]));
    } else if n < m {
        assert(whitespace(s[n]));
    }
}

/// The count of trailing white space is fixed by where the last other character stands.
pub proof fn lemma_trailing_unique(s: Seq<char>, n: int)
    requires
        0 <= n <= s.len(),
        forall|k: int| s.len() - n <= k < s.len() ==> whitespace(#[trigger] s[k]),
        n < s.len() ==> !whitespace(s[s.len() - n - 1]),
    ensures
        trailing(s) == n,
{
    lemma_trailing(s);
    let m = trailing(s) as int;
    if m < n {
        assert(whitespace(s[s.len() - m - 1]));
    } else if n < m {
        assert(whitespace(s[s.len() - n - 1]));
    }
}

/// Trimming takes a subrange, and leaves no white space at its ends.
pub proof fn lemma_trim(s: Seq<char>)
    ensures
        ({
            let i = leading(s) as int;
            let j = i + trim(s).len();
            &&& 0 <= i <= j <= s.len()
            &&& trim(s) == s.subrange(i, j)
            &&& forall|k: int| 0 <= k < i ==> whitespace(#[trigger] s[k])
            &&& forall|k: int| j <= k < s.len() ==> whitespace(#[trigger] s[k])
            &&& i < j ==> !whitespace(s[i]) && !whitespace(s[j - 1])
        }),
{
    lemma_leading(s);
    let rest = trim_start(s);
    lemma_trailing(rest);
    let i = leading(s) as int;
    let j = i + trim(s).len();
    assert(trim(s) =~= s.subrange(i, j));
    assert forall|k: int| j <= k < s.len() implies whitespace(#[trigger] s[k]) by {
        assert(s[k] == rest[k - i]);
    }
    if i < j {
        assert(s[j - 1] == rest[rest.len() - trailing(rest) - 1]);
    }
}

/// Trimming again changes nothing.
pub proof fn lemma_trim_twice(s: Seq<char>)
    ensures
        trim(trim(s)) == trim(s),
{
    let t = trim(s);
    lemma_trim(s);
    if t.len() > 0 {
        assert(t[0] == s[leading(s) as int]);
        assert(t.last() == s[leading(s) + t.len() - 1]);
        lemma_leading_unique(t, 0);
        assert(trim_start(t) =~= t);
        lemma_trailing_unique(t, 0);
    } else {
        lemma_trim(t);
    }
    assert(trim(t) =~= t);
}

/// Number of white-space characters at the start of `chars`.
pub fn count_leading(chars: &Vec<char>) -> (n: usize)
    ensures
        n == leading(chars@),
        n <= chars@.len(),
{
    let mut n: usize = 0;
    while n < chars.len() && is_whitespace(chars[n])
        invariant
            0 <= n <= chars@.len(),
            forall|k: int| 0 <= k < n ==> whitespace(#[trigger] chars@[k]),
        decreases chars@.len() - n,
    {
        n += 1;
    }
    proof {
        lemma_leading_unique(chars@, n as int);
    }
    n
}

/// Number of white-space characters at the end of `chars`.
pub fn count_trailing(chars: &Vec<char>) -> (n: usize)
    ensures
        n == trailing(chars@),
        n <= chars@.len(),
{
    let mut n: usize = 0;
    while n < chars.len() && is_whitespace(chars[chars.len() - n - 1])
        invariant
            0 <= n <= chars@.len(),
            forall|k: int| chars@.len() - n <= k < chars@.len() ==> whitespace(#[trigger] chars@[k]),
        decreases chars@.len() - n,
    {
        n += 1;
    }
    proof {
        lemma_trailing_unique(chars@, n as int);
    }
    n
}

/// `text` without the white space at its end.
pub fn trimmed_end<'a>(text: &'a str) -> (r: &'a str)
    ensures
        r@ == trim_end(text@),
{
    let chars = chars_of(text);
    let n: usize = count_trailing(&chars);
    text.substring_char(0, chars.len() - n)
}

/// `text` without the white space at its start.
pub fn trimmed_start<'a>(text: &'a str) -> (r: &'a str)
    ensures
        r@ == trim_start(text@),
{
    let chars = chars_of(text);
    let n: usize = count_leading(&chars);
    text.substring_char(n, chars.len())
}

/// `text` without the white space at either end.
pub fn trimmed<'a>(text: &'a str) -> (r: &'a str)
    ensures
        r@ == trim(text@),
{
    trimmed_end(trimmed_start(text))
}

// ---- numbers -------------------------------------------------------------------------------

/// The digit `d`, which is below sixteen, in lower-case hexadecimal.
pub open spec fn digit(d: nat) -> char {
    if d < 10 {
        (0x30 + d) as char
    } else {
        (0x61 + d - 10) as char
    }
}

/// `n` in decimal, without leading zeros.
pub open spec fn digits(n: nat) -> Seq<char>
    decreases n,
{
    if n < 10 {
        seq![digit(n)]
    } else {
        digits(n / 10).push(digit(n % 10))
    }
}

/// Whether `c` is a decimal digit.
pub open spec fn is_digit(c: char) -> bool {
    '0' <= c && c <= '9'
}

/// A number has digits, and nothing else.
pub proof fn lemma_digits(n: nat)
    ensures
        digits(n).len() > 0,
        forall|k: int| 0 <= k < digits(n).len() ==> is_digit(#[trigger] digits(n)[k]),
    decreases n,
{
    if n >= 10 {
        lemma_digits(n / 10);
    }
}

/// Different numbers have different digits.
pub proof fn lemma_digits_injective(m: nat, n: nat)
    requires
        digits(m) == digits(n),
    ensures
        m == n,
    decreases m,
{
    lemma_digits(m / 10);
    lemma_digits(n / 10);
    assert(digits(m).last() == digit(m % 10));
    assert(digits(n).last() == digit(n % 10));
    assert(digit(m % 10) as int == 0x30 + m % 10);
    assert(digit(n % 10) as int == 0x30 + n % 10);
    if m >= 10 && n >= 10 {
        assert(digits(m).drop_last() =~= digits(m / 10));
        assert(digits(n).drop_last() =~= digits(n / 10));
        lemma_digits_injective(m / 10, n / 10);
    } else {
        assert(digits(m).len() == digits(n).len());
    }
}

/// The digit `d` as a text.
pub fn digit_text(d: u8) -> (r: &'static str)
    requires
        d < 16,
    ensures
        r@ == seq![digit(d as nat)],
{
    proof {
        reveal_strlit("0");
        reveal_strlit("1");
        reveal_strlit("2");
        reveal_strlit("3");
        reveal_strlit("4");
        reveal_strlit("5");
        reveal_strlit("6");
        reveal_strlit("7");
        reveal_strlit("8");
        reveal_strlit("9");
        reveal_strlit("a");
        reveal_strlit("b");
        reveal_strlit("c");
        reveal_strlit("d");
        reveal_strlit("e");
        reveal_strlit("f");
    }
    match d {
        0 => "0",
        1 => "1",
        2 => "2",
        3 => "3",
        4 => "4",
        5 => "5",
        6 => "6",
        7 => "7",
        8 => "8",
        9 => "9",
        10 => "a",
        11 => "b",
        12 => "c",
        13 => "d",
        14 => "e",
        _ => "f",
    }
}

/// `n` in decimal.
pub fn decimal(n: u64) -> (r: String)
    ensures
        r@ == digits(n as nat),
    decreases n,
{
    if n < 10 {
        digit_text(n as u8).to_owned()
    } else {
        let r = decimal(n / 10).concat(digit_text((n % 10) as u8));
        assert(r@ =~= digits(n as nat));
        r
    }
}

// ---- lists ---------------------------------------------------------------------------------

/// The parts, with `sep` between each two.
pub open spec fn joined(parts: Seq<Seq<char>>, sep: Seq<char>) -> Seq<char>
    decreases parts.len(),
{
    if parts.len() == 0 {
        Seq::empty()
    } else if parts.len() == 1 {
        parts[0]
    } else {
        joined(parts.drop_last(), sep) + sep + parts.last()
    }
}

/// What a list of texts holds.
pub open spec fn texts(list: Seq<String>) -> Seq<Seq<char>> {
    list.map_values(|t: String| t@)
}

/// A copy of the texts from position `from` up to position `to`.
pub fn part(list: &Vec<String>, from: usize, to: usize) -> (r: Vec<String>)
    requires
        from <= to <= list@.len(),
    ensures
        texts(r@) == texts(list@).subrange(from as int, to as int),
{
    let ghost all = texts(list@);
    let mut out: Vec<String> = Vec::new();
    let mut i: usize = from;
    assert(texts(out@) =~= all.subrange(from as int, from as int));
    while i < to
        invariant
            all == texts(list@),
            from <= i <= to <= list@.len(),
            texts(out@) == all.subrange(from as int, i as int),
        decreases to - i,
    {
        let ghost before = out@;
        out.push(list[i].clone());
        proof {
            assert(texts(out@) =~= texts(before).push(list@[i as int]@));
            assert(all.subrange(from as int, i + 1) =~= all.subrange(from as int, i as int).push(
                all[i as int],
            ));
        }
        i += 1;
    }
    out
}

/// What a list of text slices holds.
pub open spec fn slices(list: Seq<&str>) -> Seq<Seq<char>> {
    list.map_values(|t: &str| t@)
}

/// The parts, with `sep` between each two.
pub fn join(parts: &Vec<String>, sep: &str) -> (r: String)
    ensures
        r@ == joined(texts(parts@), sep@),
{
    if parts.len() == 0 {
        return String::new();
    }
    let mut out = parts[0].clone();
    let mut i: usize = 1;
    proof {
        assert(texts(parts@).take(1)[0] == parts@[0]@);
    }
    while i < parts.len()
        invariant
            1 <= i <= parts@.len(),
            out@ == joined(texts(parts@).take(i as int), sep@),
        decreases parts@.len() - i,
    {
        proof {
            let next = texts(parts@).take(i + 1);
            assert(next.drop_last() =~= texts(parts@).take(i as int));
            assert(next.last() == parts@[i as int]@);
        }
        out = out.concat(sep).concat(parts[i].as_str());
        i += 1;
    }
    assert(texts(parts@).take(i as int) =~= texts(parts@));
    out
}

// ---- searching -----------------------------------------------------------------------------

/// Whether `pattern` stands in `s` from character `at` on.
pub open spec fn occurs(s: Seq<char>, pattern: Seq<char>, at: int) -> bool {
    &&& 0 <= at
    &&& at + pattern.len() <= s.len()
    &&& s.subrange(at, at + pattern.len()) == pattern
}

/// Whether `pattern` stands in `chars` from character `at` on.
pub fn occurs_at(chars: &Vec<char>, pattern: &Vec<char>, at: usize) -> (r: bool)
    ensures
        r == occurs(chars@, pattern@, at as int),
{
    if at > chars.len() || chars.len() - at < pattern.len() {
        return false;
    }
    let mut k: usize = 0;
    while k < pattern.len()
        invariant
            at + pattern@.len() <= chars@.len() <= usize::MAX,
            0 <= k <= pattern@.len(),
            forall|i: int| 0 <= i < k ==> chars@[at + i] == #[trigger] pattern@[i],
        decreases pattern@.len() - k,
    {
        if chars[at + k] != pattern[k] {
            proof {
                let part = chars@.subrange(at as int, at + pattern@.len());
                assert(part[k as int] == chars@[at + k]);
            }
            return false;
        }
        k += 1;
    }
    assert(chars@.subrange(at as int, at + pattern@.len()) =~= pattern@);
    true
}

/// `s` with every occurrence of `pattern` replaced, from left to right and without overlap.
pub open spec fn replaced(s: Seq<char>, pattern: Seq<char>, by: Seq<char>) -> Seq<char>
    decreases s.len(),
{
    if s.len() == 0 || pattern.len() == 0 {
        s
    } else if occurs(s, pattern, 0) {
        by + replaced(s.skip(pattern.len() as int), pattern, by)
    } else {
        seq![s[0]] + replaced(s.skip(1), pattern, by)
    }
}

/// `text` with every occurrence of `pattern` replaced, from left to right and without overlap.
pub fn replace(text: &str, pattern: &str, by: &str) -> (r: String)
    requires
        pattern@.len() > 0,
    ensures
        r@ == replaced(text@, pattern@, by@),
{
    let chars = chars_of(text);
    let wanted = chars_of(pattern);
    let ghost s = text@;
    let ghost p = pattern@;
    let mut out = String::new();
    let mut start: usize = 0;
    let mut i: usize = 0;
    proof {
        assert(s.skip(0) =~= s);
        assert(out@ + s.subrange(0, 0) + replaced(s, p, by@) =~= replaced(s, p, by@));
    }
    while i < chars.len()
        invariant
            s == text@,
            p == pattern@,
            chars@ == s,
            wanted@ == p,
            p.len() > 0,
            0 <= start <= i <= s.len(),
            out@ + s.subrange(start as int, i as int) + replaced(s.skip(i as int), p, by@)
                == replaced(s, p, by@),
        decreases s.len() - i,
    {
        let ghost rest = s.skip(i as int);
        let ghost before = out@;
        if occurs_at(&chars, &wanted, i) {
            proof {
                assert(rest.subrange(0, p.len() as int) =~= s.subrange(i as int, i + p.len()));
                assert(rest.skip(p.len() as int) =~= s.skip(i + p.len()));
            }
            out = out.concat(text.substring_char(start, i)).concat(by);
            i = i + wanted.len();
            start = i;
            proof {
                let tail = replaced(s.skip(i as int), p, by@);
                assert(s.subrange(i as int, i as int) =~= Seq::empty());
                assert(out@ + Seq::<char>::empty() + tail =~= out@ + tail);
            }
        } else {
            proof {
                if occurs(rest, p, 0) {
                    assert(s.subrange(i as int, i + p.len()) =~= rest.subrange(0, p.len() as int));
                }
                assert(rest.skip(1) =~= s.skip(i + 1));
                let tail = replaced(s.skip(i + 1), p, by@);
                assert(before + s.subrange(start as int, i + 1) + tail =~= before + s.subrange(
                    start as int,
                    i as int,
                ) + (seq![s[i as int]] + tail));
            }
            i += 1;
        }
    }
    let r = out.concat(text.substring_char(start, chars.len()));
    assert(s.skip(i as int) =~= Seq::empty());
    assert(r@ =~= replaced(s, p, by@));
    r
}

/// Whether `s` is `word`, but for the case of ASCII letters.
pub open spec fn same_word(s: Seq<char>, word: Seq<char>) -> bool {
    &&& s.len() == word.len()
    &&& forall|k: int| 0 <= k < s.len() ==> #[trigger] lowered(s[k]) == lowered(word[k])
}

/// `c` in lower case, if it is an ASCII letter.
pub open spec fn lowered(c: char) -> char {
    if 'A' <= c && c <= 'Z' {
        (c as u32 + 32) as char
    } else {
        c
    }
}

fn lower(c: char) -> (r: u32)
    ensures
        r == lowered(c) as u32,
{
    if 'A' <= c && c <= 'Z' {
        c as u32 + 32
    } else {
        c as u32
    }
}

/// Whether `text` is `word`, but for the case of ASCII letters.
pub fn is_word(text: &str, word: &str) -> (r: bool)
    ensures
        r == same_word(text@, word@),
{
    let a = chars_of(text);
    let b = chars_of(word);
    if a.len() != b.len() {
        return false;
    }
    let mut k: usize = 0;
    while k < a.len()
        invariant
            a@ == text@,
            b@ == word@,
            a@.len() == b@.len(),
            0 <= k <= a@.len(),
            forall|i: int| 0 <= i < k ==> #[trigger] lowered(a@[i]) == lowered(b@[i]),
        decreases a@.len() - k,
    {
        if lower(a[k]) != lower(b[k]) {
            assert(lowered(text@[k as int]) != lowered(word@[k as int]));
            return false;
        }
        k += 1;
    }
    true
}

} // verus!
