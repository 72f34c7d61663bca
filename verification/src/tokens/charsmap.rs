//! The table behind a tokenizer's compiled normalizer: which tables a search never leaves.
//!
//! The table is given as Base64 text. Its bytes are a count, so many bytes of units (32 bits each,
//! the lowest byte first), and a text. The units are a search tree: a search goes from unit to unit
//! by the bytes of what it looks for, and ends at a place in the text.

use crate::text;
use vstd::prelude::*;

verus! {

broadcast use vstd::seq::group_seq_axioms;

/// The six bits that a character of a Base64 text stands for.
pub open spec fn sextet(c: char) -> Option<u8> {
    if 'A' <= c && c <= 'Z' {
        Some((c as u8 - 'A' as u8) as u8)
    } else if 'a' <= c && c <= 'z' {
        Some((c as u8 - 'a' as u8 + 26) as u8)
    } else if '0' <= c && c <= '9' {
        Some((c as u8 - '0' as u8 + 52) as u8)
    } else if c == '+' {
        Some(62)
    } else if c == '/' {
        Some(63)
    } else {
        None
    }
}

/// How many characters of padding end a Base64 text.
pub open spec fn padding(s: Seq<char>) -> nat {
    if s.len() >= 1 && s[s.len() - 1] == '=' {
        if s.len() >= 2 && s[s.len() - 2] == '=' {
            2
        } else {
            1
        }
    } else {
        0
    }
}

/// Whether `s` is a Base64 text: groups of four characters, the last one perhaps padded.
pub open spec fn is_base64(s: Seq<char>) -> bool {
    &&& s.len() % 4 == 0
    &&& forall|k: int| 0 <= k < s.len() - padding(s) ==> sextet(#[trigger] s[k]) is Some
}

/// The six bits at position `k`, none where there is padding.
pub open spec fn bits(s: Seq<char>, k: int) -> u8 {
    match sextet(s[k]) {
        Some(b) => b,
        None => 0,
    }
}

/// Byte `i` of a Base64 text: three bytes come of four characters.
pub open spec fn decoded_byte(s: Seq<char>, i: int) -> u8 {
    let k = i / 3 * 4;
    if i % 3 == 0 {
        (bits(s, k) << 2) | (bits(s, k + 1) >> 4)
    } else if i % 3 == 1 {
        (bits(s, k + 1) << 4) | (bits(s, k + 2) >> 2)
    } else {
        (bits(s, k + 2) << 6) | bits(s, k + 3)
    }
}

/// The bytes of a Base64 text.
pub open spec fn decoded(s: Seq<char>) -> Seq<u8> {
    Seq::new((s.len() / 4 * 3 - padding(s)) as nat, |i: int| decoded_byte(s, i))
}

/// The unit that starts at byte `i`.
pub open spec fn unit(b: Seq<u8>, i: int) -> u32 {
    (b[i] as u32) | ((b[i + 1] as u32) << 8) | ((b[i + 2] as u32) << 16) | ((b[i + 3] as u32)
        << 24)
}

/// How many units a table says it has.
pub open spec fn units(b: Seq<u8>) -> u32 {
    unit(b, 0) >> 2
}

/// Where unit `p` leads to: the place from which the next byte of the search leads on.
pub open spec fn base(p: u32, u: u32) -> u32 {
    if u & 0x200 != 0 {
        p ^ ((u >> 10) << 8)
    } else {
        p ^ (u >> 10)
    }
}

/// Whether a search can go on from unit `p` whatever comes next: all places that a byte leads to are
/// units, and where something ends there, it is a place in the text, not within a character.
pub open spec fn leads_on(b: Seq<u8>, p: u32) -> bool {
    let u = unit(b, 4 + 4 * p);
    let to = base(p, u);
    let text_at = 4 + 4 * units(b);
    &&& (to | 0xff) < units(b)
    &&& u & 0x100 != 0 ==> {
        let v = text_at + (unit(b, 4 + 4 * to) & 0x7fff_ffff);
        v == b.len() || (v < b.len() && !(0x80 <= b[v] < 0xc0))
    }
}

/// Whether no search leaves the table: the units are all there, at least one, and a search can go on
/// from the first and from every other that a byte can lead to.
pub open spec fn closed_table(b: Seq<u8>) -> bool {
    &&& b.len() >= 4
    &&& units(b) >= 1
    &&& 4 + 4 * units(b) <= b.len()
    &&& forall|p: u32|
        p < units(b) && (p == 0 || unit(b, 4 + 4 * p) < 0x8000_0000) ==> #[trigger] leads_on(b, p)
}

/// Whether `s` is the Base64 text of a table that no search leaves.
pub open spec fn sound(s: Seq<char>) -> bool {
    is_base64(s) && closed_table(decoded(s))
}

fn read_sextet(c: char) -> (r: Option<u8>)
    ensures
        r == sextet(c),
{
    if 'A' <= c && c <= 'Z' {
        Some(c as u8 - 'A' as u8)
    } else if 'a' <= c && c <= 'z' {
        Some(c as u8 - 'a' as u8 + 26)
    } else if '0' <= c && c <= '9' {
        Some(c as u8 - '0' as u8 + 52)
    } else if c == '+' {
        Some(62)
    } else if c == '/' {
        Some(63)
    } else {
        None
    }
}

fn count_padding(s: &Vec<char>) -> (r: usize)
    ensures
        r == padding(s@),
{
    let n: usize = s.len();
    if n >= 1 && s[n - 1] == '=' {
        if n >= 2 && s[n - 2] == '=' {
            2
        } else {
            1
        }
    } else {
        0
    }
}

fn decode(s: &Vec<char>) -> (r: Option<Vec<u8>>)
    ensures
        match r {
            Some(bytes) => is_base64(s@) && bytes@ == decoded(s@),
            None => !is_base64(s@),
        },
{
    let n: usize = s.len();
    let pad: usize = count_padding(s);
    if n % 4 != 0 {
        return None;
    }
    let mut sextets: Vec<u8> = Vec::new();
    let mut i: usize = 0;
    while i < n
        invariant
            n == s@.len(),
            pad == padding(s@),
            0 <= i <= n,
            sextets@.len() == i,
            forall|k: int| 0 <= k < i && k < n - pad ==> sextet(#[trigger] s@[k]) is Some,
            forall|k: int| 0 <= k < i ==> #[trigger] sextets@[k] == bits(s@, k),
        decreases n - i,
    {
        match read_sextet(s[i]) {
            Some(b) => {
                sextets.push(b);
            },
            None => {
                if i < n - pad {
                    assert(sextet(s@[i as int]) is None);
                    return None;
                }
                sextets.push(0);
            },
        }
        i += 1;
    }
    let mut out: Vec<u8> = Vec::new();
    let size: usize = n / 4 * 3 - pad;
    let mut j: usize = 0;
    while j < size
        invariant
            n == s@.len(),
            n % 4 == 0,
            size == n / 4 * 3 - pad,
            0 <= j <= size,
            sextets@.len() == n,
            forall|k: int| 0 <= k < n ==> #[trigger] sextets@[k] == bits(s@, k),
            out@.len() == j,
            forall|k: int| 0 <= k < j ==> #[trigger] out@[k] == decoded_byte(s@, k),
        decreases size - j,
    {
        let k: usize = j / 3 * 4;
        let byte: u8 = if j % 3 == 0 {
            (sextets[k] << 2) | (sextets[k + 1] >> 4)
        } else if j % 3 == 1 {
            (sextets[k + 1] << 4) | (sextets[k + 2] >> 2)
        } else {
            (sextets[k + 2] << 6) | sextets[k + 3]
        };
        out.push(byte);
        j += 1;
    }
    assert(out@ =~= decoded(s@));
    Some(out)
}

fn read_unit(b: &Vec<u8>, i: usize) -> (r: u32)
    requires
        i + 4 <= b@.len() <= usize::MAX,
    ensures
        r == unit(b@, i as int),
{
    (b[i] as u32) | ((b[i + 1] as u32) << 8) | ((b[i + 2] as u32) << 16) | ((b[i + 3] as u32)
        << 24)
}

fn can_lead_on(b: &Vec<u8>, count: u32, p: u32) -> (r: bool)
    requires
        4 <= b@.len() <= usize::MAX,
        count == units(b@),
        4 + 4 * count <= b@.len(),
        p < count,
    ensures
        r == leads_on(b@, p),
{
    let u: u32 = read_unit(b, 4 + 4 * (p as usize));
    let to: u32 = if u & 0x200 != 0 {
        p ^ ((u >> 10) << 8)
    } else {
        p ^ (u >> 10)
    };
    if (to | 0xff) >= count {
        return false;
    }
    assert(to <= (to | 0xff)) by (bit_vector);
    if u & 0x100 == 0 {
        return true;
    }
    let offset: u32 = read_unit(b, 4 + 4 * (to as usize)) & 0x7fff_ffff;
    let text_at: usize = 4 + 4 * (count as usize);
    let left: usize = b.len() - text_at;
    let offset: usize = offset as usize;
    if offset > left {
        return false;
    }
    if offset == left {
        return true;
    }
    let first: u8 = b[text_at + offset];
    first < 0x80 || first >= 0xc0
}

fn is_closed(b: &Vec<u8>) -> (r: bool)
    ensures
        r == closed_table(b@),
{
    if b.len() < 4 {
        return false;
    }
    let count: u32 = read_unit(b, 0) >> 2;
    if count < 1 || (b.len() - 4) / 4 < count as usize {
        return false;
    }
    let mut p: u32 = 0;
    while p < count
        invariant
            4 <= b@.len() <= usize::MAX,
            count == units(b@),
            4 + 4 * count <= b@.len(),
            0 <= p <= count,
            forall|q: u32|
                q < p && (q == 0 || unit(b@, 4 + 4 * q) < 0x8000_0000) ==> #[trigger] leads_on(
                    b@,
                    q,
                ),
        decreases count - p,
    {
        let u: u32 = read_unit(b, 4 + 4 * (p as usize));
        if (p == 0 || u < 0x8000_0000) && !can_lead_on(b, count, p) {
            assert(!leads_on(b@, p));
            return false;
        }
        p += 1;
    }
    true
}

/// Whether `table` is the Base64 text of a table that no search leaves.
pub fn is_sound(table: &str) -> (r: bool)
    ensures
        r == sound(table@),
{
    match decode(&text::chars_of(table)) {
        Some(bytes) => is_closed(&bytes),
        None => false,
    }
}

} // verus!
