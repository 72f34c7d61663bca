//! Binary quantization of vectors.

use crate::float::F32;
use vstd::prelude::*;

verus! {

/// Number of bytes that `dims` bits take.
pub open spec fn bytes_for(dims: int) -> int {
    (dims + 7) / 8
}

/// Number of bytes needed to pack `dims` sign bits (8 bits per byte).
pub fn packed_len(dims: usize) -> (r: usize)
    ensures
        r == bytes_for(dims as int),
{
    if dims % 8 == 0 {
        dims / 8
    } else {
        dims / 8 + 1
    }
}

/// Bit `k` of a packed vector: in byte `k / 8` at position `k % 8`, lowest bit first.
pub open spec fn bit(bytes: Seq<u8>, k: int) -> bool {
    bit_of(bytes[k / 8], (k % 8) as u8)
}

/// Bit `b` of a byte.
pub open spec fn bit_of(byte: u8, b: u8) -> bool {
    (byte >> b) & 1u8 == 1u8
}

/// Whether `bytes` hold one bit per number of `values`, set where the number is above zero, and
/// nothing else.
pub open spec fn signs(values: Seq<F32>, bytes: Seq<u8>) -> bool {
    &&& bytes.len() == bytes_for(values.len() as int)
    &&& forall|k: int|
        0 <= k < 8 * bytes.len() ==> (#[trigger] bit(bytes, k) <==> k < values.len()
            && values[k].positive())
}

proof fn lemma_set_bit(byte: u8, b: u8, c: u8)
    requires
        b < 8,
        c < 8,
    ensures
        bit_of(byte | (1u8 << b), c) == (c == b || bit_of(byte, c)),
{
    assert(((byte | (1u8 << b)) >> c) & 1u8 == 1u8 <==> (c == b || (byte >> c) & 1u8 == 1u8))
        by (bit_vector)
        requires
            b < 8,
            c < 8,
    ;
}

proof fn lemma_clear(c: u8)
    requires
        c < 8,
    ensures
        !bit_of(0u8, c),
{
    assert((0u8 >> c) & 1u8 != 1u8) by (bit_vector)
        requires
            c < 8,
    ;
}

/// Binary quantization: one sign bit per dimension, packed 8 bits per byte.
///
/// The bit for dimension `i` lives in byte `i / 8` at position `i % 8` (lowest bit first); it is
/// set when `values[i]` is above zero (zeros and negatives give 0). The packing order is part of
/// the storage contract: index build and query must use it identically.
pub fn binarize(values: &[F32]) -> (r: Vec<u8>)
    ensures
        signs(values@, r@),
{
    let size: usize = packed_len(values.len());
    let mut out: Vec<u8> = Vec::new();
    while out.len() < size
        invariant
            out@.len() <= size,
            forall|j: int| 0 <= j < out@.len() ==> out@[j] == 0u8,
        decreases size - out@.len(),
    {
        out.push(0);
    }
    proof {
        assert forall|k: int| 0 <= k < 8 * out@.len() implies !#[trigger] bit(out@, k) by {
            lemma_clear((k % 8) as u8);
        }
    }
    let mut i: usize = 0;
    while i < values.len()
        invariant
            0 <= i <= values@.len(),
            out@.len() == bytes_for(values@.len() as int),
            forall|k: int|
                0 <= k < 8 * out@.len() ==> (#[trigger] bit(out@, k) <==> k < i
                    && values@[k].positive()),
        decreases values@.len() - i,
    {
        if values[i].is_positive() {
            let ghost before = out@;
            let byte: usize = i / 8;
            let b: u8 = (i % 8) as u8;
            let old_byte: u8 = out[byte];
            out.set(byte, old_byte | (1u8 << b));
            proof {
                assert forall|k: int| 0 <= k < 8 * out@.len() implies (#[trigger] bit(out@, k)
                    <==> k < i + 1 && values@[k].positive()) by {
                    assert(bit(before, k) <==> k < i && values@[k].positive());
                    lemma_set_bit(old_byte, b, (k % 8) as u8);
                    if k / 8 == byte {
                        assert(out@[k / 8] == old_byte | (1u8 << b));
                        if k % 8 == b {
                            assert(k == i);
                        }
                    } else {
                        assert(out@[k / 8] == before[k / 8]);
                    }
                }
            }
        }
        i += 1;
    }
    out
}

/// The bits determine the bytes: two packings of the same signs are the same.
pub proof fn packings_are_unique(values: Seq<F32>, a: Seq<u8>, b: Seq<u8>)
    requires
        signs(values, a),
        signs(values, b),
    ensures
        a == b,
{
    assert forall|j: int| 0 <= j < a.len() implies a[j] == b[j] by {
        let x = a[j];
        let y = b[j];
        assert forall|c: u8| c < 8 implies bit_of(x, c) == bit_of(y, c) by {
            let k = 8 * j + c;
            assert(k / 8 == j && k % 8 == c as int);
            assert(bit(a, k) == bit(b, k));
        }
        assert(bit_of(x, 0) == bit_of(y, 0));
        assert(bit_of(x, 1) == bit_of(y, 1));
        assert(bit_of(x, 2) == bit_of(y, 2));
        assert(bit_of(x, 3) == bit_of(y, 3));
        assert(bit_of(x, 4) == bit_of(y, 4));
        assert(bit_of(x, 5) == bit_of(y, 5));
        assert(bit_of(x, 6) == bit_of(y, 6));
        assert(bit_of(x, 7) == bit_of(y, 7));
        assert(x == y) by (bit_vector)
            requires
                ((x >> 0) & 1u8 == 1u8) == ((y >> 0) & 1u8 == 1u8),
                ((x >> 1) & 1u8 == 1u8) == ((y >> 1) & 1u8 == 1u8),
                ((x >> 2) & 1u8 == 1u8) == ((y >> 2) & 1u8 == 1u8),
                ((x >> 3) & 1u8 == 1u8) == ((y >> 3) & 1u8 == 1u8),
                ((x >> 4) & 1u8 == 1u8) == ((y >> 4) & 1u8 == 1u8),
                ((x >> 5) & 1u8 == 1u8) == ((y >> 5) & 1u8 == 1u8),
                ((x >> 6) & 1u8 == 1u8) == ((y >> 6) & 1u8 == 1u8),
                ((x >> 7) & 1u8 == 1u8) == ((y >> 7) & 1u8 == 1u8),
        ;
    }
    assert(a =~= b);
}

} // verus!
