//! Bit-precise field codec.
//!
//! A register payload is a byte buffer; a field is the bit span
//! `first_bit ..= last_bit` inside it, counted little-endian: bit 0 is the
//! lowest bit of byte 0. [`decode`] reads such a span as an unsigned integer,
//! [`encode`] writes one back, leaving every bit outside the span exactly as
//! it was. Both are specified against the spec-level [`get_field`] and
//! [`set_field`], and [`lemma_field_round_trip`] states the law that decoding
//! an encoded field yields the value that was written.

use vstd::prelude::*;
use vstd::arithmetic::power2::{
    lemma2_to64, lemma2_to64_rest, lemma_pow2_strictly_increases, lemma_pow2_unfold, pow2,
};

verus! {

/// Whether bit `i` of `buf` is set. Bit 0 is the lowest bit of byte 0,
/// bit 8 the lowest bit of byte 1, and so on.
pub open spec fn bit_of(buf: Seq<u8>, i: int) -> bool
    recommends
        0 <= i < buf.len() * 8,
{
    (buf[i / 8] >> ((i % 8) as u8)) & 1 == 1
}

/// Whether bit `k` of `value` is set.
pub open spec fn value_bit(value: u64, k: int) -> bool
    recommends
        0 <= k < 64,
{
    (value >> (k as u64)) & 1 == 1
}

/// The unsigned value of the bit span `first ..= last` of `buf`: bit `first`
/// is the lowest bit of the result.
pub open spec fn get_field(buf: Seq<u8>, first: int, last: int) -> nat
    recommends
        0 <= first,
        last < buf.len() * 8,
    decreases last + 1 - first,
{
    if last < first {
        0
    } else {
        (if bit_of(buf, first) {
            1nat
        } else {
            0nat
        }) + 2 * get_field(buf, first + 1, last)
    }
}

/// Bit `i` of the buffer that results from writing `value` into the span
/// `first ..= last` of `buf`.
pub open spec fn field_bit(buf: Seq<u8>, first: int, last: int, value: u64, i: int) -> bool {
    if first <= i && i <= last {
        value_bit(value, i - first)
    } else {
        bit_of(buf, i)
    }
}

/// A byte assembled from its eight bits, lowest first.
pub open spec fn byte_from_bits(
    b0: bool,
    b1: bool,
    b2: bool,
    b3: bool,
    b4: bool,
    b5: bool,
    b6: bool,
    b7: bool,
) -> u8 {
    (if b0 { 1u8 } else { 0u8 }) | (if b1 { 2u8 } else { 0u8 }) | (if b2 { 4u8 } else { 0u8 })
        | (if b3 { 8u8 } else { 0u8 }) | (if b4 { 16u8 } else { 0u8 }) | (if b5 {
        32u8
    } else {
        0u8
    }) | (if b6 { 64u8 } else { 0u8 }) | (if b7 { 128u8 } else { 0u8 })
}

/// The buffer after `value`'s low bits replace the span `first ..= last`;
/// every bit outside the span keeps its old value.
pub open spec fn set_field(buf: Seq<u8>, first: int, last: int, value: u64) -> Seq<u8> {
    Seq::new(
        buf.len(),
        |j: int|
            byte_from_bits(
                field_bit(buf, first, last, value, 8 * j + 0),
                field_bit(buf, first, last, value, 8 * j + 1),
                field_bit(buf, first, last, value, 8 * j + 2),
                field_bit(buf, first, last, value, 8 * j + 3),
                field_bit(buf, first, last, value, 8 * j + 4),
                field_bit(buf, first, last, value, 8 * j + 5),
                field_bit(buf, first, last, value, 8 * j + 6),
                field_bit(buf, first, last, value, 8 * j + 7),
            ),
    )
}

/// A field description is meaningful for a buffer of `len` bytes: the span is
/// ordered, lies inside the buffer, and is at most 64 bits wide.
pub open spec fn span_wf(first: int, last: int, len: int) -> bool {
    0 <= first <= last && last < len * 8 && last - first < 64
}

proof fn lemma_byte_from_bits_select(
    b0: bool,
    b1: bool,
    b2: bool,
    b3: bool,
    b4: bool,
    b5: bool,
    b6: bool,
    b7: bool,
    k: u8,
)
    by (bit_vector)
    requires
        k < 8,
    ensures
        ((byte_from_bits(b0, b1, b2, b3, b4, b5, b6, b7) >> k) & 1 == 1) == (if k == 0 {
            b0
        } else if k == 1 {
            b1
        } else if k == 2 {
            b2
        } else if k == 3 {
            b3
        } else if k == 4 {
            b4
        } else if k == 5 {
            b5
        } else if k == 6 {
            b6
        } else {
            b7
        }),
{
}

/// Writing a field sets exactly the bits of the span to the value's bits and
/// leaves every other bit as it was.
pub proof fn lemma_set_field_bit(buf: Seq<u8>, first: int, last: int, value: u64, i: int)
    requires
        0 <= i < buf.len() * 8,
    ensures
        bit_of(set_field(buf, first, last, value), i) == field_bit(buf, first, last, value, i),
{
    let s = set_field(buf, first, last, value);
    let j = i / 8;
    let k = i % 8;
    assert(0 <= j < buf.len());
    assert(i == 8 * j + k);
    lemma_byte_from_bits_select(
        field_bit(buf, first, last, value, 8 * j + 0),
        field_bit(buf, first, last, value, 8 * j + 1),
        field_bit(buf, first, last, value, 8 * j + 2),
        field_bit(buf, first, last, value, 8 * j + 3),
        field_bit(buf, first, last, value, 8 * j + 4),
        field_bit(buf, first, last, value, 8 * j + 5),
        field_bit(buf, first, last, value, 8 * j + 6),
        field_bit(buf, first, last, value, 8 * j + 7),
        k as u8,
    );
}

/// A field of `w` bits holds a value below `2^w`.
pub proof fn lemma_get_field_bound(buf: Seq<u8>, first: int, last: int)
    requires
        first <= last + 1,
    ensures
        get_field(buf, first, last) < pow2((last + 1 - first) as nat),
    decreases last + 1 - first,
{
    if last < first {
        lemma2_to64();
    } else {
        lemma_get_field_bound(buf, first + 1, last);
        lemma_pow2_unfold((last + 1 - first) as nat);
    }
}

/// A buffer whose span bits spell out `value` holds `value` in that field.
proof fn lemma_get_field_from_bits(buf: Seq<u8>, first: int, last: int, value: u64)
    requires
        0 <= first,
        first <= last + 1,
        last - first < 64,
        value < pow2((last + 1 - first) as nat),
        forall|k: int|
            0 <= k <= last - first ==> (bit_of(buf, first + k) == value_bit(value, k)),
    ensures
        get_field(buf, first, last) == value,
    decreases last + 1 - first,
{
    if last < first {
        lemma2_to64();
    } else {
        let w = (last + 1 - first) as nat;
        let tail = value >> 1u64;
        assert(value == 2 * (value >> 1u64) + (value & 1) && (value & 1) < 2) by (bit_vector);
        assert(value_bit(value, 0) == (value & 1 == 1)) by (bit_vector);
        lemma_pow2_unfold(w);
        assert(forall|k: int|
            0 <= k <= last - (first + 1) ==> (bit_of(buf, first + 1 + k) == value_bit(
                tail,
                k,
            ))) by {
            assert forall|k: int| 0 <= k <= last - (first + 1) implies bit_of(buf, first + 1 + k)
                == value_bit(tail, k) by {
                assert(bit_of(buf, first + (k + 1)) == value_bit(value, k + 1));
                let ku = k as u64;
                let ku1 = (k + 1) as u64;
                assert(((value >> 1u64) >> ku) & 1 == (value >> ku1) & 1) by (bit_vector)
                    requires
                        ku < 63 && ku1 == ku + 1,
                ;
            }
        }
        lemma_get_field_from_bits(buf, first + 1, last, tail);
        assert(bit_of(buf, first + 0) == value_bit(value, 0));
    }
}

/// A single-bit field holds one exactly when its bit is set.
pub proof fn lemma_get_field_single(buf: Seq<u8>, i: int)
    ensures
        get_field(buf, i, i) == (if bit_of(buf, i) {
            1nat
        } else {
            0nat
        }),
{
    assert(get_field(buf, i + 1, i) == 0);
}

/// Round-trip law: decoding the span that `value` was just encoded into
/// yields `value` again.
pub proof fn lemma_field_round_trip(buf: Seq<u8>, first: int, last: int, value: u64)
    requires
        span_wf(first, last, buf.len() as int),
        value < pow2((last + 1 - first) as nat),
    ensures
        get_field(set_field(buf, first, last, value), first, last) == value,
{
    let s = set_field(buf, first, last, value);
    assert forall|k: int| 0 <= k <= last - first implies bit_of(s, first + k) == value_bit(
        value,
        k,
    ) by {
        lemma_set_field_bit(buf, first, last, value, first + k);
    }
    lemma_get_field_from_bits(s, first, last, value);
}

/// Encoding never changes a bit outside the span, nor the buffer's length.
pub proof fn lemma_set_field_untouched(buf: Seq<u8>, first: int, last: int, value: u64, i: int)
    requires
        0 <= i < buf.len() * 8,
        !(first <= i <= last),
    ensures
        set_field(buf, first, last, value).len() == buf.len(),
        bit_of(set_field(buf, first, last, value), i) == bit_of(buf, i),
{
    lemma_set_field_bit(buf, first, last, value, i);
}

/// Reads the bit span `first ..= last` of `buf` as an unsigned integer whose
/// lowest bit is bit `first`.
pub fn decode(buf: &Vec<u8>, first: usize, last: usize) -> (r: u64)
    requires
        span_wf(first as int, last as int, buf@.len() as int),
    ensures
        r == get_field(buf@, first as int, last as int),
        r < pow2((last + 1 - first) as nat),
{
    proof {
        lemma_get_field_bound(buf@, first as int, last as int);
        lemma2_to64();
    }
    let width = last - first + 1;
    let mut n: usize = width;
    let mut r: u64 = 0;
    while n > 0
        invariant
            span_wf(first as int, last as int, buf@.len() as int),
            width == last - first + 1,
            n <= width,
            r == get_field(buf@, first + n, last as int),
            r < pow2((width - n) as nat),
        decreases n,
    {
        proof {
            lemma_pow2_unfold((width - n + 1) as nat);
            if width - n < 63 {
                lemma_pow2_strictly_increases((width - n) as nat, 63);
            }
            lemma2_to64_rest();
        }
        n = n - 1;
        let i = first + n;
        let b = (buf[i / 8] >> ((i % 8) as u8)) & 1;
        let r0 = r;
        r = (r << 1u64) | (b as u64);
        proof {
            let y = buf@[i as int / 8];
            let kk = (i % 8) as u8;
            assert((y >> kk) & 1 < 2) by (bit_vector);
            assert(b == (y >> kk) & 1);
            let bv = b as u64;
            assert(r0 < 0x8000_0000_0000_0000 && bv < 2 ==> ((r0 << 1u64) | bv) == 2 * r0 + bv)
                by (bit_vector);
            assert(pow2(63) == 0x8000_0000_0000_0000);
            assert(bit_of(buf@, first + n) == (b == 1));
        }
    }
    r
}

/// Writes `value` into the bit span `first ..= last` of `buf`; every bit
/// outside the span is preserved exactly.
pub fn encode(buf: &mut Vec<u8>, first: usize, last: usize, value: u64)
    requires
        span_wf(first as int, last as int, old(buf)@.len() as int),
        value < pow2((last + 1 - first) as nat),
    ensures
        final(buf)@ == set_field(old(buf)@, first as int, last as int, value),
{
    let width = last - first + 1;
    let mut t: usize = 0;
    while t < width
        invariant
            span_wf(first as int, last as int, old(buf)@.len() as int),
            width == last - first + 1,
            t <= width,
            buf@.len() == old(buf)@.len(),
            forall|b: int|
                0 <= b < buf@.len() * 8 ==> bit_of(buf@, b) == (if first <= b < first + t {
                    value_bit(value, b - first)
                } else {
                    bit_of(old(buf)@, b)
                }),
        decreases width - t,
    {
        let i = first + t;
        let q = i / 8;
        let k = (i % 8) as u8;
        let vb = ((value >> ((i - first) as u64)) & 1) as u8;
        let ghost prev = buf@;
        let old_byte = buf[q];
        let new_byte = if vb == 1 {
            old_byte | (1u8 << k)
        } else {
            old_byte & !(1u8 << k)
        };
        buf[q] = new_byte;
        proof {
            let sh = (i - first) as u64;
            assert(((value >> sh) & 1) < 2) by (bit_vector);
            assert(vb == 1 <==> value_bit(value, i - first));
            assert forall|b: int| 0 <= b < buf@.len() * 8 implies bit_of(buf@, b) == (if first <= b
                < first + t + 1 {
                value_bit(value, b - first)
            } else {
                bit_of(old(buf)@, b)
            }) by {
                let bj = b / 8;
                let bk = b % 8;
                assert(0 <= bj < buf@.len());
                assert(b == 8 * bj + bk);
                assert(bit_of(prev, b) == (if first <= b < first + t {
                    value_bit(value, b - first)
                } else {
                    bit_of(old(buf)@, b)
                }));
                if bj == q as int {
                    lemma_u8_update_bit_case(old_byte, k, bk as u8, vb == 1);
                    assert(buf@[bj] == new_byte);
                    assert(old_byte == prev[bj]);
                    assert(bk == k as int <==> b == i);
                    if bk == k as int {
                        assert(bit_of(buf@, b) == (vb == 1));
                    } else {
                        assert(bit_of(buf@, b) == bit_of(prev, b));
                    }
                } else {
                    assert(buf@[bj] == prev[bj]);
                    assert(b != i);
                    assert(bit_of(buf@, b) == bit_of(prev, b));
                }
            }
        }
        t = t + 1;
    }
    proof {
        let sf = set_field(old(buf)@, first as int, last as int, value);
        assert forall|j: int| 0 <= j < buf@.len() implies buf@[j] == sf[j] by {
            assert forall|m: int| 0 <= m < 8 implies #[trigger] bit_of(buf@, 8 * j + m) == bit_of(
                sf,
                8 * j + m,
            ) by {
                lemma_set_field_bit(old(buf)@, first as int, last as int, value, 8 * j + m);
            }
            lemma_u8_eq_by_bits(buf@[j], sf[j], 8 * j, buf@, sf);
        }
        assert(buf@ =~= sf);
    }
}

proof fn lemma_u8_update_bit_case(x: u8, k: u8, m: u8, set: bool)
    by (bit_vector)
    requires
        k < 8,
        m < 8,
    ensures
        set ==> (((x | (1u8 << k)) >> m) & 1 == 1) == (if m == k {
            true
        } else {
            (x >> m) & 1 == 1
        }),
        !set ==> (((x & !(1u8 << k)) >> m) & 1 == 1) == (if m == k {
            false
        } else {
            (x >> m) & 1 == 1
        }),
{
}

/// Two bytes whose eight bits agree are equal. The sequences and base offset
/// only serve to phrase the bit facts the way the caller has them.
proof fn lemma_u8_eq_by_bits(x: u8, y: u8, base: int, bx: Seq<u8>, by_: Seq<u8>)
    requires
        base % 8 == 0,
        0 <= base / 8 < bx.len(),
        0 <= base / 8 < by_.len(),
        bx[base / 8] == x,
        by_[base / 8] == y,
        forall|m: int| 0 <= m < 8 ==> #[trigger] bit_of(bx, base + m) == bit_of(by_, base + m),
    ensures
        x == y,
{
    assert forall|m: u8| m < 8 implies ((x >> m) & 1 == 1) == ((y >> m) & 1 == 1) by {
        let mi = m as int;
        assert((base + mi) / 8 == base / 8 && (base + mi) % 8 == mi);
        assert(bit_of(bx, base + mi) == bit_of(by_, base + mi));
    }
    lemma_u8_eq_by_bits_bv(x, y);
}

proof fn lemma_u8_eq_by_bits_bv(x: u8, y: u8)
    by (bit_vector)
    requires
        ((x >> 0u8) & 1 == 1) == ((y >> 0u8) & 1 == 1),
        ((x >> 1u8) & 1 == 1) == ((y >> 1u8) & 1 == 1),
        ((x >> 2u8) & 1 == 1) == ((y >> 2u8) & 1 == 1),
        ((x >> 3u8) & 1 == 1) == ((y >> 3u8) & 1 == 1),
        ((x >> 4u8) & 1 == 1) == ((y >> 4u8) & 1 == 1),
        ((x >> 5u8) & 1 == 1) == ((y >> 5u8) & 1 == 1),
        ((x >> 6u8) & 1 == 1) == ((y >> 6u8) & 1 == 1),
        ((x >> 7u8) & 1 == 1) == ((y >> 7u8) & 1 == 1),
    ensures
        x == y,
{
}

} // verus!
