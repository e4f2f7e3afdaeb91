//! Variable-length integers.
//!
//! A varint occupies 1, 2, 4 or 8 bytes. The two highest bits of its first
//! byte say which; the remaining 6, 14, 30 or 62 bits hold the value in
//! big-endian order. The encoder always picks the shortest form.

use crate::error::Error;
use vstd::prelude::*;

verus! {

/// The largest value a varint can carry: 2^62 - 1.
pub const VARINT_MAX: u64 = 4611686018427387903;

/// 256 to the power `n`.
pub open spec fn pow256(n: nat) -> nat
    decreases n,
{
    if n == 0 {
        1
    } else {
        256 * pow256((n - 1) as nat)
    }
}

/// The number that `bytes` spell in big-endian order.
pub open spec fn be_value(bytes: Seq<u8>) -> nat
    decreases bytes.len(),
{
    if bytes.len() == 0 {
        0
    } else {
        be_value(bytes.drop_last()) * 256 + bytes.last() as nat
    }
}

/// The low `width` bytes of `value`, most significant first.
pub open spec fn be_bytes(value: nat, width: nat) -> Seq<u8>
    decreases width,
{
    if width == 0 {
        Seq::empty()
    } else {
        be_bytes(value / 256, (width - 1) as nat).push((value % 256) as u8)
    }
}

/// The width of the shortest varint that holds `v`.
pub open spec fn minimal_width(v: u64) -> usize {
    if v <= 63 {
        1
    } else if v <= 16383 {
        2
    } else if v <= 1073741823 {
        4
    } else {
        8
    }
}

/// The width that a varint's first byte announces.
pub open spec fn declared_width(first: u8) -> usize {
    if first < 64 {
        1
    } else if first < 128 {
        2
    } else if first < 192 {
        4
    } else {
        8
    }
}

/// The two selector bits of a varint of `width` bytes, at their place in
/// the big-endian number that the whole varint spells.
pub open spec fn width_marker(width: usize) -> nat {
    if width == 1 {
        0
    } else if width == 2 {
        0x4000
    } else if width == 4 {
        0x8000_0000
    } else {
        0xC000_0000_0000_0000
    }
}

/// The bytes of the varint for `v`, which must not exceed `VARINT_MAX`.
pub open spec fn varint_bytes(v: u64) -> Seq<u8>
    recommends
        v <= VARINT_MAX,
{
    be_bytes(v as nat + width_marker(minimal_width(v)), minimal_width(v) as nat)
}

/// The value of a whole varint: its bytes in big-endian order, the two
/// selector bits of the first byte cleared.
pub open spec fn varint_value(bytes: Seq<u8>) -> nat
    recommends
        bytes.len() > 0,
{
    be_value(bytes.update(0, (bytes[0] % 64) as u8))
}

/// What decoding a varint from the front of `buf` gives.
pub open spec fn decode_varint_spec(buf: Seq<u8>) -> Result<(u64, usize), Error> {
    if buf.len() == 0 {
        Err(Error::IncompleteInput { needed_min: 1, available: 0 })
    } else if buf.len() < declared_width(buf[0]) {
        Err(
            Error::IncompleteInput {
                needed_min: declared_width(buf[0]),
                available: buf.len() as usize,
            },
        )
    } else {
        Ok(
            (
                varint_value(buf.subrange(0, declared_width(buf[0]) as int)) as u64,
                declared_width(buf[0]),
            ),
        )
    }
}

/// What encoding `v` into a buffer of `available` bytes returns.
pub open spec fn encode_varint_spec(v: u64, available: usize) -> Result<usize, Error> {
    if v > VARINT_MAX {
        Err(Error::InvalidVarInt)
    } else if available < minimal_width(v) {
        Err(Error::BufferTooSmall { needed: minimal_width(v), available })
    } else {
        Ok(minimal_width(v))
    }
}

/// The powers of 256 that fit in 64 bits, and the first that does not.
pub proof fn lemma_pow256_values()
    ensures
        pow256(0) == 1,
        pow256(1) == 0x100,
        pow256(2) == 0x1_0000,
        pow256(3) == 0x100_0000,
        pow256(4) == 0x1_0000_0000,
        pow256(5) == 0x100_0000_0000,
        pow256(6) == 0x1_0000_0000_0000,
        pow256(7) == 0x100_0000_0000_0000,
        pow256(8) == 0x1_0000_0000_0000_0000,
{
    reveal_with_fuel(pow256, 9);
}

/// A big-endian number of `n` bytes is below 256 to the `n`.
pub proof fn lemma_be_value_bound(bytes: Seq<u8>)
    ensures
        be_value(bytes) < pow256(bytes.len()),
    decreases bytes.len(),
{
    if bytes.len() > 0 {
        lemma_be_value_bound(bytes.drop_last());
    }
}

/// The first byte weighs 256 to the number of bytes that follow it.
pub proof fn lemma_be_value_first(bytes: Seq<u8>)
    requires
        bytes.len() > 0,
    ensures
        be_value(bytes) == bytes[0] as nat * pow256((bytes.len() - 1) as nat) + be_value(
            bytes.subrange(1, bytes.len() as int),
        ),
    decreases bytes.len(),
{
    let n = bytes.len();
    if n == 1 {
        assert(bytes.drop_last() =~= Seq::<u8>::empty());
        assert(bytes.subrange(1, 1) =~= Seq::<u8>::empty());
        assert(be_value(bytes.drop_last()) == 0);
        assert(be_value(bytes.subrange(1, 1)) == 0);
        assert(be_value(bytes) == bytes[0] as nat);
        let one = pow256(0);
        assert(bytes[0] as nat * one == bytes[0] as nat) by (nonlinear_arith)
            requires
                one == 1,
        ;
    } else {
        let front = bytes.drop_last();
        lemma_be_value_first(front);
        assert(front.subrange(1, front.len() as int) =~= bytes.subrange(1, n as int).drop_last());
        assert(bytes.subrange(1, n as int).last() == bytes.last());
        assert(front[0] == bytes[0]);
        let tail = bytes.subrange(1, n as int);
        let p = pow256((n - 2) as nat);
        let b = bytes[0] as nat;
        let x = be_value(tail.drop_last());
        assert(pow256((n - 1) as nat) == 256 * p);
        assert(be_value(front) == b * p + x);
        assert(be_value(tail) == x * 256 + bytes.last() as nat);
        assert((b * p + x) * 256 == b * (256 * p) + x * 256) by (nonlinear_arith);
        assert(be_value(bytes) == b * pow256((n - 1) as nat) + be_value(tail));
    }
}

/// `be_bytes` gives as many bytes as it is asked for.
pub proof fn lemma_be_bytes_len(value: nat, width: nat)
    ensures
        be_bytes(value, width).len() == width,
    decreases width,
{
    if width > 0 {
        lemma_be_bytes_len(value / 256, (width - 1) as nat);
    }
}

/// Reading back the bytes of a number that fits gives the number.
pub proof fn lemma_be_round_trip(value: nat, width: nat)
    requires
        value < pow256(width),
    ensures
        be_value(be_bytes(value, width)) == value,
    decreases width,
{
    if width > 0 {
        let rest = be_bytes(value / 256, (width - 1) as nat);
        lemma_be_round_trip(value / 256, (width - 1) as nat);
        assert(be_bytes(value, width).drop_last() =~= rest);
    }
}

/// Powers of 256 grow with the exponent.
pub proof fn lemma_pow256_monotonic(a: nat, b: nat)
    requires
        a <= b,
    ensures
        pow256(a) <= pow256(b),
        pow256(a) >= 1,
    decreases b,
{
    if a < b {
        lemma_pow256_monotonic(a, (b - 1) as nat);
    } else if a > 0 {
        lemma_pow256_monotonic((a - 1) as nat, (a - 1) as nat);
    }
}

/// The encoding of `v` has the minimal width, announces that width in its
/// first byte, and carries `v`.
pub proof fn lemma_varint_bytes(v: u64)
    requires
        v <= VARINT_MAX,
    ensures
        varint_bytes(v).len() == minimal_width(v),
        declared_width(varint_bytes(v)[0]) == minimal_width(v),
        varint_value(varint_bytes(v)) == v,
{
    let w = minimal_width(v);
    let total = v as nat + width_marker(w);
    lemma_pow256_values();
    lemma_be_bytes_len(total, w as nat);
    lemma_be_round_trip(total, w as nat);
    let bytes = varint_bytes(v);
    let tail = bytes.subrange(1, w as int);
    let cleared = bytes.update(0, (bytes[0] % 64) as u8);
    lemma_be_value_first(bytes);
    lemma_be_value_first(cleared);
    lemma_be_value_bound(tail);
    assert(cleared.subrange(1, w as int) =~= tail);
    let p = pow256((w - 1) as nat);
    let first = bytes[0] as nat;
    let low = be_value(tail);
    assert(low < p);
    assert(total == first * p + low);
    assert(be_value(cleared) == (first % 64) * p + low);
    let value = be_value(cleared);
    if w == 1 {
        assert(tail =~= Seq::<u8>::empty());
        assert(first == v && value == v) by (nonlinear_arith)
            requires
                p == 1,
                low == 0,
                v <= 63,
                total == v,
                total == first * p + low,
                value == (first % 64) * p + low,
        ;
    } else if w == 2 {
        assert(64 <= first < 128 && value == v) by (nonlinear_arith)
            requires
                p == 0x100,
                low < p,
                64 <= v <= 16383,
                total == v + 0x4000,
                total == first * p + low,
                value == (first % 64) * p + low,
        ;
    } else if w == 4 {
        assert(128 <= first < 192 && value == v) by (nonlinear_arith)
            requires
                p == 0x100_0000,
                low < p,
                16384 <= v <= 1073741823,
                total == v + 0x8000_0000,
                total == first * p + low,
                value == (first % 64) * p + low,
        ;
    } else {
        assert(192 <= first < 256 && value == v) by (nonlinear_arith)
            requires
                p == 0x100_0000_0000_0000,
                low < p,
                first < 256,
                1073741824 <= v <= 4611686018427387903,
                total == v + 0xC000_0000_0000_0000,
                total == first * p + low,
                value == (first % 64) * p + low,
        ;
    }
}

/// Decoding what `encode_varint` wrote gives the value back and consumes
/// exactly the bytes written, whatever follows them.
pub proof fn lemma_varint_round_trip(v: u64, following: Seq<u8>)
    requires
        v <= VARINT_MAX,
    ensures
        decode_varint_spec(varint_bytes(v) + following) == Ok::<(u64, usize), Error>(
            (v, minimal_width(v)),
        ),
{
    lemma_varint_bytes(v);
    let all = varint_bytes(v) + following;
    assert(all[0] == varint_bytes(v)[0]);
    assert(all.subrange(0, minimal_width(v) as int) =~= varint_bytes(v));
}

/// Decoding looks at no byte behind the varint: the first `k` bytes of
/// `buf` decode as `buf` does if they hold the whole varint, and as
/// incomplete input if they do not.
pub proof fn lemma_decode_varint_prefix(buf: Seq<u8>, k: int)
    requires
        0 <= k <= buf.len(),
    ensures
        match decode_varint_spec(buf) {
            Ok((v, w)) => if k >= w {
                decode_varint_spec(buf.take(k)) == Ok::<(u64, usize), Error>((v, w))
            } else {
                decode_varint_spec(buf.take(k)) is Err
            },
            Err(_) => decode_varint_spec(buf.take(k)) is Err,
        },
{
    if k > 0 {
        let w = declared_width(buf[0]);
        assert(buf.take(k)[0] == buf[0]);
        if k >= w && buf.len() >= w {
            assert(buf.take(k).subrange(0, w as int) =~= buf.subrange(0, w as int));
        }
    }
}

/// A decoded varint is 1, 2, 4 or 8 bytes wide, lies within the input, and
/// its value does not exceed `VARINT_MAX`.
pub proof fn lemma_decode_varint_bounds(buf: Seq<u8>)
    ensures
        decode_varint_spec(buf) matches Ok((v, w)) ==> 1 <= w <= 8 && w <= buf.len() && v
            <= VARINT_MAX,
        decode_varint_spec(buf) matches Err(e) ==> e is IncompleteInput,
{
    if buf.len() > 0 && buf.len() >= declared_width(buf[0]) {
        let w = declared_width(buf[0]);
        let bytes = buf.subrange(0, w as int);
        let cleared = bytes.update(0, (bytes[0] % 64) as u8);
        let tail = cleared.subrange(1, w as int);
        lemma_be_value_first(cleared);
        lemma_be_value_bound(tail);
        lemma_pow256_values();
        let p = pow256((w - 1) as nat);
        let first = cleared[0] as nat;
        let low = be_value(tail);
        let value = be_value(cleared);
        assert(value < 0x4000_0000_0000_0000) by (nonlinear_arith)
            requires
                value == first * p + low,
                low < p,
                first < 64,
                p <= 0x100_0000_0000_0000,
        ;
    }
}

/// Decodes one varint from the front of `buf`.
///
/// Returns the value and the number of bytes it took, or `IncompleteInput`
/// when `buf` ends before the width that its first byte announces. Bytes
/// after the varint are not looked at.
pub fn decode_varint(buf: &[u8]) -> (r: Result<(u64, usize), Error>)
    ensures
        r == decode_varint_spec(buf@),
{
    if buf.len() == 0 {
        return Err(Error::IncompleteInput { needed_min: 1, available: 0 });
    }
    let first: u8 = buf[0];
    let length: usize = if first < 64 {
        1
    } else if first < 128 {
        2
    } else if first < 192 {
        4
    } else {
        8
    };
    if buf.len() < length {
        return Err(Error::IncompleteInput { needed_min: length, available: buf.len() });
    }
    let low: u8 = first & 0x3F;
    assert(low == first % 64) by (bit_vector)
        requires
            low == first & 0x3F,
    ;
    let ghost masked = buf@.subrange(0, length as int).update(0, low);
    let mut value: u64 = low as u64;
    let mut i: usize = 1;
    proof {
        assert(masked.subrange(0, 1).drop_last() =~= Seq::<u8>::empty());
        assert(be_value(masked.subrange(0, 1).drop_last()) == 0);
    }
    while i < length
        invariant
            1 <= i <= length <= buf@.len(),
            length <= 8,
            masked == buf@.subrange(0, length as int).update(0, low),
            value as nat == be_value(masked.subrange(0, i as int)),
        decreases length - i,
    {
        proof {
            lemma_be_value_bound(masked.subrange(0, i as int));
            lemma_pow256_monotonic(i as nat, 7);
            lemma_pow256_values();
            assert(masked.subrange(0, i + 1).drop_last() =~= masked.subrange(0, i as int));
        }
        value = value * 256 + buf[i] as u64;
        i = i + 1;
    }
    proof {
        assert(masked.subrange(0, length as int) =~= masked);
    }
    Ok((value, length))
}

/// Encodes `v` into the front of `buf` in the shortest form that holds it.
///
/// Returns the number of bytes written. A value above `VARINT_MAX` is
/// refused with `InvalidVarInt`; a buffer shorter than the encoding with
/// `BufferTooSmall`. On failure `buf` is left as it was, and bytes behind the
/// encoding are never touched.
pub fn encode_varint(v: u64, buf: &mut [u8]) -> (r: Result<usize, Error>)
    ensures
        r == encode_varint_spec(v, old(buf)@.len() as usize),
        final(buf)@.len() == old(buf)@.len(),
        r is Ok ==> final(buf)@ == varint_bytes(v) + old(buf)@.subrange(
            minimal_width(v) as int,
            old(buf)@.len() as int,
        ),
        r is Err ==> final(buf)@ == old(buf)@,
{
    if v > VARINT_MAX {
        return Err(Error::InvalidVarInt);
    }
    let width: usize = if v <= 63 {
        1
    } else if v <= 16383 {
        2
    } else if v <= 1073741823 {
        4
    } else {
        8
    };
    let marker: u64 = if v <= 63 {
        0
    } else if v <= 16383 {
        0x4000
    } else if v <= 1073741823 {
        0x8000_0000
    } else {
        0xC000_0000_0000_0000
    };
    if buf.len() < width {
        return Err(Error::BufferTooSmall { needed: width, available: buf.len() });
    }
    let ghost before = buf@;
    let ghost whole = be_bytes((v + marker) as nat, width as nat);
    let mut rest: u64 = v + marker;
    let mut i: usize = width;
    proof {
        lemma_be_bytes_len((v + marker) as nat, width as nat);
        assert(buf@.subrange(width as int, width as int) =~= Seq::<u8>::empty());
        assert(whole =~= be_bytes(rest as nat, i as nat) + buf@.subrange(i as int, width as int));
    }
    while i > 0
        invariant
            i <= width <= buf@.len(),
            buf@.len() == before.len(),
            whole == be_bytes(rest as nat, i as nat) + buf@.subrange(i as int, width as int),
            buf@.subrange(width as int, buf@.len() as int) == before.subrange(
                width as int,
                before.len() as int,
            ),
        decreases i,
    {
        let ghost prev = buf@;
        i = i - 1;
        buf[i] = (rest % 256) as u8;
        proof {
            lemma_be_bytes_len((rest / 256) as nat, i as nat);
            assert(buf@.subrange(i as int, width as int) =~= seq![(rest % 256) as u8]
                + prev.subrange(i + 1, width as int));
            assert(whole =~= be_bytes((rest / 256) as nat, i as nat) + buf@.subrange(
                i as int,
                width as int,
            ));
            assert(buf@.subrange(width as int, buf@.len() as int) =~= prev.subrange(
                width as int,
                prev.len() as int,
            ));
        }
        rest = rest / 256;
    }
    proof {
        assert(buf@ =~= whole + before.subrange(width as int, before.len() as int));
    }
    Ok(width)
}

} // verus!
