use vstd::prelude::*;

verus! {

/// 256 to the power of `n`.
pub open spec fn pow256(n: nat) -> nat
    decreases n,
{
    if n == 0 {
        1
    } else {
        256 * pow256((n - 1) as nat)
    }
}

/// The number that `bytes` stand for without a sign, the most significant
/// byte first.
pub open spec fn unsigned_be(bytes: Seq<u8>) -> nat
    decreases bytes.len(),
{
    if bytes.len() == 0 {
        0
    } else {
        256 * unsigned_be(bytes.drop_last()) + bytes.last() as nat
    }
}

/// Whether `bytes`, read in two's complement, stand for a negative number:
/// the highest bit of the first byte is set.
pub open spec fn negative(bytes: Seq<u8>) -> bool {
    bytes.len() > 0 && bytes[0] >= 0x80
}

/// The number that `bytes` stand for in two's complement, the most
/// significant byte first. No bytes stand for 0.
pub open spec fn signed_be(bytes: Seq<u8>) -> int {
    if negative(bytes) {
        unsigned_be(bytes) - pow256(bytes.len())
    } else {
        unsigned_be(bytes) as int
    }
}

/// The number that `bytes` stand for in two's complement, the least
/// significant byte first.
pub open spec fn signed_le(bytes: Seq<u8>) -> int {
    signed_be(bytes.reverse())
}

/// Whether `bytes` are the shortest two's complement form of their number:
/// at least one byte, and no first byte that only repeats the sign.
pub open spec fn minimal(bytes: Seq<u8>) -> bool {
    &&& bytes.len() >= 1
    &&& bytes.len() >= 2 ==> {
        &&& !(bytes[0] == 0x00 && bytes[1] < 0x80)
        &&& !(bytes[0] == 0xff && bytes[1] >= 0x80)
    }
}

/// Whether `value` can be written in 32 bytes of two's complement.
pub open spec fn in_range(value: int) -> bool {
    -(pow256(32) as int) <= 2 * value < pow256(32)
}

/// Whether `value` can be written in 32 bytes without a sign.
pub open spec fn in_unsigned_range(value: int) -> bool {
    0 <= value < pow256(32)
}

/// `count` bytes that repeat the sign of `bytes`.
pub open spec fn sign_bytes(bytes: Seq<u8>, count: nat) -> Seq<u8> {
    Seq::new(
        count,
        |i: int|
            if negative(bytes) {
                0xffu8
            } else {
                0x00u8
            },
    )
}

/// The quotient of `a` by `b`, rounded towards zero.
pub open spec fn truncated_div(a: int, b: int) -> int
    recommends
        b != 0,
{
    if (a >= 0) == (b > 0) {
        magnitude(a) / magnitude(b)
    } else {
        -(magnitude(a) / magnitude(b))
    }
}

/// What is left of `a` after the division by `b` that rounds towards zero:
/// it has the sign of `a`.
pub open spec fn truncated_rem(a: int, b: int) -> int
    recommends
        b != 0,
{
    if a >= 0 {
        magnitude(a) % magnitude(b)
    } else {
        -(magnitude(a) % magnitude(b))
    }
}

/// The distance of `a` from 0.
pub open spec fn magnitude(a: int) -> int {
    if a >= 0 {
        a
    } else {
        -a
    }
}

/// Powers of 256 are positive and do not fall.
pub proof fn lemma_pow256_monotonic(m: nat, n: nat)
    requires
        m <= n,
    ensures
        1 <= pow256(m) <= pow256(n),
    decreases n,
{
    if n > 0 && m == n {
        lemma_pow256_monotonic(0, (n - 1) as nat);
    } else if n > 0 {
        lemma_pow256_monotonic(m, (n - 1) as nat);
    }
}

/// A number written in `n` bytes is below 256 to the `n`.
pub proof fn lemma_unsigned_bound(bytes: Seq<u8>)
    ensures
        unsigned_be(bytes) < pow256(bytes.len()),
    decreases bytes.len(),
{
    if bytes.len() > 0 {
        lemma_unsigned_bound(bytes.drop_last());
    }
}

/// The first byte counts 256 to the number of bytes that follow it.
pub proof fn lemma_unsigned_front(bytes: Seq<u8>)
    requires
        bytes.len() >= 1,
    ensures
        unsigned_be(bytes) == bytes[0] * pow256((bytes.len() - 1) as nat) + unsigned_be(
            bytes.skip(1),
        ),
    decreases bytes.len(),
{
    let first = bytes[0] as int;
    if bytes.len() == 1 {
        assert(unsigned_be(bytes.drop_last()) == 0);
        assert(first * 1 == first) by (nonlinear_arith);
    } else {
        let front = bytes.drop_last();
        let rest = bytes.skip(1);
        lemma_unsigned_front(front);
        assert(front.skip(1) =~= rest.drop_last());
        let lower = pow256((bytes.len() - 2) as nat) as int;
        assert(256 * (first * lower) == first * (256 * lower)) by (nonlinear_arith);
    }
}

/// A number written in `n` bytes of two's complement lies between minus a
/// half of 256 to the `n` and a half of it.
pub proof fn lemma_signed_range(bytes: Seq<u8>)
    requires
        bytes.len() >= 1,
    ensures
        -(pow256(bytes.len()) as int) <= 2 * signed_be(bytes) < pow256(bytes.len()),
        negative(bytes) <==> signed_be(bytes) < 0,
{
    lemma_unsigned_front(bytes);
    lemma_unsigned_bound(bytes.skip(1));
    let lower = pow256((bytes.len() - 1) as nat) as int;
    let first = bytes[0] as int;
    if first < 128 {
        assert(first * lower + lower <= 128 * lower) by (nonlinear_arith)
            requires
                first < 128,
                lower >= 0,
        ;
    } else {
        assert(first * lower >= 128 * lower) by (nonlinear_arith)
            requires
                first >= 128,
                lower >= 0,
        ;
        assert(first * lower + lower <= 256 * lower) by (nonlinear_arith)
            requires
                first <= 255,
                lower >= 0,
        ;
    }
}

/// One more byte in front that repeats the sign changes nothing.
pub proof fn lemma_sign_extend_one(bytes: Seq<u8>)
    requires
        bytes.len() >= 1,
    ensures
        signed_be(sign_bytes(bytes, 1) + bytes) == signed_be(bytes),
        negative(sign_bytes(bytes, 1) + bytes) == negative(bytes),
{
    let longer = sign_bytes(bytes, 1) + bytes;
    lemma_unsigned_front(longer);
    assert(longer.skip(1) =~= bytes);
    let whole = pow256(bytes.len()) as int;
    if !negative(bytes) {
        assert(0 * whole == 0) by (nonlinear_arith);
    }
}

/// Any number of bytes in front that repeat the sign change nothing.
pub proof fn lemma_sign_extend(bytes: Seq<u8>, count: nat)
    requires
        bytes.len() >= 1,
    ensures
        signed_be(sign_bytes(bytes, count) + bytes) == signed_be(bytes),
        negative(sign_bytes(bytes, count) + bytes) == negative(bytes),
    decreases count,
{
    if count > 0 {
        let shorter = sign_bytes(bytes, (count - 1) as nat) + bytes;
        lemma_sign_extend(bytes, (count - 1) as nat);
        lemma_sign_extend_one(shorter);
        assert(sign_bytes(shorter, 1) + shorter =~= sign_bytes(bytes, count) + bytes);
    }
}

/// Up to 32 bytes of two's complement stand for a number within the range
/// of 32 bytes.
pub proof fn lemma_short_in_range(bytes: Seq<u8>)
    requires
        1 <= bytes.len() <= 32,
    ensures
        in_range(signed_be(bytes)),
{
    lemma_signed_range(bytes);
    lemma_pow256_monotonic(bytes.len(), 32);
}

/// A number whose two's complement form is at least `n >= 2` bytes at its
/// shortest is at least a half of 256 to the `n - 1`, or below minus that.
pub proof fn lemma_minimal_is_large(bytes: Seq<u8>)
    requires
        minimal(bytes),
        bytes.len() >= 2,
    ensures
        negative(bytes) ==> 2 * signed_be(bytes) < -(pow256((bytes.len() - 1) as nat) as int),
        !negative(bytes) ==> 2 * signed_be(bytes) >= pow256((bytes.len() - 1) as nat),
{
    let rest = bytes.skip(1);
    lemma_unsigned_front(bytes);
    lemma_unsigned_front(rest);
    lemma_unsigned_bound(rest.skip(1));
    lemma_unsigned_bound(rest);
    let lower = pow256((bytes.len() - 1) as nat) as int;
    let lowest = pow256((bytes.len() - 2) as nat) as int;
    assert(lower == 256 * lowest);
    let first = bytes[0] as int;
    let second = bytes[1] as int;
    if first >= 0x80 {
        if first <= 0xfe {
            assert(first * lower <= 254 * lower) by (nonlinear_arith)
                requires
                    first <= 254,
                    lower >= 0,
            ;
        } else {
            assert(second * lowest + lowest <= 128 * lowest) by (nonlinear_arith)
                requires
                    second < 128,
                    lowest >= 0,
            ;
        }
    } else {
        if first >= 1 {
            assert(first * lower >= lower) by (nonlinear_arith)
                requires
                    first >= 1,
                    lower >= 0,
            ;
        } else {
            assert(first * lower == 0);
            assert(second * lowest >= 128 * lowest) by (nonlinear_arith)
                requires
                    second >= 128,
                    lowest >= 0,
            ;
        }
    }
}

/// The shortest two's complement form of a number has at most 32 bytes
/// exactly when the number is within the range of 32 bytes.
pub proof fn lemma_minimal_range(bytes: Seq<u8>)
    requires
        minimal(bytes),
    ensures
        in_range(signed_be(bytes)) <==> bytes.len() <= 32,
{
    if bytes.len() <= 32 {
        lemma_short_in_range(bytes);
    } else {
        lemma_minimal_is_large(bytes);
        lemma_pow256_monotonic(32, (bytes.len() - 1) as nat);
    }
}

/// A number that is not negative fits in 32 bytes without a sign exactly
/// when its shortest two's complement form has at most 32 bytes, or 33 with
/// a zero in front.
pub proof fn lemma_minimal_unsigned_range(bytes: Seq<u8>)
    requires
        minimal(bytes),
        !negative(bytes),
    ensures
        in_unsigned_range(signed_be(bytes)) <==> (bytes.len() <= 32 || (bytes.len() == 33
            && bytes[0] == 0)),
        bytes.len() == 33 && bytes[0] == 0 ==> signed_be(bytes) == unsigned_be(bytes.skip(1)),
{
    lemma_unsigned_bound(bytes);
    if bytes.len() <= 32 {
        lemma_pow256_monotonic(bytes.len(), 32);
    } else if bytes.len() == 33 {
        lemma_unsigned_front(bytes);
        lemma_unsigned_bound(bytes.skip(1));
        let lower = pow256(32) as int;
        let first = bytes[0] as int;
        if first >= 1 {
            assert(first * lower >= lower) by (nonlinear_arith)
                requires
                    first >= 1,
                    lower >= 0,
            ;
        }
    } else {
        lemma_minimal_is_large(bytes);
        lemma_pow256_monotonic(33, (bytes.len() - 1) as nat);
    }
}

} // verus!
