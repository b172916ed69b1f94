use vstd::prelude::*;
use num_bigint::{BigInt, ParseBigIntError};
use num_traits::Num;
use vstd::string::StrSliceExecFns;
use crate::twos::{
    in_range, in_unsigned_range, lemma_minimal_range, lemma_minimal_unsigned_range,
    lemma_sign_extend, lemma_signed_range, lemma_unsigned_front, minimal, pow256, sign_bytes,
    magnitude, signed_be, signed_le, truncated_div, truncated_rem, unsigned_be,
};

verus! {

/// A whole number, meant to be one of 256 bits with a sign.
///
/// The arithmetic is that of whole numbers without a limit; what keeps a
/// number to 256 bits is the checked operations, which give nothing for a
/// result out of range. A number in range has an encoding: its 32 bytes of
/// two's complement, the most significant byte first.
#[allow(non_camel_case_types)]
#[derive(Debug, PartialEq, Eq, Hash)]
pub struct i256 {
    bytes: Vec<u8>,
}

impl View for i256 {
    type V = int;

    closed spec fn view(&self) -> int {
        signed_be(self.bytes@)
    }
}

/// Calls `BigInt::from_signed_bytes_be` and takes the number back with
/// `BigInt::to_signed_bytes_be`: the shortest two's complement form of the
/// number that `bytes` stand for.
#[verifier::external_body]
fn shortest_be(bytes: &[u8]) -> (shortest: Vec<u8>)
    ensures
        minimal(shortest@),
        signed_be(shortest@) == signed_be(bytes@),
{
    BigInt::from_signed_bytes_be(bytes).to_signed_bytes_be()
}

/// Calls `BigInt::from_signed_bytes_le`: the number that `bytes` stand for
/// with the least significant byte first, in its shortest form with the
/// most significant byte first.
#[verifier::external_body]
fn shortest_from_le(bytes: &[u8]) -> (shortest: Vec<u8>)
    ensures
        minimal(shortest@),
        signed_be(shortest@) == signed_le(bytes@),
{
    BigInt::from_signed_bytes_le(bytes).to_signed_bytes_be()
}

/// Calls `BigInt::from` on an `i128`: the number in its shortest form.
#[verifier::external_body]
fn shortest_of_i128(n: i128) -> (shortest: Vec<u8>)
    ensures
        minimal(shortest@),
        signed_be(shortest@) == n,
{
    BigInt::from(n).to_signed_bytes_be()
}

/// Calls `BigInt::from` on a `u128`: the number in its shortest form.
#[verifier::external_body]
fn shortest_of_u128(n: u128) -> (shortest: Vec<u8>)
    ensures
        minimal(shortest@),
        signed_be(shortest@) == n,
{
    BigInt::from(n).to_signed_bytes_be()
}

/// Adds two numbers with `BigInt`'s `+`.
#[verifier::external_body]
fn sum_be(a: &[u8], b: &[u8]) -> (sum: Vec<u8>)
    ensures
        minimal(sum@),
        signed_be(sum@) == signed_be(a@) + signed_be(b@),
{
    (BigInt::from_signed_bytes_be(a) + BigInt::from_signed_bytes_be(b)).to_signed_bytes_be()
}

/// Subtracts the second number from the first with `BigInt`'s `-`.
#[verifier::external_body]
fn difference_be(a: &[u8], b: &[u8]) -> (difference: Vec<u8>)
    ensures
        minimal(difference@),
        signed_be(difference@) == signed_be(a@) - signed_be(b@),
{
    (BigInt::from_signed_bytes_be(a) - BigInt::from_signed_bytes_be(b)).to_signed_bytes_be()
}

/// Multiplies two numbers with `BigInt`'s `*`.
#[verifier::external_body]
fn product_be(a: &[u8], b: &[u8]) -> (product: Vec<u8>)
    ensures
        minimal(product@),
        signed_be(product@) == signed_be(a@) * signed_be(b@),
{
    (BigInt::from_signed_bytes_be(a) * BigInt::from_signed_bytes_be(b)).to_signed_bytes_be()
}

/// Divides the first number by the second with `BigInt`'s `/`, which rounds
/// towards zero and panics on a divisor of zero.
#[verifier::external_body]
fn quotient_be(a: &[u8], b: &[u8]) -> (quotient: Vec<u8>)
    requires
        signed_be(b@) != 0,
    ensures
        minimal(quotient@),
        signed_be(quotient@) == truncated_div(signed_be(a@), signed_be(b@)),
{
    (BigInt::from_signed_bytes_be(a) / BigInt::from_signed_bytes_be(b)).to_signed_bytes_be()
}

/// Takes the remainder of the first number by the second with `BigInt`'s
/// `%`: what the division that rounds towards zero leaves. It panics on a
/// divisor of zero.
#[verifier::external_body]
fn remainder_be(a: &[u8], b: &[u8]) -> (remainder: Vec<u8>)
    requires
        signed_be(b@) != 0,
    ensures
        minimal(remainder@),
        signed_be(remainder@) == truncated_rem(signed_be(a@), signed_be(b@)),
{
    (BigInt::from_signed_bytes_be(a) % BigInt::from_signed_bytes_be(b)).to_signed_bytes_be()
}

/// Negates a number with `BigInt`'s unary `-`.
#[verifier::external_body]
fn negation_be(a: &[u8]) -> (negation: Vec<u8>)
    ensures
        minimal(negation@),
        signed_be(negation@) == -signed_be(a@),
{
    (-BigInt::from_signed_bytes_be(a)).to_signed_bytes_be()
}

/// Compares two numbers with `BigInt`'s `<`.
#[verifier::external_body]
fn below_be(a: &[u8], b: &[u8]) -> (below: bool)
    ensures
        below == (signed_be(a@) < signed_be(b@)),
{
    BigInt::from_signed_bytes_be(a) < BigInt::from_signed_bytes_be(b)
}

/// The error of `BigInt::from_str_radix`. Nothing is known of what it
/// holds.
#[verifier::external_type_specification]
#[verifier::external_body]
pub struct ExParseBigIntError(ParseBigIntError);

/// The number that `BigInt::from_str_radix` reads from `text` in the given
/// radix, if it reads one.
pub uninterp spec fn parsed(text: Seq<char>, radix: u32) -> Option<int>;

/// The text that `str::to_lowercase` makes of `text`.
pub uninterp spec fn lowercase(text: Seq<char>) -> Seq<char>;

/// The text that `BigInt::to_str_radix` writes for `value` in the given
/// radix.
pub uninterp spec fn written(value: int, radix: u32) -> Seq<char>;

/// Calls `BigInt::from_str_radix`, which reads a number in a radix from 2
/// to 36 and panics on another radix. The number comes in its shortest form.
#[verifier::external_body]
fn shortest_from_str_radix(text: &str, radix: u32) -> (result: Result<Vec<u8>, ParseBigIntError>)
    requires
        2 <= radix <= 36,
    ensures
        match result {
            Ok(bytes) => minimal(bytes@) && parsed(text@, radix) == Some(signed_be(bytes@)),
            Err(_) => parsed(text@, radix) is None,
        },
{
    match BigInt::from_str_radix(text, radix) {
        Ok(number) => Ok(number.to_signed_bytes_be()),
        Err(e) => Err(e),
    }
}

/// Calls `str::to_lowercase`.
#[verifier::external_body]
fn lowercase_of(text: &str) -> (lowered: String)
    ensures
        lowered@ == lowercase(text@),
{
    text.to_lowercase()
}

/// Calls `BigInt::to_str_radix`, which writes a number in a radix from 2 to
/// 36 and panics on another radix.
#[verifier::external_body]
fn write_radix(a: &[u8], radix: u32) -> (text: String)
    requires
        2 <= radix <= 36,
    ensures
        text@ == written(signed_be(a@), radix),
{
    BigInt::from_signed_bytes_be(a).to_str_radix(radix)
}

/// Why a text is not read as a number.
#[derive(Clone, Copy, Debug, PartialEq, Eq, Structural)]
pub enum ParseError {
    /// The text is empty or holds something that is no digit.
    Invalid,
    /// The text stands for a number that is out of range.
    OutOfRange,
}

/// How a text writes its number.
#[derive(Clone, Copy, Debug, PartialEq, Eq, Structural)]
pub enum Notation {
    /// In decimal digits, with or without a sign.
    Decimal,
    /// In hexadecimal digits after `0x`.
    Hex,
    /// In hexadecimal digits after `-0x`: the digits give the distance from
    /// 0 of a number that is not positive.
    NegativeHex,
}

/// How `text` writes its number, `text` being in lower case.
pub open spec fn notation_of(text: Seq<char>) -> Notation {
    if text.len() >= 2 && text[0] == '0' && text[1] == 'x' {
        Notation::Hex
    } else if text.len() >= 3 && text[0] == '-' && text[1] == '0' && text[2] == 'x' {
        Notation::NegativeHex
    } else {
        Notation::Decimal
    }
}

/// Where the digits of a text in the given notation begin.
pub open spec fn digits_from(notation: Notation) -> int {
    match notation {
        Notation::Decimal => 0,
        Notation::Hex => 2,
        Notation::NegativeHex => 3,
    }
}

/// The radix of a notation.
pub open spec fn radix_of(notation: Notation) -> u32 {
    match notation {
        Notation::Decimal => 10,
        Notation::Hex => 16,
        Notation::NegativeHex => 16,
    }
}

/// What the digits of a text in the given notation stand for, if they were
/// read and the number is allowed.
pub open spec fn number_of(notation: Notation, digits: Option<int>) -> Result<int, ParseError> {
    match digits {
        None => Err(ParseError::Invalid),
        Some(value) => match notation {
            Notation::NegativeHex => if in_range(-value) {
                Ok(-value)
            } else {
                Err(ParseError::OutOfRange)
            },
            _ => Ok(value),
        },
    }
}

/// What a text stands for: it is put in lower case, its notation is told
/// from how it begins, and its digits are read in the radix of the
/// notation.
pub open spec fn read(text: Seq<char>) -> Result<int, ParseError> {
    let lowered = lowercase(text);
    let notation = notation_of(lowered);
    number_of(notation, parsed(lowered.skip(digits_from(notation)), radix_of(notation)))
}

impl i256 {
    #[verifier::type_invariant]
    spec fn shortest(self) -> bool {
        minimal(self.bytes@)
    }

    /// Whether the number can be written in 32 bytes of two's complement.
    pub open spec fn in_range(&self) -> bool {
        in_range(self@)
    }

    /// The number that `bytes` stand for in two's complement, the most
    /// significant byte first. Any number of bytes is taken; none stand for
    /// 0.
    pub fn from_signed_be_bytes(bytes: &[u8]) -> (number: Self)
        ensures
            number@ == signed_be(bytes@),
    {
        i256 { bytes: shortest_be(bytes) }
    }

    /// The number that `bytes` stand for in two's complement, the least
    /// significant byte first.
    pub fn from_signed_le_bytes(bytes: &[u8]) -> (number: Self)
        ensures
            number@ == signed_le(bytes@),
    {
        i256 { bytes: shortest_from_le(bytes) }
    }

    /// The number `n`.
    pub fn from_i128(n: i128) -> (number: Self)
        ensures
            number@ == n,
    {
        i256 { bytes: shortest_of_i128(n) }
    }

    /// The number `n`.
    pub fn from_u128(n: u128) -> (number: Self)
        ensures
            number@ == n,
    {
        i256 { bytes: shortest_of_u128(n) }
    }

    /// Whether the number can be written in 32 bytes of two's complement.
    pub fn fits(&self) -> (fits: bool)
        ensures
            fits == self.in_range(),
    {
        proof {
            use_type_invariant(self);
            lemma_minimal_range(self.bytes@);
        }
        self.bytes.len() <= 32
    }

    /// Whether the number is below 0.
    pub fn is_negative(&self) -> (below: bool)
        ensures
            below == (self@ < 0),
    {
        proof {
            use_type_invariant(self);
            lemma_signed_range(self.bytes@);
        }
        self.bytes[0] >= 0x80
    }

    /// The 32 bytes of the number in two's complement, the most significant
    /// byte first. The number has to be in range.
    pub fn to_be_bytes(&self) -> (bytes: [u8; 32])
        requires
            self.in_range(),
        ensures
            signed_be(bytes@) == self@,
    {
        proof {
            use_type_invariant(self);
            lemma_minimal_range(self.bytes@);
        }
        let fill: u8 = if self.bytes[0] >= 0x80 {
            0xff
        } else {
            0x00
        };
        let mut bytes = [fill;32];
        let pad = 32 - self.bytes.len();
        let mut i: usize = 0;
        while i < self.bytes.len()
            invariant
                i <= self.bytes.len(),
                pad + self.bytes.len() == 32,
                forall|j: int| 0 <= j < pad ==> bytes@[j] == fill,
                forall|j: int| 0 <= j < i ==> bytes@[pad + j] == self.bytes@[j],
            decreases self.bytes.len() - i,
        {
            bytes[pad + i] = self.bytes[i];
            i += 1;
        }
        proof {
            lemma_sign_extend(self.bytes@, pad as nat);
            assert(bytes@ =~= sign_bytes(self.bytes@, pad as nat) + self.bytes@);
        }
        bytes
    }

    /// Whether the number is 0.
    pub fn is_zero(&self) -> (zero: bool)
        ensures
            zero == (self@ == 0),
    {
        proof {
            use_type_invariant(self);
            lemma_minimal_zero(self.bytes@);
        }
        self.bytes.len() == 1 && self.bytes[0] == 0
    }

    /// Whether the number is above 0.
    pub fn is_positive(&self) -> (above: bool)
        ensures
            above == (self@ > 0),
    {
        !self.is_negative() && !self.is_zero()
    }

    /// Whether `self` and `other` are the same number.
    pub fn same_as(&self, other: &i256) -> (same: bool)
        ensures
            same == (self@ == other@),
    {
        !below_be(self.bytes.as_slice(), other.bytes.as_slice()) && !below_be(
            other.bytes.as_slice(),
            self.bytes.as_slice(),
        )
    }

    /// Whether `self` is below `other`.
    pub fn less_than(&self, other: &i256) -> (below: bool)
        ensures
            below == (self@ < other@),
    {
        below_be(self.bytes.as_slice(), other.bytes.as_slice())
    }

    /// The least number in range: minus 2 to the 255.
    pub fn min_value() -> (least: Self)
        ensures
            2 * least@ == -(pow256(32) as int),
            least.in_range(),
    {
        let mut bytes = [0u8;32];
        bytes[0] = 0x80;
        proof {
            lemma_unsigned_front(bytes@);
            lemma_unsigned_same(bytes@.skip(1), 0);
            crate::twos::lemma_pow256_monotonic(0, 32);
        }
        i256::from_signed_be_bytes(&bytes)
    }

    /// The greatest number in range: 2 to the 255, less 1.
    pub fn max_value() -> (greatest: Self)
        ensures
            2 * greatest@ + 2 == pow256(32),
            greatest.in_range(),
    {
        let mut bytes = [0xffu8;32];
        bytes[0] = 0x7f;
        proof {
            lemma_unsigned_front(bytes@);
            lemma_unsigned_same(bytes@.skip(1), 0xff);
            crate::twos::lemma_pow256_monotonic(0, 32);
        }
        i256::from_signed_be_bytes(&bytes)
    }

    /// The number without its sign, in 32 bytes with the most significant
    /// byte first; nothing for a number that is negative or too large for
    /// 32 bytes.
    pub fn to_uint256(&self) -> (unsigned: Option<[u8; 32]>)
        ensures
            match unsigned {
                Some(bytes) => in_unsigned_range(self@) && unsigned_be(bytes@) == self@,
                None => !in_unsigned_range(self@),
            },
    {
        proof {
            use_type_invariant(self);
            lemma_signed_range(self.bytes@);
        }
        if self.bytes[0] >= 0x80 {
            return None;
        }
        proof {
            lemma_minimal_unsigned_range(self.bytes@);
        }
        let len = self.bytes.len();
        if len > 33 || (len == 33 && self.bytes[0] != 0) {
            return None;
        }
        let skip: usize = if len == 33 {
            1
        } else {
            0
        };
        let pad = 32 + skip - len;
        let mut bytes = [0u8;32];
        let mut i: usize = skip;
        while i < len
            invariant
                skip <= i <= len,
                len == self.bytes.len(),
                pad + len == 32 + skip,
                forall|j: int| 0 <= j < pad ==> bytes@[j] == 0,
                forall|j: int| skip <= j < i ==> bytes@[pad + (j - skip)] == self.bytes@[j],
            decreases len - i,
        {
            bytes[pad + (i - skip)] = self.bytes[i];
            i += 1;
        }
        proof {
            if len == 33 {
                assert(bytes@ =~= self.bytes@.skip(1));
            } else {
                lemma_sign_extend(self.bytes@, pad as nat);
                assert(bytes@ =~= sign_bytes(self.bytes@, pad as nat) + self.bytes@);
            }
        }
        Some(bytes)
    }

    /// How many bytes an encoded number takes.
    pub fn size_hint(&self) -> (size: usize)
        ensures
            size == 32,
    {
        32
    }

    /// The encoding of the number: its 32 bytes of two's complement, the
    /// most significant byte first. The number has to be in range.
    pub fn encode(&self) -> (encoded: Vec<u8>)
        requires
            self.in_range(),
        ensures
            encoded@.len() == 32,
            signed_be(encoded@) == self@,
    {
        let bytes = self.to_be_bytes();
        let mut encoded: Vec<u8> = Vec::with_capacity(32);
        let mut i: usize = 0;
        while i < 32
            invariant
                i <= 32,
                encoded@ == bytes@.take(i as int),
            decreases 32 - i,
        {
            encoded.push(bytes[i]);
            i += 1;
        }
        assert(bytes@.take(32) == bytes@);
        encoded
    }

    /// Reads a number from the first 32 bytes of `input`; nothing where
    /// `input` is shorter.
    pub fn decode(input: &[u8]) -> (decoded: Option<Self>)
        ensures
            match decoded {
                Some(number) => input@.len() >= 32 && number@ == signed_be(input@.take(32))
                    && number.in_range(),
                None => input@.len() < 32,
            },
    {
        if input.len() < 32 {
            return None;
        }
        let mut buf: Vec<u8> = Vec::with_capacity(32);
        let mut i: usize = 0;
        while i < 32
            invariant
                i <= 32,
                input@.len() >= 32,
                buf@ == input@.take(i as int),
            decreases 32 - i,
        {
            buf.push(input[i]);
            i += 1;
        }
        proof {
            crate::twos::lemma_short_in_range(buf@);
        }
        Some(i256::from_signed_be_bytes(buf.as_slice()))
    }

    /// The sum of two numbers, if it is in range.
    pub fn checked_add(&self, other: &i256) -> (sum: Option<i256>)
        ensures
            match sum {
                Some(number) => number@ == self@ + other@ && number.in_range(),
                None => !in_range(self@ + other@),
            },
    {
        let sum = i256 { bytes: sum_be(self.bytes.as_slice(), other.bytes.as_slice()) };
        if sum.fits() {
            Some(sum)
        } else {
            None
        }
    }

    /// The difference of two numbers, if it is in range.
    pub fn checked_sub(&self, other: &i256) -> (difference: Option<i256>)
        ensures
            match difference {
                Some(number) => number@ == self@ - other@ && number.in_range(),
                None => !in_range(self@ - other@),
            },
    {
        let difference = i256 {
            bytes: difference_be(self.bytes.as_slice(), other.bytes.as_slice()),
        };
        if difference.fits() {
            Some(difference)
        } else {
            None
        }
    }

    /// The product of two numbers, if it is in range.
    pub fn checked_mul(&self, other: &i256) -> (product: Option<i256>)
        ensures
            match product {
                Some(number) => number@ == self@ * other@ && number.in_range(),
                None => !in_range(self@ * other@),
            },
    {
        let product = i256 { bytes: product_be(self.bytes.as_slice(), other.bytes.as_slice()) };
        if product.fits() {
            Some(product)
        } else {
            None
        }
    }

    /// The quotient of two numbers, rounded towards zero, if there is one
    /// and it is in range. There is none by 0.
    pub fn checked_div(&self, other: &i256) -> (quotient: Option<i256>)
        ensures
            match quotient {
                Some(number) => {
                    &&& other@ != 0
                    &&& number@ == truncated_div(self@, other@)
                    &&& number.in_range()
                },
                None => other@ == 0 || !in_range(truncated_div(self@, other@)),
            },
    {
        if other.is_zero() {
            return None;
        }
        let quotient = i256 { bytes: quotient_be(self.bytes.as_slice(), other.bytes.as_slice()) };
        if quotient.fits() {
            Some(quotient)
        } else {
            None
        }
    }

    /// What the division that rounds towards zero leaves, if there is a
    /// quotient. It has the sign of `self`.
    pub fn checked_rem(&self, other: &i256) -> (remainder: Option<i256>)
        ensures
            match remainder {
                Some(number) => {
                    &&& other@ != 0
                    &&& number@ == truncated_rem(self@, other@)
                    &&& number.in_range()
                },
                None => other@ == 0 || !in_range(truncated_rem(self@, other@)),
            },
    {
        if other.is_zero() {
            return None;
        }
        let remainder = i256 {
            bytes: remainder_be(self.bytes.as_slice(), other.bytes.as_slice()),
        };
        if remainder.fits() {
            Some(remainder)
        } else {
            None
        }
    }

    /// The number with the opposite sign, if it is in range.
    pub fn checked_neg(&self) -> (negation: Option<i256>)
        ensures
            match negation {
                Some(number) => number@ == -self@ && number.in_range(),
                None => !in_range(-self@),
            },
    {
        let negation = i256 { bytes: negation_be(self.bytes.as_slice()) };
        if negation.fits() {
            Some(negation)
        } else {
            None
        }
    }

    /// The distance of the number from 0. It is not kept in range: the
    /// distance of the least number in range is out of range.
    pub fn abs(&self) -> (distance: i256)
        ensures
            distance@ == magnitude(self@),
    {
        if self.is_negative() {
            proof {
                use_type_invariant(self);
            }
            i256 { bytes: negation_be(self.bytes.as_slice()) }
        } else {
            self.clone()
        }
    }

    /// By how much the number is above `other`, and 0 if it is not above.
    pub fn abs_sub(&self, other: &i256) -> (above: i256)
        ensures
            above@ == if self@ <= other@ {
                0
            } else {
                self@ - other@
            },
    {
        if other.less_than(self) {
            proof {
                use_type_invariant(self);
                use_type_invariant(other);
            }
            i256 { bytes: difference_be(self.bytes.as_slice(), other.bytes.as_slice()) }
        } else {
            i256::from_i128(0)
        }
    }

    /// Adds `other` to the number. The result has to be in range.
    pub fn add_assign(&mut self, other: i256)
        requires
            in_range(old(self)@ + other@),
        ensures
            final(self)@ == old(self)@ + other@,
    {
        proof {
            use_type_invariant(&*self);
            use_type_invariant(&other);
        }
        self.bytes = sum_be(self.bytes.as_slice(), other.bytes.as_slice());
    }

    /// Subtracts `other` from the number. The result has to be in range.
    pub fn sub_assign(&mut self, other: i256)
        requires
            in_range(old(self)@ - other@),
        ensures
            final(self)@ == old(self)@ - other@,
    {
        proof {
            use_type_invariant(&*self);
            use_type_invariant(&other);
        }
        self.bytes = difference_be(self.bytes.as_slice(), other.bytes.as_slice());
    }

    /// Multiplies the number by `other`. The result has to be in range.
    pub fn mul_assign(&mut self, other: i256)
        requires
            in_range(old(self)@ * other@),
        ensures
            final(self)@ == old(self)@ * other@,
    {
        proof {
            use_type_invariant(&*self);
            use_type_invariant(&other);
        }
        self.bytes = product_be(self.bytes.as_slice(), other.bytes.as_slice());
    }

    /// Divides the number by `other`, rounding towards zero. The result has to be in range.
    pub fn div_assign(&mut self, other: i256)
        requires
            other@ != 0,
            in_range(truncated_div(old(self)@, other@)),
        ensures
            final(self)@ == truncated_div(old(self)@, other@),
    {
        proof {
            use_type_invariant(&*self);
            use_type_invariant(&other);
        }
        self.bytes = quotient_be(self.bytes.as_slice(), other.bytes.as_slice());
    }

    /// Leaves of the number what the division by `other` leaves. The result has to be in range.
    pub fn rem_assign(&mut self, other: i256)
        requires
            other@ != 0,
            in_range(truncated_rem(old(self)@, other@)),
        ensures
            final(self)@ == truncated_rem(old(self)@, other@),
    {
        proof {
            use_type_invariant(&*self);
            use_type_invariant(&other);
        }
        self.bytes = remainder_be(self.bytes.as_slice(), other.bytes.as_slice());
    }

    /// The sign of the number: -1 below 0, 1 above it, and 0 for 0.
    pub fn signum(&self) -> (sign: i256)
        ensures
            sign@ == if self@ < 0 {
                -1int
            } else if self@ > 0 {
                1int
            } else {
                0int
            },
    {
        if self.is_negative() {
            i256::from_i128(-1)
        } else if self.is_zero() {
            i256::from_i128(0)
        } else {
            i256::from_i128(1)
        }
    }
}

impl i256 {
    /// Tells how a text in lower case writes its number.
    pub fn notation(text: &str) -> (notation: Notation)
        ensures
            notation == notation_of(text@),
    {
        let len = text.unicode_len();
        if len >= 2 && text.get_char(0) == '0' && text.get_char(1) == 'x' {
            Notation::Hex
        } else if len >= 3 && text.get_char(0) == '-' && text.get_char(1) == '0' && text.get_char(2)
            == 'x' {
            Notation::NegativeHex
        } else {
            Notation::Decimal
        }
    }

    /// Makes the number of a text from its notation and from what its digits
    /// were read as. Digits after `-0x` are negated, and the negated number
    /// has to be in range.
    pub fn from_digits(notation: Notation, digits: Option<i256>) -> (result: Result<
        i256,
        ParseError,
    >)
        ensures
            match number_of(
                notation,
                match digits {
                    Some(number) => Some(number@),
                    None => None,
                },
            ) {
                Ok(value) => result matches Ok(number) && number@ == value,
                Err(e) => result matches Err(error) && error == e,
            },
    {
        match digits {
            None => Err(ParseError::Invalid),
            Some(number) => match notation {
                Notation::NegativeHex => match number.checked_neg() {
                    Some(negation) => Ok(negation),
                    None => Err(ParseError::OutOfRange),
                },
                _ => Ok(number),
            },
        }
    }

    /// Reads a number from a text. The text may be decimal, with or without
    /// a sign, or hexadecimal after `0x` or `-0x`, in either case of the
    /// letters.
    pub fn parse(text: &str) -> (result: Result<i256, ParseError>)
        ensures
            match read(text@) {
                Ok(value) => result matches Ok(number) && number@ == value,
                Err(e) => result matches Err(error) && error == e,
            },
    {
        let lowered = lowercase_of(text);
        let notation = i256::notation(lowered.as_str());
        let (from, radix): (usize, u32) = match notation {
            Notation::Decimal => (0, 10),
            Notation::Hex => (2, 16),
            Notation::NegativeHex => (3, 16),
        };
        let len = lowered.as_str().unicode_len();
        let digits = lowered.as_str().substring_char(from, len);
        let read = match shortest_from_str_radix(digits, radix) {
            Ok(bytes) => Some(i256 { bytes }),
            Err(_) => None,
        };
        i256::from_digits(notation, read)
    }

    /// Writes the number in the given radix, which is from 2 to 36.
    pub fn to_str_radix(&self, radix: u32) -> (text: String)
        requires
            2 <= radix <= 36,
        ensures
            text@ == written(self@, radix),
    {
        write_radix(self.bytes.as_slice(), radix)
    }

    /// Writes the number in decimal digits.
    pub fn to_string(&self) -> (text: String)
        ensures
            text@ == written(self@, 10),
    {
        self.to_str_radix(10)
    }
}

impl Clone for i256 {
    fn clone(&self) -> (copy: Self)
        ensures
            copy@ == self@,
    {
        proof {
            use_type_invariant(self);
        }
        i256 { bytes: self.bytes.clone() }
    }
}

impl From<i8> for i256 {
    fn from(n: i8) -> (number: Self)
        ensures
            number@ == n,
    {
        i256::from_i128(n as i128)
    }
}

impl vstd::std_specs::convert::FromSpecImpl<i8> for i256 {
    open spec fn obeys_from_spec() -> bool {
        false
    }

    open spec fn from_spec(n: i8) -> Self {
        arbitrary()
    }
}

impl From<i16> for i256 {
    fn from(n: i16) -> (number: Self)
        ensures
            number@ == n,
    {
        i256::from_i128(n as i128)
    }
}

impl vstd::std_specs::convert::FromSpecImpl<i16> for i256 {
    open spec fn obeys_from_spec() -> bool {
        false
    }

    open spec fn from_spec(n: i16) -> Self {
        arbitrary()
    }
}

impl From<i32> for i256 {
    fn from(n: i32) -> (number: Self)
        ensures
            number@ == n,
    {
        i256::from_i128(n as i128)
    }
}

impl vstd::std_specs::convert::FromSpecImpl<i32> for i256 {
    open spec fn obeys_from_spec() -> bool {
        false
    }

    open spec fn from_spec(n: i32) -> Self {
        arbitrary()
    }
}

impl From<i64> for i256 {
    fn from(n: i64) -> (number: Self)
        ensures
            number@ == n,
    {
        i256::from_i128(n as i128)
    }
}

impl vstd::std_specs::convert::FromSpecImpl<i64> for i256 {
    open spec fn obeys_from_spec() -> bool {
        false
    }

    open spec fn from_spec(n: i64) -> Self {
        arbitrary()
    }
}

impl From<i128> for i256 {
    fn from(n: i128) -> (number: Self)
        ensures
            number@ == n,
    {
        i256::from_i128(n)
    }
}

impl vstd::std_specs::convert::FromSpecImpl<i128> for i256 {
    open spec fn obeys_from_spec() -> bool {
        false
    }

    open spec fn from_spec(n: i128) -> Self {
        arbitrary()
    }
}

impl From<isize> for i256 {
    fn from(n: isize) -> (number: Self)
        ensures
            number@ == n,
    {
        i256::from_i128(n as i128)
    }
}

impl vstd::std_specs::convert::FromSpecImpl<isize> for i256 {
    open spec fn obeys_from_spec() -> bool {
        false
    }

    open spec fn from_spec(n: isize) -> Self {
        arbitrary()
    }
}

impl From<u8> for i256 {
    fn from(n: u8) -> (number: Self)
        ensures
            number@ == n,
    {
        i256::from_u128(n as u128)
    }
}

impl vstd::std_specs::convert::FromSpecImpl<u8> for i256 {
    open spec fn obeys_from_spec() -> bool {
        false
    }

    open spec fn from_spec(n: u8) -> Self {
        arbitrary()
    }
}

impl From<u16> for i256 {
    fn from(n: u16) -> (number: Self)
        ensures
            number@ == n,
    {
        i256::from_u128(n as u128)
    }
}

impl vstd::std_specs::convert::FromSpecImpl<u16> for i256 {
    open spec fn obeys_from_spec() -> bool {
        false
    }

    open spec fn from_spec(n: u16) -> Self {
        arbitrary()
    }
}

impl From<u32> for i256 {
    fn from(n: u32) -> (number: Self)
        ensures
            number@ == n,
    {
        i256::from_u128(n as u128)
    }
}

impl vstd::std_specs::convert::FromSpecImpl<u32> for i256 {
    open spec fn obeys_from_spec() -> bool {
        false
    }

    open spec fn from_spec(n: u32) -> Self {
        arbitrary()
    }
}

impl From<u64> for i256 {
    fn from(n: u64) -> (number: Self)
        ensures
            number@ == n,
    {
        i256::from_u128(n as u128)
    }
}

impl vstd::std_specs::convert::FromSpecImpl<u64> for i256 {
    open spec fn obeys_from_spec() -> bool {
        false
    }

    open spec fn from_spec(n: u64) -> Self {
        arbitrary()
    }
}

impl From<u128> for i256 {
    fn from(n: u128) -> (number: Self)
        ensures
            number@ == n,
    {
        i256::from_u128(n)
    }
}

impl vstd::std_specs::convert::FromSpecImpl<u128> for i256 {
    open spec fn obeys_from_spec() -> bool {
        false
    }

    open spec fn from_spec(n: u128) -> Self {
        arbitrary()
    }
}

impl From<usize> for i256 {
    fn from(n: usize) -> (number: Self)
        ensures
            number@ == n,
    {
        i256::from_u128(n as u128)
    }
}

impl vstd::std_specs::convert::FromSpecImpl<usize> for i256 {
    open spec fn obeys_from_spec() -> bool {
        false
    }

    open spec fn from_spec(n: usize) -> Self {
        arbitrary()
    }
}

impl<'a> From<&'a i256> for i256 {
    fn from(n: &'a i256) -> (number: Self)
        ensures
            number@ == n@,
    {
        n.clone()
    }
}

impl<'a> vstd::std_specs::convert::FromSpecImpl<&'a i256> for i256 {
    open spec fn obeys_from_spec() -> bool {
        false
    }

    open spec fn from_spec(n: &'a i256) -> Self {
        arbitrary()
    }
}

impl core::ops::Add for i256 {
    type Output = i256;

    fn add(self, rhs: i256) -> (sum: i256)
        ensures
            sum@ == self@ + rhs@,
    {
        proof {
            use_type_invariant(&self);
            use_type_invariant(&rhs);
        }
        i256 { bytes: sum_be(self.bytes.as_slice(), rhs.bytes.as_slice()) }
    }
}

impl vstd::std_specs::ops::AddSpecImpl for i256 {
    open spec fn obeys_add_spec() -> bool {
        false
    }

    open spec fn add_req(self, rhs: i256) -> bool {
        in_range(self@ + rhs@)
    }

    open spec fn add_spec(self, rhs: i256) -> i256 {
        arbitrary()
    }
}

impl core::ops::Sub for i256 {
    type Output = i256;

    fn sub(self, rhs: i256) -> (difference: i256)
        ensures
            difference@ == self@ - rhs@,
    {
        proof {
            use_type_invariant(&self);
            use_type_invariant(&rhs);
        }
        i256 { bytes: difference_be(self.bytes.as_slice(), rhs.bytes.as_slice()) }
    }
}

impl vstd::std_specs::ops::SubSpecImpl for i256 {
    open spec fn obeys_sub_spec() -> bool {
        false
    }

    open spec fn sub_req(self, rhs: i256) -> bool {
        in_range(self@ - rhs@)
    }

    open spec fn sub_spec(self, rhs: i256) -> i256 {
        arbitrary()
    }
}

impl core::ops::Mul for i256 {
    type Output = i256;

    fn mul(self, rhs: i256) -> (product: i256)
        ensures
            product@ == self@ * rhs@,
    {
        proof {
            use_type_invariant(&self);
            use_type_invariant(&rhs);
        }
        i256 { bytes: product_be(self.bytes.as_slice(), rhs.bytes.as_slice()) }
    }
}

impl vstd::std_specs::ops::MulSpecImpl for i256 {
    open spec fn obeys_mul_spec() -> bool {
        false
    }

    open spec fn mul_req(self, rhs: i256) -> bool {
        in_range(self@ * rhs@)
    }

    open spec fn mul_spec(self, rhs: i256) -> i256 {
        arbitrary()
    }
}

impl core::ops::Div for i256 {
    type Output = i256;

    fn div(self, rhs: i256) -> (quotient: i256)
        ensures
            quotient@ == truncated_div(self@, rhs@),
    {
        proof {
            use_type_invariant(&self);
            use_type_invariant(&rhs);
        }
        i256 { bytes: quotient_be(self.bytes.as_slice(), rhs.bytes.as_slice()) }
    }
}

impl vstd::std_specs::ops::DivSpecImpl for i256 {
    open spec fn obeys_div_spec() -> bool {
        false
    }

    open spec fn div_req(self, rhs: i256) -> bool {
        rhs@ != 0 && in_range(truncated_div(self@, rhs@))
    }

    open spec fn div_spec(self, rhs: i256) -> i256 {
        arbitrary()
    }
}

impl core::ops::Rem for i256 {
    type Output = i256;

    fn rem(self, rhs: i256) -> (remainder: i256)
        ensures
            remainder@ == truncated_rem(self@, rhs@),
    {
        proof {
            use_type_invariant(&self);
            use_type_invariant(&rhs);
        }
        i256 { bytes: remainder_be(self.bytes.as_slice(), rhs.bytes.as_slice()) }
    }
}

impl vstd::std_specs::ops::RemSpecImpl for i256 {
    open spec fn obeys_rem_spec() -> bool {
        false
    }

    open spec fn rem_req(self, rhs: i256) -> bool {
        rhs@ != 0 && in_range(truncated_rem(self@, rhs@))
    }

    open spec fn rem_spec(self, rhs: i256) -> i256 {
        arbitrary()
    }
}

impl core::ops::Neg for i256 {
    type Output = i256;

    fn neg(self) -> (negation: i256)
        ensures
            negation@ == -self@,
    {
        proof {
            use_type_invariant(&self);
        }
        i256 { bytes: negation_be(self.bytes.as_slice()) }
    }
}

impl vstd::std_specs::ops::NegSpecImpl for i256 {
    open spec fn obeys_neg_spec() -> bool {
        false
    }

    open spec fn neg_req(self) -> bool {
        in_range(-self@)
    }

    open spec fn neg_spec(self) -> i256 {
        arbitrary()
    }
}

impl core::str::FromStr for i256 {
    type Err = ParseError;

    fn from_str(text: &str) -> (result: Result<i256, ParseError>)
        ensures
            match read(text@) {
                Ok(value) => result matches Ok(number) && number@ == value,
                Err(e) => result matches Err(error) && error == e,
            },
    {
        i256::parse(text)
    }
}

/// The only shortest form of 0 is one zero byte.
proof fn lemma_minimal_zero(bytes: Seq<u8>)
    requires
        minimal(bytes),
    ensures
        signed_be(bytes) == 0 <==> (bytes.len() == 1 && bytes[0] == 0),
{
    if bytes.len() == 1 {
        lemma_unsigned_front(bytes);
    } else {
        crate::twos::lemma_minimal_is_large(bytes);
        crate::twos::lemma_pow256_monotonic(0, (bytes.len() - 1) as nat);
    }
}

/// Bytes that are all the same byte `b` stand for `b` times the number
/// below 256 to their count, over 255.
proof fn lemma_unsigned_same(bytes: Seq<u8>, b: u8)
    requires
        forall|i: int| 0 <= i < bytes.len() ==> bytes[i] == b,
    ensures
        255 * unsigned_be(bytes) == b * (pow256(bytes.len()) - 1),
    decreases bytes.len(),
{
    if bytes.len() > 0 {
        lemma_unsigned_same(bytes.drop_last(), b);
        let shorter = pow256((bytes.len() - 1) as nat) as int;
        let value = b as int;
        assert(value * (256 * shorter - 1) == 256 * (value * (shorter - 1)) + 255 * value)
            by (nonlinear_arith);
    } else {
        let value = b as int;
        assert(value * 0 == 0) by (nonlinear_arith);
    }
}

} // verus!
