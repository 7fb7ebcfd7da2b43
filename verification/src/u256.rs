//! Unsigned integers of 256 bits, computed with by `alloy_primitives`.
use vstd::prelude::*;

verus! {

/// One more than the largest value of 256 bits.
pub open spec fn modulus() -> nat {
    0x1_0000_0000_0000_0000_0000_0000_0000_0000_0000_0000_0000_0000_0000_0000_0000_0000nat
}

/// The character of one decimal digit.
pub open spec fn digit(d: nat) -> char {
    (48 + d) as char
}

/// A number in decimal, without leading zeros.
pub open spec fn decimal(n: nat) -> Seq<char>
    decreases n,
{
    if n < 10 {
        seq![digit(n)]
    } else {
        decimal(n / 10).push(digit(n % 10))
    }
}

/// The number that a text of decimal digits stands for.
pub open spec fn written(text: Seq<char>) -> int
    decreases text.len(),
{
    if text.len() == 0 {
        0
    } else {
        10 * written(text.drop_last()) + (text.last() as int - 48)
    }
}

/// A number in decimal is a text of digits that stands for it, without a zero in front unless it
/// is zero.
pub proof fn law_decimal_stands_for_its_number(n: nat)
    ensures
        decimal(n).len() > 0,
        written(decimal(n)) == n,
        forall|i: int| 0 <= i < decimal(n).len() ==> '0' <= #[trigger] decimal(n)[i] <= '9',
        decimal(n)[0] == '0' <==> n == 0,
        n == 0 ==> decimal(n).len() == 1,
    decreases n,
{
    if n < 10 {
        assert(decimal(n).drop_last() =~= Seq::<char>::empty());
        assert(written(decimal(n).drop_last()) == 0);
    } else {
        law_decimal_stands_for_its_number(n / 10);
        assert(decimal(n).drop_last() =~= decimal(n / 10));
        assert(decimal(n)[0] == decimal(n / 10)[0]);
        assert forall|i: int| 0 <= i < decimal(n).len() implies '0' <= #[trigger] decimal(
            n,
        )[i] <= '9' by {
            if i < decimal(n).len() - 1 {
                assert(decimal(n)[i] == decimal(n / 10)[i]);
            }
        }
    }
}

/// Different numbers are different texts.
pub proof fn law_decimal_tells_numbers_apart(a: nat, b: nat)
    requires
        decimal(a) == decimal(b),
    ensures
        a == b,
{
    law_decimal_stands_for_its_number(a);
    law_decimal_stands_for_its_number(b);
}

/// Sums wrap around at two to the power of 256.
pub proof fn law_modulus()
    ensures
        modulus() == vstd::arithmetic::power2::pow2(256),
{
    vstd::arithmetic::power2::lemma2_to64();
    let half = 0x1_0000_0000_0000_0000_0000_0000_0000_0000nat;
    vstd::arithmetic::power2::lemma_pow2_adds(64, 64);
    assert(vstd::arithmetic::power2::pow2(128) == half);
    vstd::arithmetic::power2::lemma_pow2_adds(128, 128);
    assert(half * half == modulus());
}

/// An unsigned integer of 256 bits, in four limbs of 64 bits, the least significant first.
#[derive(Clone, Copy, PartialEq, Eq, Structural, Debug)]
pub struct U256 {
    pub l0: u64,
    pub l1: u64,
    pub l2: u64,
    pub l3: u64,
}

impl View for U256 {
    type V = nat;

    open spec fn view(&self) -> nat {
        (self.l0 + 0x1_0000_0000_0000_0000 * self.l1
            + 0x1_0000_0000_0000_0000_0000_0000_0000_0000 * self.l2
            + 0x1_0000_0000_0000_0000_0000_0000_0000_0000_0000_0000_0000_0000 * self.l3) as nat
    }
}

impl U256 {
    /// Zero.
    pub fn zero() -> (value: U256)
        ensures
            value@ == 0,
    {
        U256 { l0: 0, l1: 0, l2: 0, l3: 0 }
    }

    /// The value of a machine integer.
    pub fn from_u64(n: u64) -> (value: U256)
        ensures
            value@ == n,
    {
        U256 { l0: n, l1: 0, l2: 0, l3: 0 }
    }

    /// Whether this is zero.
    pub fn is_zero(self) -> (zero: bool)
        ensures
            zero == (self@ == 0),
    {
        self.l0 == 0 && self.l1 == 0 && self.l2 == 0 && self.l3 == 0
    }

    /// Whether the value fits into 64 bits.
    pub fn fits_u64(self) -> (fits: bool)
        ensures
            fits == (self@ <= u64::MAX),
    {
        self.l1 == 0 && self.l2 == 0 && self.l3 == 0
    }
}

/// A value of 256 bits is less than the modulus.
pub proof fn lemma_in_range(value: U256)
    ensures
        value@ < modulus(),
{
}

proof fn lemma_lowest_limb(a: u64, x: int, b: u64, y: int)
    requires
        a + 0x1_0000_0000_0000_0000 * x == b + 0x1_0000_0000_0000_0000 * y,
    ensures
        a == b,
        x == y,
{
}

/// The value is made up of the limbs, each worth two to the power of 64 times as much as the one
/// before, and no two values of different limbs are equal.
pub proof fn law_limbs(a: U256, b: U256)
    ensures
        a@ == a.l0 + 0x1_0000_0000_0000_0000 * (a.l1 + 0x1_0000_0000_0000_0000 * (a.l2
            + 0x1_0000_0000_0000_0000 * a.l3)),
        a@ == b@ <==> a == b,
{
    if a@ == b@ {
        let base = 0x1_0000_0000_0000_0000int;
        let a2 = a.l2 + base * a.l3;
        let b2 = b.l2 + base * b.l3;
        lemma_lowest_limb(a.l0, a.l1 + base * a2, b.l0, b.l1 + base * b2);
        lemma_lowest_limb(a.l1, a2, b.l1, b2);
        lemma_lowest_limb(a.l2, a.l3 as int, b.l2, b.l3 as int);
    }
}

/// What is made of a machine integer has its value, zero is the value with nothing in it, and
/// what fits into 64 bits is told by the value.
pub proof fn law_small_values(
    n: u64,
    zero: U256,
    value: U256,
    other: U256,
    is_zero: bool,
    fits: bool,
)
    requires
        call_ensures(U256::zero, (), zero),
        call_ensures(U256::from_u64, (n,), value),
        call_ensures(U256::is_zero, (other,), is_zero),
        call_ensures(U256::fits_u64, (other,), fits),
    ensures
        zero.l0 == 0 && zero.l1 == 0 && zero.l2 == 0 && zero.l3 == 0,
        value.l0 == n && value.l1 == 0 && value.l2 == 0 && value.l3 == 0,
        is_zero <==> other.l0 == 0 && other.l1 == 0 && other.l2 == 0 && other.l3 == 0,
        fits <==> other.l1 == 0 && other.l2 == 0 && other.l3 == 0,
{
}

/// Calls the operator `+` of `alloy_primitives::U256`: the sum, wrapped around at 256 bits.
#[verifier::external_body]
pub(crate) fn wrapping_sum(a: U256, b: U256) -> (sum: U256)
    ensures
        sum@ == (a@ + b@) % modulus(),
{
    let x = alloy_primitives::U256::from_limbs([a.l0, a.l1, a.l2, a.l3]);
    let y = alloy_primitives::U256::from_limbs([b.l0, b.l1, b.l2, b.l3]);
    let [l0, l1, l2, l3] = (x + y).into_limbs();
    U256 { l0, l1, l2, l3 }
}

/// Calls the operator `-` of `alloy_primitives::U256`: the difference, wrapped around at 256
/// bits.
#[verifier::external_body]
pub(crate) fn wrapping_difference(a: U256, b: U256) -> (difference: U256)
    ensures
        difference@ == (a@ - b@) % (modulus() as int),
{
    let x = alloy_primitives::U256::from_limbs([a.l0, a.l1, a.l2, a.l3]);
    let y = alloy_primitives::U256::from_limbs([b.l0, b.l1, b.l2, b.l3]);
    let [l0, l1, l2, l3] = (x - y).into_limbs();
    U256 { l0, l1, l2, l3 }
}

/// The value of 512 bits with these two halves.
pub open spec fn wide(high: U256, low: U256) -> nat {
    modulus() * high@ + low@
}

/// Calls the operator `*` of `alloy_primitives::U512`: the product of two values of 256 bits,
/// which 512 bits always hold, as its high and its low half.
#[verifier::external_body]
pub(crate) fn wide_product(a: U256, b: U256) -> (product: (U256, U256))
    ensures
        wide(product.0, product.1) == a@ * b@,
{
    let x = alloy_primitives::U512::from_limbs([a.l0, a.l1, a.l2, a.l3, 0, 0, 0, 0]);
    let y = alloy_primitives::U512::from_limbs([b.l0, b.l1, b.l2, b.l3, 0, 0, 0, 0]);
    let [l0, l1, l2, l3, h0, h1, h2, h3] = (x * y).into_limbs();
    (U256 { l0: h0, l1: h1, l2: h2, l3: h3 }, U256 { l0, l1, l2, l3 })
}

/// Calls the operator `/` of `alloy_primitives::U512`: the quotient of a value of 512 bits,
/// given by its high and its low half, and one of 256 bits, rounded down, as its high and its
/// low half. It panics on a divisor of zero.
#[verifier::external_body]
pub(crate) fn wide_quotient(a: (U256, U256), b: U256) -> (quotient: (U256, U256))
    requires
        b@ != 0,
    ensures
        wide(quotient.0, quotient.1) == wide(a.0, a.1) / b@,
{
    let (h, l) = a;
    let x = alloy_primitives::U512::from_limbs([l.l0, l.l1, l.l2, l.l3, h.l0, h.l1, h.l2, h.l3]);
    let y = alloy_primitives::U512::from_limbs([b.l0, b.l1, b.l2, b.l3, 0, 0, 0, 0]);
    let [l0, l1, l2, l3, h0, h1, h2, h3] = (x / y).into_limbs();
    (U256 { l0: h0, l1: h1, l2: h2, l3: h3 }, U256 { l0, l1, l2, l3 })
}

/// Calls `alloy_primitives::U256::to::<u64>`: the same value in 64 bits. It panics on a value
/// that does not fit.
#[verifier::external_body]
pub(crate) fn to_u64(a: U256) -> (value: u64)
    requires
        a@ <= u64::MAX,
    ensures
        value == a@,
{
    alloy_primitives::U256::from_limbs([a.l0, a.l1, a.l2, a.l3]).to::<u64>()
}

/// Calls `to_string` on an `alloy_primitives::U256`, whose `Display` writes the value in
/// decimal.
#[verifier::external_body]
pub(crate) fn to_decimal(a: U256) -> (text: String)
    ensures
        text@ == decimal(a@),
{
    alloy_primitives::U256::from_limbs([a.l0, a.l1, a.l2, a.l3]).to_string()
}

} // verus!
