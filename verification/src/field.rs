//! Constants of the native field, held as the 32-byte big-endian encoding that
//! `acvm`'s `FieldElement` gives of itself.
use acvm::AcirField;
use vstd::arithmetic::power::pow;
use vstd::prelude::*;

verus! {

/// The 32-byte big-endian encoding of the non-negative integer `x`
/// (taken modulo 2^256).
pub open spec fn field_bytes(x: nat) -> Seq<u8> {
    Seq::new(32, |i: int| ((x / pow(256, (31 - i) as nat) as nat) % 256) as u8)
}

/// `FieldElement::from(u128)` followed by `to_be_bytes`: the field element
/// with the value `x` (every `u128` is below the field's modulus), encoded in
/// 32 big-endian bytes.
#[verifier::external_body]
pub(crate) fn field_bytes_from_u128(x: u128) -> (bytes: Vec<u8>)
    ensures
        bytes@ == field_bytes(x as nat),
{
    acvm::FieldElement::from(x).to_be_bytes()
}

/// `FieldElement::zero` followed by `to_be_bytes`: 32 zero bytes.
#[verifier::external_body]
pub(crate) fn field_bytes_zero() -> (bytes: Vec<u8>)
    ensures
        bytes@ == field_bytes(0),
{
    acvm::FieldElement::zero().to_be_bytes()
}

/// The non-negative integer that a sequence of bytes stands for, most
/// significant byte first.
pub open spec fn be_value(bytes: Seq<u8>) -> nat
    decreases bytes.len(),
{
    if bytes.len() == 0 {
        0
    } else {
        be_value(bytes.drop_last()) * 256 + bytes.last() as nat
    }
}

/// The first `m` bytes of the encoding of `x` stand for `x` with its last
/// `32 - m` bytes dropped.
proof fn lemma_field_bytes_prefix(x: nat, m: nat)
    requires
        x < pow(256, 32),
        m <= 32,
    ensures
        be_value(field_bytes(x).take(m as int)) == x / (pow(256, (32 - m) as nat) as nat),
    decreases m,
{
    let s = field_bytes(x);
    vstd::arithmetic::power::lemma_pow_positive(256, (32 - m) as nat);
    if m == 0 {
        assert(s.take(0) =~= Seq::<u8>::empty());
        vstd::arithmetic::div_mod::lemma_basic_div(x as int, pow(256, 32));
    } else {
        lemma_field_bytes_prefix(x, (m - 1) as nat);
        assert(s.take(m as int).drop_last() =~= s.take(m - 1));
        let p = pow(256, (32 - m) as nat);
        let q = x / (p as nat);
        vstd::arithmetic::power::lemma_pow_adds(256, (32 - m) as nat, 1);
        vstd::arithmetic::power::lemma_pow1(256);
        assert(pow(256, (33 - m) as nat) == p * 256);
        vstd::arithmetic::div_mod::lemma_div_denominator(x as int, p, 256);
        vstd::arithmetic::div_mod::lemma_fundamental_div_mod(q as int, 256);
        assert(s[m - 1] == q % 256);
    }
}

/// The encoding of a number below 2^256 stands for that number.
pub proof fn lemma_field_bytes_value(x: nat)
    requires
        x < pow(256, 32),
    ensures
        be_value(field_bytes(x)) == x,
{
    lemma_field_bytes_prefix(x, 32);
    assert(field_bytes(x).take(32) =~= field_bytes(x));
    vstd::arithmetic::power::lemma_pow0(256);
    assert(pow(256, 0) == 1);
    assert(x / 1 == x);
}

/// Every `u128` is below 2^256, so its encoding stands for it.
pub proof fn lemma_field_bytes_of_u128(x: u128)
    ensures
        be_value(field_bytes(x as nat)) == x,
{
    assert(pow(256, 32) == 0x1_0000_0000_0000_0000_0000_0000_0000_0000_0000_0000_0000_0000_0000_0000_0000_0000) by {
        vstd::arithmetic::power::lemma_pow_adds(256, 16, 16);
        reveal_with_fuel(vstd::arithmetic::power::pow, 17);
    }
    lemma_field_bytes_value(x as nat);
}

} // verus!
