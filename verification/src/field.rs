//! The field codec: canonical fixed-width field elements, and the
//! variable-length little-endian encoding used on the wire.

use vstd::prelude::*;
use bls12_381::Scalar;
use crate::error::Error;

verus! {

/// Width in bytes of a canonical field element.
pub const SCALAR_BYTES: usize = 32;

/// The prime order of the scalar field of BLS12-381.
pub open spec fn modulus() -> nat {
    0x73eda753299d7d483339d80809a1d80553bda402fffe5bfeffffffff00000001nat
}

/// The integer that `bytes` holds in little-endian order.
pub open spec fn le_value(bytes: Seq<u8>) -> nat
    decreases bytes.len(),
{
    if bytes.len() == 0 {
        0
    } else {
        bytes[0] as nat + 256 * le_value(bytes.drop_first())
    }
}

/// The `width` low-order bytes of `value`, least significant first.
pub open spec fn le_bytes(value: nat, width: nat) -> Seq<u8>
    decreases width,
{
    if width == 0 {
        Seq::empty()
    } else {
        seq![(value % 256) as u8] + le_bytes(value / 256, (width - 1) as nat)
    }
}

/// 256 to the power `width`: the number of byte strings of that length.
pub open spec fn radix_pow(width: nat) -> nat
    decreases width,
{
    if width == 0 {
        1
    } else {
        256 * radix_pow((width - 1) as nat)
    }
}

/// What decoding `bytes` gives: the integer they hold, if they are at most
/// `SCALAR_BYTES` long and the integer is below the modulus.
pub open spec fn spec_decode(bytes: Seq<u8>) -> Result<nat, Error> {
    if bytes.len() <= SCALAR_BYTES && le_value(bytes) < modulus() {
        Ok(le_value(bytes))
    } else {
        Err(Error::EncodingError)
    }
}

/// The canonical encoding of `value`: always `SCALAR_BYTES` bytes.
pub open spec fn spec_encode(value: nat) -> Seq<u8> {
    le_bytes(value, SCALAR_BYTES as nat)
}

pub proof fn lemma_le_bytes_len(value: nat, width: nat)
    ensures
        le_bytes(value, width).len() == width,
    decreases width,
{
    if width > 0 {
        lemma_le_bytes_len(value / 256, (width - 1) as nat);
    }
}

/// Reading back the bytes of `value` gives `value`, if it fits the width.
pub proof fn lemma_le_value_of_le_bytes(value: nat, width: nat)
    requires
        value < radix_pow(width),
    ensures
        le_value(le_bytes(value, width)) == value,
    decreases width,
{
    if width > 0 {
        let rest = le_bytes(value / 256, (width - 1) as nat);
        let all = le_bytes(value, width);
        assert(all.drop_first() =~= rest);
        lemma_le_value_of_le_bytes(value / 256, (width - 1) as nat);
    }
}

/// Writing out the integer that `bytes` holds, at their own length, gives
/// `bytes` back: a byte string is determined by its length and its value.
pub proof fn lemma_le_bytes_of_le_value(bytes: Seq<u8>)
    ensures
        le_bytes(le_value(bytes), bytes.len()) == bytes,
    decreases bytes.len(),
{
    if bytes.len() > 0 {
        let rest = bytes.drop_first();
        lemma_le_bytes_of_le_value(rest);
        let v = le_value(bytes);
        assert(v % 256 == bytes[0] as nat);
        assert(v / 256 == le_value(rest));
        assert(le_bytes(v, bytes.len()) =~= bytes);
    } else {
        assert(le_bytes(0, 0) =~= bytes);
    }
}

/// Zero bytes at the high end do not change the integer.
pub proof fn lemma_le_value_zero_padded(bytes: Seq<u8>, padded: Seq<u8>)
    requires
        bytes.len() <= padded.len(),
        forall|i: int| 0 <= i < bytes.len() ==> padded[i] == bytes[i],
        forall|i: int| bytes.len() <= i < padded.len() ==> padded[i] == 0,
    ensures
        le_value(padded) == le_value(bytes),
    decreases padded.len(),
{
    if padded.len() > 0 {
        if bytes.len() == 0 {
            lemma_le_value_zero_padded(bytes, padded.drop_first());
        } else {
            lemma_le_value_zero_padded(bytes.drop_first(), padded.drop_first());
        }
    }
}

/// A field element: an integer below the modulus, held in its canonical
/// little-endian bytes. Its view is that integer.
#[derive(Clone, Copy, Debug, PartialEq, Eq)]
pub struct FieldElement {
    repr: [u8; 32],
}

impl View for FieldElement {
    type V = nat;

    closed spec fn view(&self) -> nat {
        le_value(self.repr@)
    }
}

impl FieldElement {
    #[verifier::type_invariant]
    spec fn canonical(self) -> bool {
        le_value(self.repr@) < modulus()
    }

    /// Wraps bytes that are known to be canonical.
    pub(crate) fn from_canonical(repr: [u8; 32]) -> (fe: FieldElement)
        requires
            le_value(repr@) < modulus(),
        ensures
            fe@ == le_value(repr@),
    {
        FieldElement { repr }
    }

    /// The additive identity.
    pub fn zero() -> (fe: FieldElement)
        ensures
            fe@ == 0,
    {
        let repr = [0u8; 32];
        proof {
            lemma_le_value_zero_padded(Seq::<u8>::empty(), repr@);
        }
        FieldElement { repr }
    }

    /// The multiplicative identity.
    pub fn one() -> (fe: FieldElement)
        ensures
            fe@ == 1,
    {
        let mut repr = [0u8; 32];
        repr[0] = 1;
        proof {
            let low = seq![1u8];
            assert(low.drop_first() =~= Seq::<u8>::empty());
            assert(le_value(low.drop_first()) == 0);
            assert(le_value(low) == 1);
            lemma_le_value_zero_padded(low, repr@);
        }
        FieldElement { repr }
    }

    /// The largest element: the modulus less one. It marks the field of a
    /// statement.
    pub fn maximum() -> (fe: FieldElement)
        ensures
            fe@ == modulus() - 1,
    {
        FieldElement::from_canonical(largest_repr())
    }

    /// The canonical bytes: always `SCALAR_BYTES` of them, never trimmed.
    pub fn to_bytes(&self) -> (bytes: [u8; 32])
        ensures
            bytes@ == spec_encode(self@),
            self@ < modulus(),
    {
        proof {
            use_type_invariant(self);
            lemma_le_bytes_of_le_value(self.repr@);
        }
        self.repr
    }

    /// Whether two elements are the same integer.
    pub fn same(&self, other: &FieldElement) -> (r: bool)
        ensures
            r == (self@ == other@),
    {
        let mut i: usize = 0;
        while i < 32
            invariant
                i <= 32,
                forall|j: int| 0 <= j < i ==> self.repr@[j] == other.repr@[j],
            decreases 32 - i,
        {
            if self.repr[i] != other.repr[i] {
                proof {
                    if self@ == other@ {
                        lemma_le_bytes_of_le_value(self.repr@);
                        lemma_le_bytes_of_le_value(other.repr@);
                    }
                }
                return false;
            }
            i += 1;
        }
        assert(self.repr@ =~= other.repr@);
        true
    }
}

/// A field element is determined by its integer: two elements with the
/// same integer are the same element.
pub proof fn law_value_determines_element(a: FieldElement, b: FieldElement)
    requires
        a@ == b@,
    ensures
        a == b,
{
    lemma_le_bytes_of_le_value(a.repr@);
    lemma_le_bytes_of_le_value(b.repr@);
    assert(a.repr@ =~= b.repr@);
    assert(a.repr =~= b.repr);
}

/// Whether `repr` holds an integer below the field modulus.
///
/// Calls `bls12_381::Scalar::from_bytes`, which reads the 32 bytes as a
/// little-endian integer and yields a scalar exactly when that integer is
/// smaller than the order of the scalar field, the number in `modulus`.
#[verifier::external_body]
pub(crate) fn is_canonical(repr: &[u8; 32]) -> (ok: bool)
    ensures
        ok == (le_value(repr@) < modulus()),
{
    bool::from(Scalar::from_bytes(repr).is_some())
}

/// The canonical bytes of the largest element of the field.
///
/// Calls `bls12_381::Scalar::one`, `neg` and `to_bytes`: the negation of
/// one is the order of the field less one, and `to_bytes` writes it as a
/// little-endian integer of 32 bytes.
#[verifier::external_body]
pub(crate) fn largest_repr() -> (repr: [u8; 32])
    ensures
        le_value(repr@) == modulus() - 1,
{
    Scalar::one().neg().to_bytes()
}

/// The modulus fits the canonical width.
pub proof fn lemma_modulus_fits()
    ensures
        modulus() < radix_pow(SCALAR_BYTES as nat),
{
    reveal_with_fuel(radix_pow, 33);
}

/// Decoding undoes encoding: for every field element, the canonical
/// encoding decodes, and it decodes to that element.
pub proof fn law_decode_inverts_encode(value: nat)
    requires
        value < modulus(),
    ensures
        spec_encode(value).len() == SCALAR_BYTES,
        spec_decode(spec_encode(value)) == Ok::<nat, Error>(value),
{
    lemma_modulus_fits();
    lemma_le_bytes_len(value, SCALAR_BYTES as nat);
    lemma_le_value_of_le_bytes(value, SCALAR_BYTES as nat);
}

/// Encoding what was decoded gives the bytes back with zeros added at the
/// high end up to the canonical width: it is longer than the input where
/// the input was shorter than that, and never shorter.
pub proof fn law_encode_pads_decoded(bytes: Seq<u8>)
    requires
        spec_decode(bytes) is Ok,
    ensures
        spec_encode(spec_decode(bytes)->Ok_0) == bytes + Seq::new(
            (SCALAR_BYTES - bytes.len()) as nat,
            |i: int| 0u8,
        ),
{
    let padded = bytes + Seq::new((SCALAR_BYTES - bytes.len()) as nat, |i: int| 0u8);
    lemma_le_value_zero_padded(bytes, padded);
    lemma_le_bytes_of_le_value(padded);
}

/// Bytes beyond the canonical width never decode.
pub proof fn law_decode_rejects_oversized(bytes: Seq<u8>)
    requires
        bytes.len() > SCALAR_BYTES,
    ensures
        spec_decode(bytes) == Err::<nat, Error>(Error::EncodingError),
{
}

/// An integer that is not below the modulus never decodes, whatever the
/// length of its bytes.
pub proof fn law_decode_rejects_non_canonical(bytes: Seq<u8>)
    requires
        le_value(bytes) >= modulus(),
    ensures
        spec_decode(bytes) == Err::<nat, Error>(Error::EncodingError),
{
}

} // verus!
