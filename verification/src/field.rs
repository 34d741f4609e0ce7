use vstd::prelude::*;
use crate::bits::{push_word_bits, word_bits};

verus! {

/// The limbs of the field's prime order, least significant first.
pub const MODULUS_LIMB_0: u64 = 0x43e1_f593_f000_0001;

pub const MODULUS_LIMB_1: u64 = 0x2833_e848_79b9_7091;

pub const MODULUS_LIMB_2: u64 = 0xb850_45b6_8181_585d;

pub const MODULUS_LIMB_3: u64 = 0x3064_4e72_e131_a029;

/// Number of bits of a field element that enter a hash.
pub const FIELD_BITS: usize = 254;

/// The prime order of the scalar field that account keys and tree hashes live in.
pub open spec fn field_modulus() -> nat {
    21888242871839275222246405745257275088548364400416034343698204186575808495617nat
}

/// The integer that four limbs, least significant first, stand for.
pub open spec fn limbs_value(limbs: Seq<u64>) -> nat {
    (limbs[0] as nat) + (limbs[1] as nat) * 0x1_0000_0000_0000_0000nat + (limbs[2] as nat)
        * 0x1_0000_0000_0000_0000_0000_0000_0000_0000nat + (limbs[3] as nat)
        * 0x1_0000_0000_0000_0000_0000_0000_0000_0000_0000_0000_0000_0000nat
}

/// The lowest 254 bits of four limbs, least significant first: the form in
/// which a field element is fed to a hash.
pub open spec fn field_bits(limbs: Seq<u64>) -> Seq<bool> {
    word_bits(limbs[0], 64) + word_bits(limbs[1], 64) + word_bits(limbs[2], 64) + word_bits(
        limbs[3],
        62,
    )
}

/// An element of the prime field, held as four 64-bit limbs, least
/// significant first. Every value of this type is below the modulus.
#[derive(Clone, Copy, Debug, PartialEq, Eq, Structural)]
pub struct FieldElement {
    pub(crate) l0: u64,
    pub(crate) l1: u64,
    pub(crate) l2: u64,
    pub(crate) l3: u64,
}

impl View for FieldElement {
    type V = Seq<u64>;

    closed spec fn view(&self) -> Seq<u64> {
        seq![self.l0, self.l1, self.l2, self.l3]
    }
}

impl FieldElement {
    /// Canonical form: the limbs stand for an integer below the modulus.
    #[verifier::type_invariant]
    pub closed spec fn in_field(self) -> bool {
        limbs_value(self@) < field_modulus()
    }

    /// The integer in `0 .. field_modulus()` that this element stands for.
    pub open spec fn value(&self) -> nat {
        limbs_value(self@)
    }

    /// The element zero, as a specification value.
    pub closed spec fn spec_zero() -> FieldElement {
        FieldElement { l0: 0, l1: 0, l2: 0, l3: 0 }
    }

    /// Two elements with the same limbs are the same element.
    pub proof fn lemma_view_injective(a: FieldElement, b: FieldElement)
        requires
            a@ == b@,
        ensures
            a == b,
    {
        assert(a@[0] == b@[0] && a@[1] == b@[1] && a@[2] == b@[2] && a@[3] == b@[3]);
    }

    /// Every element has four limbs.
    pub proof fn lemma_view_len(self)
        ensures
            self@.len() == 4,
    {
    }

    /// What the zero element looks like.
    pub proof fn lemma_zero()
        ensures
            Self::spec_zero()@ == seq![0u64, 0u64, 0u64, 0u64],
            Self::spec_zero().value() == 0,
            Self::spec_zero().in_field(),
    {
    }

    /// The element zero.
    pub fn zero() -> (r: FieldElement)
        ensures
            r == Self::spec_zero(),
    {
        FieldElement { l0: 0, l1: 0, l2: 0, l3: 0 }
    }

    /// The element with the given limbs, least significant first, or `None`
    /// where they stand for an integer that is not below the modulus.
    pub fn from_limbs(limbs: [u64; 4]) -> (r: Option<FieldElement>)
        ensures
            match r {
                Some(e) => e@ == limbs@ && limbs_value(limbs@) < field_modulus(),
                None => limbs_value(limbs@) >= field_modulus(),
            },
    {
        let l0 = limbs[0];
        let l1 = limbs[1];
        let l2 = limbs[2];
        let l3 = limbs[3];
        let below = l3 < MODULUS_LIMB_3 || (l3 == MODULUS_LIMB_3 && (l2 < MODULUS_LIMB_2 || (l2
            == MODULUS_LIMB_2 && (l1 < MODULUS_LIMB_1 || (l1 == MODULUS_LIMB_1 && l0
            < MODULUS_LIMB_0)))));
        if below {
            let e = FieldElement { l0, l1, l2, l3 };
            assert(e@ =~= limbs@);
            Some(e)
        } else {
            None
        }
    }

    /// The element that stands for a small integer.
    pub fn from_u64(v: u64) -> (r: FieldElement)
        ensures
            r@ == seq![v, 0u64, 0u64, 0u64],
            r.value() == v,
    {
        FieldElement { l0: v, l1: 0, l2: 0, l3: 0 }
    }

    /// The limbs, least significant first.
    pub fn limbs(&self) -> (r: [u64; 4])
        ensures
            r@ == self@,
    {
        let r = [self.l0, self.l1, self.l2, self.l3];
        assert(r@ =~= self@);
        r
    }

    /// Appends the element's 254 bits to `out`, least significant first.
    pub fn push_bits(&self, out: &mut Vec<bool>)
        ensures
            final(out)@ == old(out)@ + field_bits(self@),
    {
        push_word_bits(out, self.l0, 64);
        push_word_bits(out, self.l1, 64);
        push_word_bits(out, self.l2, 64);
        push_word_bits(out, self.l3, 62);
        assert(out@ =~= old(out)@ + field_bits(self@));
    }
}

} // verus!
