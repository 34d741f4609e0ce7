use vstd::prelude::*;
use crate::field::{field_modulus, FieldElement};
use sapling_crypto_ce::alt_babyjubjub::AltJubjubBn256;
use sapling_crypto_ce::bellman::pairing::bn256::{Bn256, Fr, FrRepr};
use sapling_crypto_ce::bellman::pairing::ff::PrimeField;
use sapling_crypto_ce::jubjub::{edwards, Unknown};
use sapling_crypto_ce::pedersen_hash::{pedersen_hash, Personalization};

verus! {

/// The most bits that one hash takes: five generators of 62 three-bit chunks
/// each, less the six bits of the domain tag.
pub const MAX_HASH_BITS: usize = 924;

/// The parameter set of the twisted Edwards curve over the BN256 scalar
/// field, as `sapling_crypto_ce` holds it. Nothing is known of a value but
/// that it exists.
#[verifier::external_type_specification]
#[verifier::external_body]
pub struct ExAltJubjubBn256(AltJubjubBn256);

/// `AltJubjubBn256::new` derives the curve constants and generator tables.
/// Nothing is claimed of the result.
pub assume_specification[ AltJubjubBn256::new ]() -> (r: AltJubjubBn256)
;

/// The x-coordinate, as four limbs, of the Pedersen hash that
/// `sapling_crypto_ce::pedersen_hash::pedersen_hash` computes over the
/// alternative Baby Jubjub curve. `level` is `None` under the leaf
/// personalization (`NoteCommitment`) and `Some(i)` under that of tree level
/// `i` (`MerkleTree(i)`).
pub uninterp spec fn pedersen_hash_x(level: Option<nat>, bits: Seq<bool>) -> Seq<u64>;

/// The coefficient `d` of the curve `-x^2 + y^2 = 1 + d x^2 y^2`.
pub open spec fn edwards_d() -> nat {
    12181644023421730124874158521699555681764249180949974110617291017600649128846nat
}

/// Whether `(x, y)` satisfies the curve equation in the prime field.
pub open spec fn on_curve(x: nat, y: nat) -> bool {
    let p = field_modulus() as int;
    let xx = (x * x) as int;
    let yy = (y * y) as int;
    (yy - xx) % p == (1 + (edwards_d() as int) * xx * yy) % p
}

/// The fixed curve parameters, built once and handed to everything that
/// hashes or validates points.
pub struct CurveParams {
    inner: AltJubjubBn256,
}

impl CurveParams {
    /// Derives the parameters of the alternative Baby Jubjub curve. The
    /// value is opaque here: it is only handed on to the curve library.
    pub fn new() -> (r: CurveParams) {
        CurveParams { inner: AltJubjubBn256::new() }
    }
}

/// Calls `pedersen_hash::<Bn256, _>` on `bits` under the personalization
/// that `level` selects and takes the x-coordinate of the resulting point in
/// canonical form. Trusted: the result is the named hash of exactly these
/// arguments, and it is a reduced field element. The outside function panics
/// on more bits than its generators cover and on a level of 63 or more; both
/// are excluded.
#[verifier::external_body]
pub(crate) fn hash_to_field(level: Option<usize>, bits: &Vec<bool>, params: &CurveParams) -> (r:
    FieldElement)
    requires
        bits@.len() <= MAX_HASH_BITS,
        level matches Some(l) ==> l < 63,
    ensures
        r.in_field(),
        r@ == pedersen_hash_x(
            match level {
                Some(l) => Some(l as nat),
                None => None,
            },
            bits@,
        ),
{
    let tag = match level {
        Some(l) => Personalization::MerkleTree(l),
        None => Personalization::NoteCommitment,
    };
    let x = pedersen_hash::<Bn256, _>(tag, bits.iter().cloned(), &params.inner).into_xy().0;
    let v = x.into_repr().0;
    FieldElement { l0: v[0], l1: v[1], l2: v[2], l3: v[3] }
}

/// Calls `edwards::Point::<Bn256, Unknown>::from_xy` on the two coordinates
/// and reads the point back with `into_xy`. Trusted: the outside function
/// accepts the pair exactly when it satisfies the curve equation `on_curve`,
/// and the accepted point has the coordinates that were given.
#[verifier::external_body]
pub(crate) fn point_from_xy(x: &FieldElement, y: &FieldElement, params: &CurveParams) -> (r:
    Option<(FieldElement, FieldElement)>)
    requires
        x.in_field(),
        y.in_field(),
    ensures
        r == (if on_curve(x.value(), y.value()) {
            Some((*x, *y))
        } else {
            None
        }),
{
    let fx = Fr::from_repr(FrRepr([x.l0, x.l1, x.l2, x.l3])).ok()?;
    let fy = Fr::from_repr(FrRepr([y.l0, y.l1, y.l2, y.l3])).ok()?;
    let (px, py) = edwards::Point::<Bn256, Unknown>::from_xy(fx, fy, &params.inner)?.into_xy();
    let (a, b) = (px.into_repr().0, py.into_repr().0);
    Some(
        (
            FieldElement { l0: a[0], l1: a[1], l2: a[2], l3: a[3] },
            FieldElement { l0: b[0], l1: b[1], l2: b[2], l3: b[3] },
        ),
    )
}

/// Why a pair of coordinates is not a public key.
#[derive(Clone, Copy, Debug, PartialEq, Eq, Structural)]
pub enum KeyError {
    /// The coordinates do not satisfy the curve equation.
    InvalidCurvePoint,
}

/// A public key: a point of the curve in affine coordinates. Every value of
/// this type lies on the curve.
#[derive(Clone, Copy, Debug, PartialEq, Eq, Structural)]
pub struct PublicKey {
    x: FieldElement,
    y: FieldElement,
}

impl PublicKey {
    #[verifier::type_invariant]
    pub closed spec fn valid(self) -> bool {
        self.x.in_field() && self.y.in_field() && on_curve(self.x.value(), self.y.value())
    }

    /// The point's x-coordinate, as a specification value.
    pub closed spec fn spec_x(self) -> FieldElement {
        self.x
    }

    /// The point's y-coordinate, as a specification value.
    pub closed spec fn spec_y(self) -> FieldElement {
        self.y
    }

    /// The key that a pair of coordinates stands for, if it is one.
    pub closed spec fn from_coordinates(x: FieldElement, y: FieldElement) -> Option<PublicKey> {
        if on_curve(x.value(), y.value()) {
            Some(PublicKey { x, y })
        } else {
            None
        }
    }

    /// A pair of coordinates stands for a key exactly when it lies on the
    /// curve, and that key has these coordinates.
    pub proof fn lemma_from_coordinates(x: FieldElement, y: FieldElement)
        ensures
            Self::from_coordinates(x, y) is Some <==> on_curve(x.value(), y.value()),
            Self::from_coordinates(x, y) matches Some(k) ==> k.spec_x() == x && k.spec_y() == y,
    {
    }

    /// A key is determined by its coordinates.
    pub proof fn lemma_coordinates_injective(a: PublicKey, b: PublicKey)
        requires
            a.spec_x() == b.spec_x(),
            a.spec_y() == b.spec_y(),
        ensures
            a == b,
    {
    }

    /// Reconstructs the key from stored coordinates; fails where they are not
    /// a point of the curve.
    pub fn recover(x: FieldElement, y: FieldElement, params: &CurveParams) -> (r: Result<
        PublicKey,
        KeyError,
    >)
        ensures
            r == (match Self::from_coordinates(x, y) {
                Some(k) => Ok::<PublicKey, KeyError>(k),
                None => Err(KeyError::InvalidCurvePoint),
            }),
    {
        proof {
            use_type_invariant(&x);
            use_type_invariant(&y);
        }
        match point_from_xy(&x, &y, params) {
            Some((px, py)) => Ok(PublicKey { x: px, y: py }),
            None => Err(KeyError::InvalidCurvePoint),
        }
    }

    /// The x-coordinate.
    pub fn x(&self) -> (r: FieldElement)
        ensures
            r == self.spec_x(),
    {
        self.x
    }

    /// The y-coordinate.
    pub fn y(&self) -> (r: FieldElement)
        ensures
            r == self.spec_y(),
    {
        self.y
    }
}

} // verus!
