use plasma::account::Account;
use plasma::curve::{CurveParams, KeyError, PublicKey};
use plasma::field::FieldElement;
use plasma::state::PlasmaState;
use plasma::tree::AccountTree;
use sapling_crypto_ce::alt_babyjubjub::AltJubjubBn256;
use sapling_crypto_ce::bellman::pairing::bn256::{Bn256, Fr};
use sapling_crypto_ce::bellman::pairing::ff::{Field, PrimeField};
use sapling_crypto_ce::jubjub::{edwards, FixedGenerators, JubjubParams, Unknown};

fn element(fr: &Fr) -> FieldElement {
    FieldElement::from_limbs(fr.into_repr().0).unwrap()
}

fn keyed(x: FieldElement, y: FieldElement) -> Account {
    Account { balance: 1, nonce: 0, public_key_x: x, public_key_y: y }
}

fn state_with(accounts: &[(u32, Account)]) -> PlasmaState {
    let mut tree = AccountTree::new(CurveParams::new());
    for (id, acc) in accounts {
        tree.insert(*id, *acc);
    }
    PlasmaState { balance_tree: tree, block_number: 0 }
}

fn generator() -> (FieldElement, FieldElement) {
    let outside = AltJubjubBn256::new();
    let (x, y) = outside.generator(FixedGenerators::SpendingKeyGenerator).into_xy();
    (element(&x), element(&y))
}

#[test]
fn stored_curve_point_is_recovered() {
    let (x, y) = generator();
    let state = state_with(&[(3, keyed(x, y))]);
    let key = state.get_pub_key(3).unwrap();
    assert_eq!(key.x(), x);
    assert_eq!(key.y(), y);
    assert_eq!(Ok(key), PublicKey::recover(x, y, state.balance_tree.params()));
}

#[test]
fn recovery_agrees_with_the_curve_library() {
    let outside = AltJubjubBn256::new();
    let params = CurveParams::new();
    let (gx, gy) = outside.generator(FixedGenerators::ProofGenerationKey).into_xy();
    let mut other = gy;
    other.add_assign(&Fr::one());
    let candidates = [gy, other];
    for y in candidates.iter() {
        let outside_says = edwards::Point::<Bn256, Unknown>::from_xy(gx, *y, &outside).is_some();
        let ours = PublicKey::recover(element(&gx), element(y), &params);
        assert_eq!(ours.is_ok(), outside_says);
    }
}

#[test]
fn pair_off_the_curve_gives_nothing() {
    let (x, y) = generator();
    let one = FieldElement::from_u64(1);
    let state = state_with(&[(1, keyed(one, one)), (2, keyed(y, x)), (3, keyed(x, one))]);
    assert_eq!(state.get_pub_key(1), None);
    assert_eq!(state.get_pub_key(2), None);
    assert_eq!(state.get_pub_key(3), None);
}

#[test]
fn zeroed_key_is_no_curve_point() {
    let state = state_with(&[(1, Account::default())]);
    assert_eq!(state.get_pub_key(1), None);
}

#[test]
fn neutral_point_is_a_key() {
    let state = state_with(&[(1, keyed(FieldElement::zero(), FieldElement::from_u64(1)))]);
    let key = state.get_pub_key(1).unwrap();
    assert_eq!(key.x(), FieldElement::zero());
    assert_eq!(key.y(), FieldElement::from_u64(1));
}

#[test]
fn unwritten_account_has_no_key() {
    let (x, y) = generator();
    let state = state_with(&[(3, keyed(x, y))]);
    assert_eq!(state.get_pub_key(4), None);
    assert_eq!(state.get_pub_key(0), None);
}

#[test]
fn recover_names_the_invalid_point() {
    let params = CurveParams::new();
    let one = FieldElement::from_u64(1);
    assert_eq!(PublicKey::recover(one, one, &params), Err(KeyError::InvalidCurvePoint));
    assert_eq!(
        PublicKey::recover(FieldElement::zero(), FieldElement::zero(), &params),
        Err(KeyError::InvalidCurvePoint)
    );
}

#[test]
fn key_survives_transfers() {
    let (x, y) = generator();
    let mut state = state_with(&[(1, Account { balance: 10, ..keyed(x, y) }), (2, Account::default())]);
    let tx = plasma::state::TransferTx { from: 1, to: 2, amount: 4, nonce: 0 };
    assert_eq!(state.apply(&tx), Ok(()));
    let key = state.get_pub_key(1).unwrap();
    assert_eq!((key.x(), key.y()), (x, y));
    assert_eq!(state.get_pub_key(2), None);
}
