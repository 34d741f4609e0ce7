use plasma::account::Account;
use plasma::curve::CurveParams;
use plasma::field::FieldElement;
use plasma::merkle::{hash_leaf, hash_node};
use plasma::tree::AccountTree;
use sapling_crypto_ce::alt_babyjubjub::AltJubjubBn256;
use sapling_crypto_ce::bellman::pairing::bn256::Bn256;
use sapling_crypto_ce::bellman::pairing::ff::PrimeField;
use sapling_crypto_ce::pedersen_hash::{pedersen_hash, Personalization};

fn account(balance: u128, nonce: u32) -> Account {
    Account {
        balance,
        nonce,
        public_key_x: FieldElement::from_u64(3),
        public_key_y: FieldElement::from_u64(4),
    }
}

fn low_bits(limbs: [u64; 4], count: usize) -> Vec<bool> {
    (0..count).map(|i| (limbs[i / 64] >> (i % 64)) & 1 == 1).collect()
}

fn account_bits(a: &Account) -> Vec<bool> {
    let mut bits = low_bits([a.balance as u64, (a.balance >> 64) as u64, 0, 0], 128);
    bits.extend(low_bits([a.nonce as u64, 0, 0, 0], 32));
    bits.extend(low_bits(a.public_key_x.limbs(), 254));
    bits.extend(low_bits(a.public_key_y.limbs(), 254));
    bits
}

fn reference_hash(tag: Personalization, bits: Vec<bool>, params: &AltJubjubBn256) -> [u64; 4] {
    pedersen_hash::<Bn256, _>(tag, bits, params).into_xy().0.into_repr().0
}

fn reference_leaf(a: &Account, params: &AltJubjubBn256) -> [u64; 4] {
    reference_hash(Personalization::NoteCommitment, account_bits(a), params)
}

fn reference_node(level: usize, l: [u64; 4], r: [u64; 4], params: &AltJubjubBn256) -> [u64; 4] {
    let mut bits = low_bits(l, 254);
    bits.extend(low_bits(r, 254));
    reference_hash(Personalization::MerkleTree(level), bits, params)
}

fn reference_defaults(params: &AltJubjubBn256) -> Vec<[u64; 4]> {
    let mut out = vec![reference_leaf(&Account::default(), params)];
    for level in 0..32 {
        let below = out[level];
        out.push(reference_node(level, below, below, params));
    }
    out
}

fn reference_root(leaves: &[(u32, Account)], params: &AltJubjubBn256) -> [u64; 4] {
    let defaults = reference_defaults(params);
    let mut row: Vec<(u64, [u64; 4])> =
        leaves.iter().map(|(id, a)| (*id as u64, reference_leaf(a, params))).collect();
    row.sort();
    for level in 0..32 {
        let mut above: Vec<(u64, [u64; 4])> = Vec::new();
        for (index, hash) in row.iter() {
            let parent = index / 2;
            if above.last().map(|(i, _)| *i) == Some(parent) {
                continue;
            }
            let find = |i: u64| row.iter().find(|(j, _)| *j == i).map(|(_, h)| *h);
            let left = find(2 * parent).unwrap_or(defaults[level]);
            let right = find(2 * parent + 1).unwrap_or(defaults[level]);
            assert!(*hash == left || *hash == right);
            above.push((parent, reference_node(level, left, right, params)));
        }
        row = above;
    }
    if row.is_empty() {
        defaults[32]
    } else {
        row[0].1
    }
}

#[test]
fn leaf_hash_is_the_pedersen_hash_of_the_account_bits() {
    let params = CurveParams::new();
    let outside = AltJubjubBn256::new();
    let a = account(1234567, 89);
    let hash = hash_leaf(&a, &params);
    assert_eq!(hash.limbs(), reference_leaf(&a, &outside));
    assert_ne!(hash, hash_leaf(&account(1234568, 89), &params));
    assert_ne!(hash, hash_leaf(&account(1234567, 90), &params));
}

#[test]
fn node_hash_is_the_pedersen_hash_of_both_children() {
    let params = CurveParams::new();
    let outside = AltJubjubBn256::new();
    let l = FieldElement::from_limbs([7, 8, 9, 10]).unwrap();
    let r = FieldElement::from_limbs([11, 12, 13, 14]).unwrap();
    let hash = hash_node(5, &l, &r, &params);
    assert_eq!(hash.limbs(), reference_node(5, l.limbs(), r.limbs(), &outside));
    assert_ne!(hash, hash_node(5, &r, &l, &params));
    assert_ne!(hash, hash_node(6, &l, &r, &params));
    assert_ne!(hash, l);
    assert_ne!(hash, r);
    assert_eq!(
        hash_node(31, &l, &r, &params).limbs(),
        reference_node(31, l.limbs(), r.limbs(), &outside)
    );
}

#[test]
fn hashes_are_reduced_field_elements() {
    let params = CurveParams::new();
    let hash = hash_leaf(&account(1, 1), &params);
    assert_eq!(FieldElement::from_limbs(hash.limbs()), Some(hash));
}

#[test]
fn empty_tree_has_the_default_root() {
    let tree = AccountTree::new(CurveParams::new());
    let outside = AltJubjubBn256::new();
    assert_eq!(tree.root_hash().limbs(), reference_defaults(&outside)[32]);
    assert_eq!(tree.root_hash().limbs(), reference_root(&[], &outside));
    assert_eq!(tree.len(), 0);
    assert_eq!(tree.listing(), vec![]);
    assert_eq!(tree.get(0), None);
}

#[test]
fn root_follows_every_insertion() {
    let mut tree = AccountTree::new(CurveParams::new());
    let outside = AltJubjubBn256::new();
    let mut written: Vec<(u32, Account)> = Vec::new();
    let ids = [5u32, 4, 0, u32::MAX, 0x8000_0000, 6, 0x7fff_ffff];
    for (n, id) in ids.iter().enumerate() {
        let a = account(1000 + n as u128, n as u32);
        tree.insert(*id, a);
        written.push((*id, a));
        assert_eq!(tree.root_hash().limbs(), reference_root(&written, &outside));
    }
    let a = account(1, 1);
    tree.insert(4, a);
    written[1] = (4, a);
    assert_eq!(tree.root_hash().limbs(), reference_root(&written, &outside));
    assert_eq!(tree.len(), 7);
}

#[test]
fn get_returns_what_was_written_last() {
    let mut tree = AccountTree::new(CurveParams::new());
    assert_eq!(tree.get(10), None);
    tree.insert(10, account(1, 0));
    tree.insert(20, account(2, 0));
    tree.insert(10, account(3, 1));
    assert_eq!(tree.get(10), Some(account(3, 1)));
    assert_eq!(tree.get(20), Some(account(2, 0)));
    assert_eq!(tree.get(15), None);
    assert_eq!(tree.get(0), None);
    assert_eq!(tree.get(u32::MAX), None);
    assert_eq!(tree.len(), 2);
}

#[test]
fn listing_ascends_by_identifier() {
    let mut tree = AccountTree::new(CurveParams::new());
    for id in [9u32, 3, 7, 1, 8, 3, u32::MAX, 0] {
        tree.insert(id, account(id as u128, 0));
    }
    let ids: Vec<u32> = tree.listing().iter().map(|e| e.0).collect();
    assert_eq!(ids, vec![0, 1, 3, 7, 8, 9, u32::MAX]);
    for (id, a) in tree.listing() {
        assert_eq!(a, account(id as u128, 0));
    }
}

#[test]
fn writing_the_same_account_again_keeps_the_root() {
    let mut tree = AccountTree::new(CurveParams::new());
    tree.insert(1, account(5, 0));
    tree.insert(2, account(6, 0));
    let root = tree.root_hash();
    tree.insert(1, account(5, 0));
    assert_eq!(tree.root_hash(), root);
    assert_eq!(tree.listing(), vec![(1, account(5, 0)), (2, account(6, 0))]);
    tree.insert(1, account(5, 1));
    assert_ne!(tree.root_hash(), root);
    tree.insert(1, account(5, 0));
    assert_eq!(tree.root_hash(), root);
}

#[test]
fn written_default_account_commits_like_an_absent_one() {
    let mut tree = AccountTree::new(CurveParams::new());
    let empty_root = tree.root_hash();
    tree.insert(77, Account::default());
    assert_eq!(tree.root_hash(), empty_root);
    assert_eq!(tree.get(77), Some(Account::default()));
    tree.insert(1, account(5, 0));
    let mut other = AccountTree::new(CurveParams::new());
    other.insert(1, account(5, 0));
    assert_eq!(tree.root_hash(), other.root_hash());
    assert_ne!(tree.listing(), other.listing());
}

#[test]
fn order_of_insertion_does_not_change_the_root() {
    let entries = [(4u32, account(1, 0)), (5, account(2, 0)), (900, account(3, 0))];
    let mut forward = AccountTree::new(CurveParams::new());
    for (id, a) in entries.iter() {
        forward.insert(*id, *a);
    }
    let mut backward = AccountTree::new(CurveParams::new());
    for (id, a) in entries.iter().rev() {
        backward.insert(*id, *a);
    }
    assert_eq!(forward.root_hash(), backward.root_hash());
    assert_eq!(forward.listing(), backward.listing());
}

#[test]
fn position_of_an_account_changes_the_root() {
    let mut left = AccountTree::new(CurveParams::new());
    left.insert(0, account(1, 0));
    let mut right = AccountTree::new(CurveParams::new());
    right.insert(1, account(1, 0));
    assert_ne!(left.root_hash(), right.root_hash());
}

#[test]
fn tree_from_entries_keeps_the_later_of_two() {
    let entries = vec![(2u32, account(1, 0)), (1, account(2, 0)), (2, account(3, 0))];
    let tree = AccountTree::from_entries(&entries, CurveParams::new());
    assert_eq!(tree.listing(), vec![(1, account(2, 0)), (2, account(3, 0))]);
    let mut by_hand = AccountTree::new(CurveParams::new());
    by_hand.insert(1, account(2, 0));
    by_hand.insert(2, account(3, 0));
    assert_eq!(tree.root_hash(), by_hand.root_hash());
    let again = AccountTree::from_entries(&tree.listing(), CurveParams::new());
    assert_eq!(again.root_hash(), tree.root_hash());
    assert_eq!(again.listing(), tree.listing());
}

#[test]
fn hashes_have_their_known_values() {
    let params = CurveParams::new();
    let leaf = hash_leaf(&Account::default(), &params);
    assert_eq!(
        leaf.limbs(),
        [0x4f66bd9436bcfd8e, 0xcf9aac9c7b70c7b5, 0xa8460aa7b19af037, 0x25b968f9d6d6a6c0]
    );
    let node = hash_node(0, &leaf, &leaf, &params);
    assert_eq!(
        node.limbs(),
        [0x3c2739072c580541, 0xf701e83777dad1d0, 0xc459b681329d3c1c, 0x08f66b2f0ea40523]
    );
    let empty = AccountTree::new(CurveParams::new());
    assert_eq!(
        empty.root_hash().limbs(),
        [0x1f39ff4610424ca7, 0xca361ce808c8224a, 0xc8feee2a622559e8, 0x2848f926d2f358a0]
    );
    let mut one = AccountTree::new(CurveParams::new());
    one.insert(1, account(100, 0));
    assert_eq!(
        one.root_hash().limbs(),
        [0x8545b2038564d50a, 0x6742c2322cf4955b, 0xcc73f3a5c7cbcdeb, 0x09861335b253fa35]
    );
}
