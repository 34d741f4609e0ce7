use vstd::prelude::*;
use crate::account::Account;
use crate::curve::{hash_to_field, pedersen_hash_x, CurveParams};
use crate::field::{field_bits, FieldElement};

verus! {

/// Height of the root above the leaves: one level per bit of an identifier.
pub const TREE_DEPTH: usize = 32;

/// The hash of a leaf that holds `account`.
pub open spec fn leaf_digest(account: Account) -> Seq<u64> {
    pedersen_hash_x(None, account.bits())
}

/// The hash of a node whose children, at height `level`, hash to `left` and
/// `right`.
pub open spec fn node_digest(level: nat, left: Seq<u64>, right: Seq<u64>) -> Seq<u64> {
    pedersen_hash_x(Some(level), field_bits(left) + field_bits(right))
}

/// The account read at leaf `index`: the one stored there or, where none is
/// stored, the default account.
pub open spec fn leaf_at(accounts: Map<u32, Account>, index: nat) -> Account {
    if index <= u32::MAX && accounts.contains_key(index as u32) {
        accounts[index as u32]
    } else {
        Account::spec_default()
    }
}

/// The hash of the `index`-th node, from the left, at `height` above the
/// leaves, in the tree that commits to `accounts`.
pub open spec fn subtree_hash(accounts: Map<u32, Account>, height: nat, index: nat) -> Seq<u64>
    decreases height,
{
    if height == 0 {
        leaf_digest(leaf_at(accounts, index))
    } else {
        node_digest(
            (height - 1) as nat,
            subtree_hash(accounts, (height - 1) as nat, 2 * index),
            subtree_hash(accounts, (height - 1) as nat, 2 * index + 1),
        )
    }
}

/// The hash of a subtree of `height` in which nothing was ever written.
pub open spec fn default_hash(height: nat) -> Seq<u64>
    decreases height,
{
    if height == 0 {
        leaf_digest(Account::spec_default())
    } else {
        node_digest(
            (height - 1) as nat,
            default_hash((height - 1) as nat),
            default_hash((height - 1) as nat),
        )
    }
}

/// The commitment to a whole mapping: the hash of the node at full height.
pub open spec fn root_of(accounts: Map<u32, Account>) -> Seq<u64> {
    subtree_hash(accounts, TREE_DEPTH as nat, 0)
}

/// Index of the node at `height` on the path from leaf `id` to the root.
pub open spec fn ancestor(id: nat, height: nat) -> nat
    decreases height,
{
    if height == 0 {
        id
    } else {
        ancestor(id, (height - 1) as nat) / 2
    }
}

/// Number of nodes at `height`.
pub open spec fn nodes_at(height: nat) -> nat
    decreases TREE_DEPTH - height,
{
    if height >= TREE_DEPTH {
        1
    } else {
        2 * nodes_at(height + 1)
    }
}

/// There is one leaf for each identifier.
pub proof fn lemma_leaf_count()
    ensures
        nodes_at(0) == 0x1_0000_0000,
{
    reveal_with_fuel(nodes_at, 33);
}

/// Two mappings that read alike at every leaf hash alike at every node.
pub proof fn lemma_same_leaves(
    a: Map<u32, Account>,
    b: Map<u32, Account>,
    height: nat,
    index: nat,
)
    requires
        forall|i: nat| leaf_at(a, i) == leaf_at(b, i),
    ensures
        subtree_hash(a, height, index) == subtree_hash(b, height, index),
    decreases height,
{
    if height > 0 {
        lemma_same_leaves(a, b, (height - 1) as nat, 2 * index);
        lemma_same_leaves(a, b, (height - 1) as nat, 2 * index + 1);
    }
}

/// In the empty mapping every node has the default hash of its height.
pub proof fn lemma_empty_subtree(height: nat, index: nat)
    ensures
        subtree_hash(Map::<u32, Account>::empty(), height, index) == default_hash(height),
    decreases height,
{
    if height > 0 {
        lemma_empty_subtree((height - 1) as nat, 2 * index);
        lemma_empty_subtree((height - 1) as nat, 2 * index + 1);
    }
}

/// Writing leaf `id` leaves the hash of every node off its path unchanged.
pub proof fn lemma_off_path(
    accounts: Map<u32, Account>,
    id: u32,
    account: Account,
    height: nat,
    index: nat,
)
    requires
        index != ancestor(id as nat, height),
    ensures
        subtree_hash(accounts.insert(id, account), height, index) == subtree_hash(
            accounts,
            height,
            index,
        ),
    decreases height,
{
    if height > 0 {
        lemma_off_path(accounts, id, account, (height - 1) as nat, 2 * index);
        lemma_off_path(accounts, id, account, (height - 1) as nat, 2 * index + 1);
    }
}

/// Writing the default account at an identifier that was never written
/// changes no hash: a leaf that is absent and a leaf that holds the default
/// account commit alike.
pub proof fn lemma_explicit_default(accounts: Map<u32, Account>, id: u32)
    requires
        !accounts.contains_key(id),
    ensures
        root_of(accounts.insert(id, Account::spec_default())) == root_of(accounts),
{
    let written = accounts.insert(id, Account::spec_default());
    assert forall|i: nat| leaf_at(written, i) == leaf_at(accounts, i) by {}
    lemma_same_leaves(written, accounts, TREE_DEPTH as nat, 0);
}

/// The commitment does not depend on the order in which two different
/// leaves were written.
pub proof fn lemma_insert_order(
    accounts: Map<u32, Account>,
    first: u32,
    a: Account,
    second: u32,
    b: Account,
)
    requires
        first != second,
    ensures
        accounts.insert(first, a).insert(second, b) == accounts.insert(second, b).insert(first, a),
        root_of(accounts.insert(first, a).insert(second, b)) == root_of(
            accounts.insert(second, b).insert(first, a),
        ),
{
    assert(accounts.insert(first, a).insert(second, b) =~= accounts.insert(second, b).insert(
        first,
        a,
    ));
}

/// Writing the same account at the same identifier a second time changes
/// neither the mapping nor the commitment.
pub proof fn lemma_insert_twice(accounts: Map<u32, Account>, id: u32, account: Account)
    ensures
        accounts.insert(id, account).insert(id, account) == accounts.insert(id, account),
        root_of(accounts.insert(id, account).insert(id, account)) == root_of(
            accounts.insert(id, account),
        ),
{
    assert(accounts.insert(id, account).insert(id, account) =~= accounts.insert(id, account));
}

/// Hashes the leaf that holds `account`.
pub fn hash_leaf(account: &Account, params: &CurveParams) -> (r: FieldElement)
    ensures
        r@ == leaf_digest(*account),
{
    let bits = account.to_bits();
    proof {
        account.lemma_bits_len();
    }
    hash_to_field(None, &bits, params)
}

/// Hashes the node whose children, at height `level`, hash to `left` and
/// `right`.
pub fn hash_node(level: usize, left: &FieldElement, right: &FieldElement, params: &CurveParams) -> (r:
    FieldElement)
    requires
        level < TREE_DEPTH,
    ensures
        r@ == node_digest(level as nat, left@, right@),
{
    let mut bits: Vec<bool> = Vec::new();
    left.push_bits(&mut bits);
    right.push_bits(&mut bits);
    assert(bits@ =~= field_bits(left@) + field_bits(right@));
    hash_to_field(Some(level), &bits, params)
}

} // verus!
