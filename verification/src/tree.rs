use std::collections::HashMap;
use vstd::prelude::*;
use crate::account::Account;
use crate::curve::CurveParams;
use crate::field::FieldElement;
use crate::merkle::{
    ancestor, default_hash, hash_leaf, hash_node, lemma_empty_subtree, lemma_leaf_count,
    lemma_off_path, nodes_at, root_of, subtree_hash, TREE_DEPTH,
};

verus! {

broadcast use vstd::std_specs::hash::group_hash_axioms;

/// Number of leaves, and a bound on the index of a node at any height.
pub const LEAF_COUNT: u64 = 0x1_0000_0000;

/// Whether `entries` lists `accounts`: every stored account once, in
/// ascending order of identifier, and nothing else.
pub open spec fn is_listing(entries: Seq<(u32, Account)>, accounts: Map<u32, Account>) -> bool {
    &&& forall|i: int, j: int|
        0 <= i < j < entries.len() ==> (#[trigger] entries[i]).0 < (#[trigger] entries[j]).0
    &&& forall|i: int|
        0 <= i < entries.len() ==> accounts.contains_key((#[trigger] entries[i]).0)
            && accounts[entries[i].0] == entries[i].1
    &&& forall|id: u32| #[trigger]
        accounts.contains_key(id) ==> exists|i: int|
            0 <= i < entries.len() && (#[trigger] entries[i]).0 == id
}

/// The mapping that results from writing `entries` one after the other: of
/// two entries with the same identifier the later one stays.
pub open spec fn mapping_of(entries: Seq<(u32, Account)>) -> Map<u32, Account>
    decreases entries.len(),
{
    if entries.len() == 0 {
        Map::empty()
    } else {
        mapping_of(entries.drop_last()).insert(entries.last().0, entries.last().1)
    }
}

/// The key under which the hash of node `index` at `height` is cached.
pub open spec fn node_key(height: nat, index: nat) -> u64 {
    (height * LEAF_COUNT + index) as u64
}

/// Whether the cache is right about one node: a cached hash is the node's
/// hash, and a node that is not cached has the default hash of its height.
pub open spec fn node_ok(
    nodes: Map<u64, FieldElement>,
    accounts: Map<u32, Account>,
    height: nat,
    index: nat,
) -> bool {
    if nodes.contains_key(node_key(height, index)) {
        nodes[node_key(height, index)]@ == subtree_hash(accounts, height, index)
    } else {
        subtree_hash(accounts, height, index) == default_hash(height)
    }
}

/// A sparse Merkle tree over all 32-bit account identifiers.
///
/// Only accounts that were written are stored, and only the hashes of nodes
/// above them; every other node has the default hash of its height. The root
/// is kept up to date by every insertion.
pub struct AccountTree {
    leaves: Vec<(u32, Account)>,
    nodes: HashMap<u64, FieldElement>,
    defaults: Vec<FieldElement>,
    root: FieldElement,
    params: CurveParams,
    accounts: Ghost<Map<u32, Account>>,
}

impl View for AccountTree {
    type V = Map<u32, Account>;

    closed spec fn view(&self) -> Map<u32, Account> {
        self.accounts@
    }
}

/// Without its last entry a listing lists the mapping without that entry's
/// account.
pub proof fn lemma_listing_front(entries: Seq<(u32, Account)>, accounts: Map<u32, Account>)
    requires
        is_listing(entries, accounts),
        entries.len() > 0,
    ensures
        is_listing(entries.drop_last(), accounts.remove(entries.last().0)),
{
    let rest = accounts.remove(entries.last().0);
    let front = entries.drop_last();
    assert forall|n: int| 0 <= n < front.len() implies rest.contains_key((#[trigger] front[n]).0)
        && rest[front[n].0] == front[n].1 by {
        assert(entries[n].0 < entries[entries.len() - 1].0);
    }
    assert forall|k: u32| #[trigger] rest.contains_key(k) implies exists|n: int|
        0 <= n < front.len() && (#[trigger] front[n]).0 == k by {
        assert(accounts.contains_key(k));
        let n = choose|n: int| 0 <= n < entries.len() && (#[trigger] entries[n]).0 == k;
        assert(front[n].0 == k);
    }
}

/// A mapping has only one listing.
pub proof fn lemma_listing_unique(
    a: Seq<(u32, Account)>,
    b: Seq<(u32, Account)>,
    accounts: Map<u32, Account>,
)
    requires
        is_listing(a, accounts),
        is_listing(b, accounts),
    ensures
        a == b,
    decreases a.len(),
{
    if a.len() == 0 {
        if b.len() > 0 {
            assert(accounts.contains_key(b[0].0));
        }
        assert(a =~= b);
    } else {
        let ka = a.last().0;
        assert(accounts.contains_key(ka));
        let j = choose|j: int| 0 <= j < b.len() && (#[trigger] b[j]).0 == ka;
        let kb = b.last().0;
        assert(accounts.contains_key(kb));
        let i = choose|i: int| 0 <= i < a.len() && (#[trigger] a[i]).0 == kb;
        assert(kb <= ka) by {
            if i < a.len() - 1 {
                assert(a[i].0 < a[a.len() - 1].0);
            }
        }
        assert(ka <= kb) by {
            if j < b.len() - 1 {
                assert(b[j].0 < b[b.len() - 1].0);
            }
        }
        lemma_listing_front(a, accounts);
        lemma_listing_front(b, accounts);
        lemma_listing_unique(a.drop_last(), b.drop_last(), accounts.remove(ka));
        assert(a.last() == b.last());
        assert(a =~= a.drop_last().push(a.last()));
        assert(b =~= b.drop_last().push(b.last()));
    }
}

/// Writing the listing of a mapping one entry after the other gives the
/// mapping back.
pub proof fn lemma_listing_rebuilds(entries: Seq<(u32, Account)>, accounts: Map<u32, Account>)
    requires
        is_listing(entries, accounts),
    ensures
        mapping_of(entries) == accounts,
    decreases entries.len(),
{
    if entries.len() == 0 {
        assert(accounts =~= Map::<u32, Account>::empty());
    } else {
        let last = entries.last();
        let rest = accounts.remove(last.0);
        lemma_listing_front(entries, accounts);
        lemma_listing_rebuilds(entries.drop_last(), rest);
        assert(accounts.contains_key(last.0));
        assert(rest.insert(last.0, last.1) =~= accounts);
    }
}

/// The cache key of node `index` at `height`.
fn key_of(height: usize, index: u64) -> (k: u64)
    requires
        height <= TREE_DEPTH,
        index < LEAF_COUNT,
    ensures
        k == node_key(height as nat, index as nat),
{
    (height as u64) * LEAF_COUNT + index
}

/// Position of `id` among sorted entries: whether it occurs, and the index
/// at which it stands or would have to be put.
fn locate(leaves: &Vec<(u32, Account)>, id: u32) -> (r: (bool, usize))
    requires
        forall|i: int, j: int|
            0 <= i < j < leaves@.len() ==> (#[trigger] leaves@[i]).0 < (#[trigger] leaves@[j]).0,
    ensures
        r.1 <= leaves@.len(),
        forall|i: int| 0 <= i < r.1 ==> (#[trigger] leaves@[i]).0 < id,
        forall|i: int| r.1 <= i < leaves@.len() ==> (#[trigger] leaves@[i]).0 >= id,
        r.0 == (r.1 < leaves@.len() && leaves@[r.1 as int].0 == id),
{
    let mut lo: usize = 0;
    let mut hi: usize = leaves.len();
    while lo < hi
        invariant
            lo <= hi <= leaves@.len(),
            forall|i: int, j: int|
                0 <= i < j < leaves@.len() ==> (#[trigger] leaves@[i]).0 < (
                #[trigger] leaves@[j]).0,
            forall|i: int| 0 <= i < lo ==> (#[trigger] leaves@[i]).0 < id,
            forall|i: int| hi <= i < leaves@.len() ==> (#[trigger] leaves@[i]).0 >= id,
        decreases hi - lo,
    {
        let mid = lo + (hi - lo) / 2;
        if leaves[mid].0 < id {
            lo = mid + 1;
        } else {
            hi = mid;
        }
    }
    let found = lo < leaves.len() && leaves[lo].0 == id;
    (found, lo)
}

/// The hash that the cache holds for a node, or the default hash of the
/// node's height where it holds none.
fn cached(
    nodes: &HashMap<u64, FieldElement>,
    defaults: &Vec<FieldElement>,
    height: usize,
    index: u64,
) -> (r: FieldElement)
    requires
        height <= TREE_DEPTH,
        index < LEAF_COUNT,
        defaults@.len() == TREE_DEPTH + 1,
    ensures
        r == (if nodes@.contains_key(node_key(height as nat, index as nat)) {
            nodes@[node_key(height as nat, index as nat)]
        } else {
            defaults@[height as int]
        }),
{
    let key = key_of(height, index);
    match nodes.get(&key) {
        Some(hash) => *hash,
        None => defaults[height],
    }
}

impl AccountTree {
    /// The invariant of the tree: the stored leaves list the mapping in
    /// ascending order, the cache is right about every node, and the root is
    /// the commitment to the mapping.
    pub closed spec fn wf(&self) -> bool {
        &&& is_listing(self.leaves@, self.accounts@)
        &&& self.defaults@.len() == TREE_DEPTH + 1
        &&& forall|h: int|
            0 <= h <= TREE_DEPTH ==> (#[trigger] self.defaults@[h])@ == default_hash(h as nat)
        &&& forall|h: nat, i: nat|
            h <= TREE_DEPTH && i < LEAF_COUNT ==> #[trigger] node_ok(
                self.nodes@,
                self.accounts@,
                h,
                i,
            )
        &&& self.root@ == root_of(self.accounts@)
    }

    /// The stored entries, in the order in which they are listed.
    pub closed spec fn entries(&self) -> Seq<(u32, Account)> {
        self.leaves@
    }

    /// The root, as a specification value.
    pub closed spec fn spec_root(&self) -> FieldElement {
        self.root
    }

    /// The curve parameters that the tree was built with, as a
    /// specification value.
    pub closed spec fn spec_params(&self) -> CurveParams {
        self.params
    }

    /// The stored entries list the mapping.
    pub proof fn lemma_entries(&self)
        requires
            self.wf(),
        ensures
            is_listing(self.entries(), self@),
    {
    }

    /// Two trees that hold the same mapping have the same root and the same
    /// listing, however each of them was built.
    pub proof fn lemma_same_mapping(&self, other: &AccountTree)
        requires
            self.wf(),
            other.wf(),
            self@ == other@,
        ensures
            self.spec_root() == other.spec_root(),
            self.entries() == other.entries(),
    {
        FieldElement::lemma_view_injective(self.root, other.root);
        lemma_listing_unique(self.leaves@, other.leaves@, self@);
    }

    /// The root is the commitment to the mapping.
    pub proof fn lemma_root(&self)
        requires
            self.wf(),
        ensures
            self.spec_root()@ == root_of(self@),
    {
    }

    /// The empty tree: no account was written. It hashes with `params` from
    /// now on.
    pub fn new(params: CurveParams) -> (r: AccountTree)
        ensures
            r.wf(),
            r@ == Map::<u32, Account>::empty(),
            r.spec_params() == params,
    {
        let mut defaults: Vec<FieldElement> = Vec::new();
        let mut cur = hash_leaf(&Account::default(), &params);
        defaults.push(cur);
        let mut h: usize = 0;
        while h < TREE_DEPTH
            invariant
                h <= TREE_DEPTH,
                defaults@.len() == h + 1,
                cur == defaults@[h as int],
                forall|g: int| 0 <= g <= h ==> (#[trigger] defaults@[g])@ == default_hash(g as nat),
            decreases TREE_DEPTH - h,
        {
            cur = hash_node(h, &cur, &cur, &params);
            defaults.push(cur);
            h += 1;
        }
        let tree = AccountTree {
            leaves: Vec::new(),
            nodes: HashMap::new(),
            defaults,
            root: cur,
            params,
            accounts: Ghost(Map::empty()),
        };
        proof {
            assert forall|h: nat, i: nat| h <= TREE_DEPTH && i < LEAF_COUNT implies #[trigger] node_ok(
                tree.nodes@,
                tree.accounts@,
                h,
                i,
            ) by {
                lemma_empty_subtree(h, i);
            }
            lemma_empty_subtree(TREE_DEPTH as nat, 0);
        }
        tree
    }

    /// The tree that results from writing `entries` into the empty tree, one
    /// after the other.
    pub fn from_entries(entries: &Vec<(u32, Account)>, params: CurveParams) -> (r: AccountTree)
        ensures
            r.wf(),
            r@ == mapping_of(entries@),
            r.spec_params() == params,
    {
        let mut tree = AccountTree::new(params);
        let mut i: usize = 0;
        while i < entries.len()
            invariant
                i <= entries@.len(),
                tree.wf(),
                tree@ == mapping_of(entries@.take(i as int)),
                tree.spec_params() == params,
            decreases entries@.len() - i,
        {
            let (id, account) = entries[i];
            tree.insert(id, account);
            i += 1;
            assert(entries@.take(i as int).drop_last() =~= entries@.take(i - 1));
        }
        assert(entries@.take(i as int) =~= entries@);
        tree
    }

    /// The curve parameters that the tree was built with and hashes with.
    pub fn params(&self) -> (r: &CurveParams)
        ensures
            *r == self.spec_params(),
    {
        &self.params
    }

    /// The commitment to the current mapping.
    pub fn root_hash(&self) -> (r: FieldElement)
        requires
            self.wf(),
        ensures
            r == self.spec_root(),
            r@ == root_of(self@),
    {
        self.root
    }

    /// Number of accounts stored.
    pub fn len(&self) -> (r: usize)
        requires
            self.wf(),
        ensures
            r == self.entries().len(),
    {
        self.leaves.len()
    }

    /// Replaces the leaf at `id` by `account` and recomputes the hash of
    /// every node on the path from that leaf to the root.
    pub fn insert(&mut self, id: u32, account: Account)
        requires
            old(self).wf(),
        ensures
            final(self).wf(),
            final(self)@ == old(self)@.insert(id, account),
            final(self).spec_params() == old(self).spec_params(),
    {
        let ghost before = self.accounts@;
        let ghost after = before.insert(id, account);
        let ghost old_nodes = self.nodes@;
        let (found, pos) = locate(&self.leaves, id);
        if found {
            self.leaves[pos] = (id, account);
        } else {
            self.leaves.insert(pos, (id, account));
        }
        self.accounts = Ghost(after);
        proof {
            let was = old(self).leaves@;
            let now = self.leaves@;
            if found {
                assert forall|i: int| 0 <= i < now.len() implies after.contains_key(
                    (#[trigger] now[i]).0,
                ) && after[now[i].0] == now[i].1 by {
                    assert(was[i].0 == now[i].0);
                }
                assert forall|k: u32| #[trigger] after.contains_key(k) implies exists|i: int|
                    0 <= i < now.len() && (#[trigger] now[i]).0 == k by {
                    if k == id {
                        assert(now[pos as int].0 == k);
                    } else {
                        let i = choose|i: int| 0 <= i < was.len() && (#[trigger] was[i]).0 == k;
                        assert(now[i].0 == k);
                    }
                }
            } else {
                assert forall|i: int, j: int| 0 <= i < j < now.len() implies (#[trigger] now[i]).0 < (
                #[trigger] now[j]).0 by {
                    let a = if i < pos { i } else { i - 1 };
                    let b = if j < pos { j } else { j - 1 };
                    if i != pos && j != pos {
                        assert(was[a].0 < was[b].0);
                    } else if i == pos {
                        assert(was[b].0 >= id);
                    } else {
                        assert(was[a].0 < id);
                    }
                }
                assert forall|i: int| 0 <= i < now.len() implies after.contains_key(
                    (#[trigger] now[i]).0,
                ) && after[now[i].0] == now[i].1 by {
                    if i != pos {
                        let a = if i < pos { i } else { i - 1 };
                        assert(was[a] == now[i]);
                        assert(was[a].0 != id);
                    }
                }
                assert forall|k: u32| #[trigger] after.contains_key(k) implies exists|i: int|
                    0 <= i < now.len() && (#[trigger] now[i]).0 == k by {
                    if k == id {
                        assert(now[pos as int].0 == k);
                    } else {
                        let a = choose|i: int| 0 <= i < was.len() && (#[trigger] was[i]).0 == k;
                        let i = if a < pos { a } else { a + 1 };
                        assert(now[i] == was[a]);
                    }
                }
            }
            assert(is_listing(self.leaves@, after));
        }
        let mut cur = hash_leaf(&account, &self.params);
        let mut idx: u64 = id as u64;
        let mut h: usize = 0;
        self.nodes.insert(key_of(0, idx), cur);
        proof {
            lemma_leaf_count();
            assert forall|g: nat, j: nat|
                g <= TREE_DEPTH && j < LEAF_COUNT && (g <= 0 || j != ancestor(
                    id as nat,
                    g,
                )) implies #[trigger] node_ok(self.nodes@, after, g, j) by {
                if g == 0 && j == id {
                } else {
                    assert(node_ok(old_nodes, before, g, j));
                    lemma_off_path(before, id, account, g, j);
                }
            }
        }
        while h < TREE_DEPTH
            invariant
                h <= TREE_DEPTH,
                idx < nodes_at(h as nat),
                idx < LEAF_COUNT,
                idx == ancestor(id as nat, h as nat),
                cur@ == subtree_hash(after, h as nat, idx as nat),
                self.params == old(self).params,
                self.accounts@ == after,
                is_listing(self.leaves@, after),
                self.defaults@.len() == TREE_DEPTH + 1,
                forall|g: int|
                    0 <= g <= TREE_DEPTH ==> (#[trigger] self.defaults@[g])@ == default_hash(
                        g as nat,
                    ),
                forall|g: nat, j: nat|
                    g <= TREE_DEPTH && j < LEAF_COUNT && (g <= h || j != ancestor(id as nat, g))
                        ==> #[trigger] node_ok(self.nodes@, after, g, j),
            decreases TREE_DEPTH - h,
        {
            let ghost nodes_before = self.nodes@;
            let even = idx % 2 == 0;
            let sibling = if even {
                idx + 1
            } else {
                idx - 1
            };
            assert(node_ok(self.nodes@, after, h as nat, sibling as nat));
            let other = cached(&self.nodes, &self.defaults, h, sibling);
            let parent = if even {
                hash_node(h, &cur, &other, &self.params)
            } else {
                hash_node(h, &other, &cur, &self.params)
            };
            idx = idx / 2;
            h += 1;
            cur = parent;
            self.nodes.insert(key_of(h, idx), cur);
            proof {
                assert forall|g: nat, j: nat|
                    g <= TREE_DEPTH && j < LEAF_COUNT && (g <= h || j != ancestor(
                        id as nat,
                        g,
                    )) implies #[trigger] node_ok(self.nodes@, after, g, j) by {
                    if g == h && j == idx {
                    } else {
                        assert(node_ok(nodes_before, after, g, j));
                    }
                }
            }
        }
        self.root = cur;
    }

    /// Every stored account with its identifier, in ascending order of
    /// identifier.
    pub fn listing(&self) -> (r: Vec<(u32, Account)>)
        requires
            self.wf(),
        ensures
            r@ == self.entries(),
            is_listing(r@, self@),
    {
        let mut out: Vec<(u32, Account)> = Vec::new();
        let mut i: usize = 0;
        while i < self.leaves.len()
            invariant
                i <= self.leaves@.len(),
                out@ == self.leaves@.take(i as int),
            decreases self.leaves@.len() - i,
        {
            out.push(self.leaves[i]);
            i += 1;
            assert(out@ =~= self.leaves@.take(i as int));
        }
        assert(out@ =~= self.leaves@);
        out
    }

    /// The account stored at `id`, or `None` where none was ever written.
    pub fn get(&self, id: u32) -> (r: Option<Account>)
        requires
            self.wf(),
        ensures
            r == (if self@.contains_key(id) {
                Some(self@[id])
            } else {
                None
            }),
    {
        let (found, pos) = locate(&self.leaves, id);
        if found {
            Some(self.leaves[pos].1)
        } else {
            None
        }
    }
}

} // verus!
