use vstd::prelude::*;
use crate::account::Account;
use crate::curve::{on_curve, PublicKey};
use crate::field::FieldElement;
use crate::merkle::root_of;
use crate::tree::{is_listing, AccountTree};

verus! {

/// An order to move `amount` units from one account to another.
///
/// No fee is charged: the recipient is credited with exactly what the sender
/// is debited.
#[derive(Clone, Copy, Debug, PartialEq, Eq, Structural)]
pub struct TransferTx {
    /// Identifier of the paying account.
    pub from: u32,
    /// Identifier of the receiving account.
    pub to: u32,
    /// Units of value to move.
    pub amount: u128,
    /// The nonce that the paying account must have before the transfer.
    pub nonce: u32,
}

/// Why a transfer was rejected. A rejected transfer changes nothing.
#[derive(Clone, Copy, Debug, PartialEq, Eq, Structural)]
pub enum ApplyError {
    /// The paying or the receiving account was never written.
    UnknownAccount,
    /// The paying account holds less than the amount.
    InsufficientBalance,
    /// The transfer's nonce is not the paying account's current nonce.
    NonceMismatch,
    /// The paying account's nonce is the largest that can be stored.
    NonceOverflow,
    /// The receiving account would hold more than can be stored.
    BalanceOverflow,
}

/// The account `account` after it has sent `amount`.
pub open spec fn debited(account: Account, amount: u128) -> Account {
    Account {
        balance: (account.balance - amount) as u128,
        nonce: (account.nonce + 1) as u32,
        ..account
    }
}

/// The account `account` after it has received `amount`.
pub open spec fn credited(account: Account, amount: u128) -> Account {
    Account { balance: (account.balance + amount) as u128, ..account }
}

/// The account `account` after it has sent a transfer to itself: nothing
/// moves, and the transfer is counted.
pub open spec fn bumped(account: Account) -> Account {
    Account { nonce: (account.nonce + 1) as u32, ..account }
}

/// What a transfer does to a mapping of accounts: the mapping after it, or
/// the reason for which it is rejected. The conditions are tested in the
/// order in which they stand here.
pub open spec fn transition(accounts: Map<u32, Account>, tx: TransferTx) -> Result<
    Map<u32, Account>,
    ApplyError,
> {
    if !accounts.contains_key(tx.from) || !accounts.contains_key(tx.to) {
        Err(ApplyError::UnknownAccount)
    } else if accounts[tx.from].balance < tx.amount {
        Err(ApplyError::InsufficientBalance)
    } else if accounts[tx.from].nonce != tx.nonce {
        Err(ApplyError::NonceMismatch)
    } else if accounts[tx.from].nonce == u32::MAX {
        Err(ApplyError::NonceOverflow)
    } else if tx.from == tx.to {
        Ok(accounts.insert(tx.from, bumped(accounts[tx.from])))
    } else if accounts[tx.to].balance + tx.amount > u128::MAX {
        Err(ApplyError::BalanceOverflow)
    } else {
        Ok(
            accounts.insert(tx.from, debited(accounts[tx.from], tx.amount)).insert(
                tx.to,
                credited(accounts[tx.to], tx.amount),
            ),
        )
    }
}

/// The public key of the account stored at `id`: none where no account is
/// stored there, and none where the stored coordinates are no curve point.
pub open spec fn stored_key(accounts: Map<u32, Account>, id: u32) -> Option<PublicKey> {
    if accounts.contains_key(id) {
        PublicKey::from_coordinates(accounts[id].public_key_x, accounts[id].public_key_y)
    } else {
        None
    }
}

/// The mapping after `tx` was submitted: changed where the transfer is
/// accepted, the same where it is rejected.
pub open spec fn step(accounts: Map<u32, Account>, tx: TransferTx) -> Map<u32, Account> {
    match transition(accounts, tx) {
        Ok(after) => after,
        Err(_) => accounts,
    }
}

/// The mapping after each of `txs` was submitted in turn.
pub open spec fn replay(accounts: Map<u32, Account>, txs: Seq<TransferTx>) -> Map<u32, Account>
    decreases txs.len(),
{
    if txs.len() == 0 {
        accounts
    } else {
        step(replay(accounts, txs.drop_last()), txs.last())
    }
}

/// How many of `txs`, submitted in turn, were accepted as transfers sent by
/// account `id`.
pub open spec fn accepted_from(accounts: Map<u32, Account>, txs: Seq<TransferTx>, id: u32) -> nat
    decreases txs.len(),
{
    if txs.len() == 0 {
        0
    } else {
        let counted: nat = if txs.last().from == id && transition(
            replay(accounts, txs.drop_last()),
            txs.last(),
        ) is Ok {
            1
        } else {
            0
        };
        accepted_from(accounts, txs.drop_last(), id) + counted
    }
}

/// An accepted transfer between two different accounts moves value and
/// makes none: the two balances add up to what they added up to before, the
/// sender has `amount` less, and no third account is touched.
pub proof fn lemma_conservation(accounts: Map<u32, Account>, tx: TransferTx)
    requires
        transition(accounts, tx) is Ok,
        tx.from != tx.to,
    ensures
        ({
            let after = transition(accounts, tx)->Ok_0;
            &&& after[tx.from].balance + after[tx.to].balance == accounts[tx.from].balance
                + accounts[tx.to].balance
            &&& after[tx.from].balance == accounts[tx.from].balance - tx.amount
            &&& after.dom() == accounts.dom()
            &&& forall|id: u32|
                id != tx.from && id != tx.to && accounts.contains_key(id) ==> #[trigger] after[id]
                    == accounts[id]
        }),
{
    let after = transition(accounts, tx)->Ok_0;
    assert(after.dom() =~= accounts.dom());
}

/// An accepted transfer of an account to itself moves nothing and is
/// counted in the nonce.
pub proof fn lemma_self_transfer(accounts: Map<u32, Account>, tx: TransferTx)
    requires
        transition(accounts, tx) is Ok,
        tx.from == tx.to,
    ensures
        ({
            let after = transition(accounts, tx)->Ok_0;
            &&& after[tx.from].balance == accounts[tx.from].balance
            &&& after[tx.from].nonce == accounts[tx.from].nonce + 1
            &&& after == accounts.insert(tx.from, after[tx.from])
        }),
{
}

/// A transfer whose nonce is not the current nonce of a stored paying
/// account is rejected, and so is every transfer of an account that is not
/// stored.
pub proof fn lemma_wrong_nonce_rejected(accounts: Map<u32, Account>, tx: TransferTx)
    requires
        !accounts.contains_key(tx.from) || accounts[tx.from].nonce != tx.nonce,
    ensures
        transition(accounts, tx) is Err,
        step(accounts, tx) == accounts,
{
}

/// Submitting transfers neither adds nor removes an account.
pub proof fn lemma_replay_keeps_accounts(accounts: Map<u32, Account>, txs: Seq<TransferTx>)
    ensures
        replay(accounts, txs).dom() == accounts.dom(),
    decreases txs.len(),
{
    if txs.len() > 0 {
        lemma_replay_keeps_accounts(accounts, txs.drop_last());
        let before = replay(accounts, txs.drop_last());
        assert(step(before, txs.last()).dom() =~= before.dom());
    }
}

/// After any run of submitted transfers the nonce of a stored account has
/// grown by exactly the number of accepted transfers that it sent.
pub proof fn lemma_nonce_counts_sent(accounts: Map<u32, Account>, txs: Seq<TransferTx>, id: u32)
    requires
        accounts.contains_key(id),
    ensures
        replay(accounts, txs).contains_key(id),
        replay(accounts, txs)[id].nonce == accounts[id].nonce + accepted_from(accounts, txs, id),
    decreases txs.len(),
{
    if txs.len() > 0 {
        lemma_nonce_counts_sent(accounts, txs.drop_last(), id);
    }
}

/// Submitting the same transfers to the same mapping gives the same
/// commitment, and two trees that hold the outcome have the same root and
/// listing, whichever way each of them came to hold it.
pub proof fn lemma_replay_determined(
    first: &AccountTree,
    second: &AccountTree,
    start: Map<u32, Account>,
    txs: Seq<TransferTx>,
)
    requires
        first.wf(),
        second.wf(),
        first@ == replay(start, txs),
        second@ == replay(start, txs),
    ensures
        first.spec_root() == second.spec_root(),
        first.spec_root()@ == root_of(replay(start, txs)),
        first.entries() == second.entries(),
{
    first.lemma_same_mapping(second);
    first.lemma_root();
}

/// Storing an account makes its key recoverable exactly when its
/// coordinates are a point of the curve, and the recovered key has the
/// stored coordinates.
pub proof fn lemma_key_round_trip(accounts: Map<u32, Account>, id: u32, account: Account)
    ensures
        stored_key(accounts.insert(id, account), id) is Some <==> on_curve(
            account.public_key_x.value(),
            account.public_key_y.value(),
        ),
        stored_key(accounts.insert(id, account), id) matches Some(key) ==> key.spec_x()
            == account.public_key_x && key.spec_y() == account.public_key_y,
{
    PublicKey::lemma_from_coordinates(account.public_key_x, account.public_key_y);
}

/// The accounts of one chain and the height that the chain has reached.
pub struct PlasmaState {
    /// Accounts stored in a sparse Merkle tree.
    pub balance_tree: AccountTree,
    /// Current block number.
    pub block_number: u32,
}

impl PlasmaState {
    /// Every stored account with its identifier, in ascending order of
    /// identifier.
    pub fn get_accounts(&self) -> (r: Vec<(u32, Account)>)
        requires
            self.balance_tree.wf(),
        ensures
            r@ == self.balance_tree.entries(),
            is_listing(r@, self.balance_tree@),
    {
        self.balance_tree.listing()
    }

    /// The public key of the account at `account_id`, where an account is
    /// stored there and its coordinates are a point of the curve.
    pub fn get_pub_key(&self, account_id: u32) -> (r: Option<PublicKey>)
        requires
            self.balance_tree.wf(),
        ensures
            r == stored_key(self.balance_tree@, account_id),
    {
        match self.balance_tree.get(account_id) {
            Some(account) => {
                match PublicKey::recover(
                    account.public_key_x,
                    account.public_key_y,
                    self.balance_tree.params(),
                ) {
                    Ok(key) => Some(key),
                    Err(_) => None,
                }
            },
            None => None,
        }
    }

    /// The commitment to the current accounts.
    pub fn root_hash(&self) -> (r: FieldElement)
        requires
            self.balance_tree.wf(),
        ensures
            r == self.balance_tree.spec_root(),
            r@ == root_of(self.balance_tree@),
    {
        self.balance_tree.root_hash()
    }

    /// Applies one transfer: either all of it, or none of it.
    pub fn apply(&mut self, tx: &TransferTx) -> (r: Result<(), ApplyError>)
        requires
            old(self).balance_tree.wf(),
        ensures
            final(self).balance_tree.wf(),
            final(self).balance_tree.spec_params() == old(self).balance_tree.spec_params(),
            final(self).block_number == old(self).block_number,
            match transition(old(self).balance_tree@, *tx) {
                Ok(accounts) => r is Ok && final(self).balance_tree@ == accounts,
                Err(e) => r == Err::<(), ApplyError>(e) && *final(self) == *old(self),
            },
    {
        let from = match self.balance_tree.get(tx.from) {
            Some(account) => account,
            None => {
                return Err(ApplyError::UnknownAccount);
            },
        };
        let to = match self.balance_tree.get(tx.to) {
            Some(account) => account,
            None => {
                return Err(ApplyError::UnknownAccount);
            },
        };
        if from.balance < tx.amount {
            return Err(ApplyError::InsufficientBalance);
        }
        if from.nonce != tx.nonce {
            return Err(ApplyError::NonceMismatch);
        }
        if from.nonce == u32::MAX {
            return Err(ApplyError::NonceOverflow);
        }
        if tx.from == tx.to {
            let after = Account { nonce: from.nonce + 1, ..from };
            self.balance_tree.insert(tx.from, after);
        } else {
            if to.balance > u128::MAX - tx.amount {
                return Err(ApplyError::BalanceOverflow);
            }
            let sender = Account {
                balance: from.balance - tx.amount,
                nonce: from.nonce + 1,
                ..from
            };
            let receiver = Account { balance: to.balance + tx.amount, ..to };
            self.balance_tree.insert(tx.from, sender);
            self.balance_tree.insert(tx.to, receiver);
        }
        Ok(())
    }
}

} // verus!
