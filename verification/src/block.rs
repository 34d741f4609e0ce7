use vstd::prelude::*;
use crate::field::FieldElement;

verus! {

/// One committed batch: the transactions in the order in which they were
/// applied, and the root of the account tree after the last of them.
#[derive(Clone, Debug)]
pub struct Block<T> {
    /// Height of the block in the chain.
    pub block_number: u32,
    /// The transactions of the batch, in the order of application.
    pub transactions: Vec<T>,
    /// Commitment to the accounts after the batch.
    pub new_root_hash: FieldElement,
}

impl<T> Default for Block<T> {
    /// Block zero, without transactions, with a zero root.
    fn default() -> (r: Block<T>)
        ensures
            r.block_number == 0,
            r.transactions@ == Seq::<T>::empty(),
            r.new_root_hash == FieldElement::spec_zero(),
    {
        Block { block_number: 0, transactions: Vec::new(), new_root_hash: FieldElement::zero() }
    }
}

} // verus!
