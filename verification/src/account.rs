use vstd::prelude::*;
use crate::bits::{push_word_bits, word_bits};
use crate::field::{field_bits, FieldElement};

verus! {

/// Number of bits in the encoding of an account.
pub const ACCOUNT_BITS: usize = 668;

/// One leaf of the account tree.
///
/// The balance is a whole number of the smallest unit of value: the one
/// representation in which balances are stored, compared and hashed.
#[derive(Clone, Copy, Debug, PartialEq, Eq, Structural)]
pub struct Account {
    /// Units of value held.
    pub balance: u128,
    /// Number of transfers that this account has sent.
    pub nonce: u32,
    /// Affine x-coordinate of the owner's public key.
    pub public_key_x: FieldElement,
    /// Affine y-coordinate of the owner's public key.
    pub public_key_y: FieldElement,
}

impl Account {
    /// The account that stands at every identifier never written: nothing
    /// held, nothing sent, zeroed key.
    pub open spec fn spec_default() -> Account {
        Account {
            balance: 0,
            nonce: 0,
            public_key_x: FieldElement::spec_zero(),
            public_key_y: FieldElement::spec_zero(),
        }
    }

    /// The bits that are hashed into the account's leaf, each part least
    /// significant bit first: the low and the high half of the balance
    /// (64 bits each), the nonce (32), then 254 bits of each key coordinate.
    pub open spec fn bits(self) -> Seq<bool> {
        word_bits((self.balance % 0x1_0000_0000_0000_0000) as u64, 64) + word_bits(
            (self.balance / 0x1_0000_0000_0000_0000) as u64,
            64,
        ) + word_bits(self.nonce as u64, 32) + field_bits(self.public_key_x@) + field_bits(
            self.public_key_y@,
        )
    }

    /// The encoding has the same length for every account.
    pub proof fn lemma_bits_len(self)
        ensures
            self.bits().len() == ACCOUNT_BITS,
    {
    }

    /// Encodes the account for hashing.
    pub fn to_bits(&self) -> (r: Vec<bool>)
        ensures
            r@ == self.bits(),
    {
        let mut out: Vec<bool> = Vec::new();
        push_word_bits(&mut out, (self.balance % 0x1_0000_0000_0000_0000) as u64, 64);
        push_word_bits(&mut out, (self.balance / 0x1_0000_0000_0000_0000) as u64, 64);
        push_word_bits(&mut out, self.nonce as u64, 32);
        self.public_key_x.push_bits(&mut out);
        self.public_key_y.push_bits(&mut out);
        assert(out@ =~= self.bits());
        out
    }
}

impl Default for Account {
    fn default() -> (r: Account)
        ensures
            r == Account::spec_default(),
    {
        Account {
            balance: 0,
            nonce: 0,
            public_key_x: FieldElement::zero(),
            public_key_y: FieldElement::zero(),
        }
    }
}

} // verus!
