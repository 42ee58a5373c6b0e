//! The part of a block that the registry reads: its height, its producer and,
//! for each transaction, the sender and the optional recipient.

use vstd::prelude::*;
use crate::address::Address;
use crate::listing::lemma_cons_to_set;

verus! {

/// The two address-bearing fields of a transaction. A transaction always has a
/// sender; the recipient is absent when the transaction creates a contract.
#[derive(Clone, Copy, Debug)]
pub struct Transaction {
    pub from: Address,
    pub to: Option<Address>,
}

impl Transaction {
    /// The one address that a transaction contributes: the recipient when
    /// there is one, otherwise the sender.
    pub open spec fn spec_endpoint(&self) -> Address {
        match self.to {
            Some(recipient) => recipient,
            None => self.from,
        }
    }

    /// The one address that a transaction contributes: the recipient when
    /// there is one, otherwise the sender.
    #[verifier::when_used_as_spec(spec_endpoint)]
    pub fn endpoint(&self) -> (address: Address)
        ensures
            address == self.endpoint(),
    {
        match self.to {
            Some(recipient) => recipient,
            None => self.from,
        }
    }
}

/// A block, reduced to what the registry needs.
#[derive(Debug)]
pub struct Block {
    pub height: u64,
    pub producer: Address,
    pub transactions: Vec<Transaction>,
}

impl Block {
    /// The endpoint of each transaction, in block order.
    pub open spec fn endpoints(self) -> Seq<Address> {
        self.transactions@.map_values(|t: Transaction| t.endpoint())
    }

    /// Every address that takes part in the block: the producer and one
    /// endpoint per transaction.
    pub open spec fn addresses(self) -> Set<Address> {
        self.endpoints().to_set().insert(self.producer)
    }

    /// The participating addresses as a list: the producer first, then the
    /// endpoints in block order. An address may occur more than once.
    pub open spec fn participant_list(self) -> Seq<Address> {
        seq![self.producer] + self.endpoints()
    }

    /// Computes [`Block::participant_list`].
    pub fn participants(&self) -> (list: Vec<Address>)
        ensures
            list@ == self.participant_list(),
            list@.to_set() == self.addresses(),
    {
        let mut list: Vec<Address> = Vec::new();
        list.push(self.producer);
        let mut i: usize = 0;
        while i < self.transactions.len()
            invariant
                i <= self.transactions.len(),
                list@ == seq![self.producer] + self.endpoints().take(i as int),
            decreases self.transactions.len() - i,
        {
            let address = self.transactions[i].endpoint();
            list.push(address);
            assert(self.endpoints().take(i + 1) == self.endpoints().take(i as int).push(
                self.endpoints()[i as int],
            ));
            i += 1;
        }
        assert(self.endpoints().take(i as int) == self.endpoints());
        proof {
            lemma_participants(*self);
        }
        list
    }
}

/// The addresses that take part in a block are the items of its list of
/// participants.
pub proof fn lemma_participants(block: Block)
    ensures
        block.participant_list().to_set() == block.addresses(),
{
    lemma_cons_to_set(block.producer, block.endpoints());
}

} // verus!
