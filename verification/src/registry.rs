//! The registry: the highest block height processed so far and the set of
//! distinct addresses seen up to that height.

use vstd::prelude::*;
use vstd::seq_lib::seq_to_set_is_finite;
use vstd::set_lib::lemma_subset_equality;
use crate::address::{same_address, Address};
use crate::block::Block;
use crate::codec::{
    complete, decodable, decode_pair, decoded, encode_pair, encoding, lemma_decodable_iff_complete,
    lemma_decoded_is, lemma_round_trip,
};
use crate::error::ScanError;
use crate::listing::{
    appended, lemma_appended, lemma_appended_distinct, lemma_appended_next,
    lemma_push_fresh_no_duplicates, lemma_push_to_set,
};

verus! {

/// What a registry stands for: a height and a set of addresses.
#[verifier::ext_equal]
pub struct AddressBookView {
    pub height: u64,
    pub addresses: Set<Address>,
}

impl AddressBookView {
    /// The registry after the addresses of `block` have been added to it. The
    /// height is left as it is.
    pub open spec fn absorbed(self, block: Block) -> AddressBookView {
        AddressBookView { height: self.height, addresses: self.addresses.union(block.addresses()) }
    }

    /// The registry after `block` has been processed: its addresses are added
    /// and the height becomes that of the block.
    pub open spec fn merged(self, block: Block) -> AddressBookView {
        AddressBookView { height: block.height, addresses: self.addresses.union(block.addresses()) }
    }

    /// The registry after the blocks of a list have been processed one after
    /// the other.
    pub open spec fn merged_all(self, blocks: Seq<Block>) -> AddressBookView
        decreases blocks.len(),
    {
        if blocks.len() == 0 {
            self
        } else {
            self.merged_all(blocks.drop_last()).merged(blocks.last())
        }
    }
}

/// Whether the blocks of a list follow `height` without a gap: the first is
/// at `height + 1`, and each of the others one above the block before it.
pub open spec fn follows_on(height: u64, blocks: Seq<Block>) -> bool {
    forall|i: int| 0 <= i < blocks.len() ==> (#[trigger] blocks[i]).height == height + 1 + i
}

/// The registry that stored bytes stand for, if they stand for one: the
/// height that they begin with, and the set of the addresses that they list.
/// An address that is listed more than once counts once.
pub open spec fn restored(bytes: Seq<u8>) -> Option<AddressBookView> {
    if decodable(bytes) {
        Some(AddressBookView { height: decoded(bytes).0, addresses: decoded(bytes).1.to_set() })
    } else {
        None
    }
}

/// The registry. Addresses are kept in the order in which they were first
/// seen, each of them once.
#[derive(Debug)]
pub struct AddressBook {
    block_height: u64,
    addresses: Vec<Address>,
}

impl View for AddressBook {
    type V = AddressBookView;

    closed spec fn view(&self) -> AddressBookView {
        AddressBookView { height: self.block_height, addresses: self.addresses@.to_set() }
    }
}

impl AddressBook {
    #[verifier::type_invariant]
    spec fn each_address_once(self) -> bool {
        self.addresses@.no_duplicates()
    }

    /// The stored addresses in the order in which they were first seen.
    pub closed spec fn listing(&self) -> Seq<Address> {
        self.addresses@
    }

    /// The addresses of the registry are the items of its listing.
    pub proof fn lemma_listing(self)
        ensures
            self.listing().to_set() == self@.addresses,
    {
    }

    /// A registry at `block_height` that holds the given addresses. An
    /// address that is given more than once is stored once, at the place of
    /// its first occurrence.
    pub fn new(block_height: u64, addresses: Vec<Address>) -> (book: AddressBook)
        ensures
            book@.height == block_height,
            book@.addresses == addresses@.to_set(),
            book.listing() == appended(Seq::empty(), addresses@),
    {
        let mut book = AddressBook { block_height, addresses: Vec::new() };
        book.extend(&addresses);
        proof {
            assert(Seq::<Address>::empty().to_set() =~= Set::<Address>::empty());
            assert(Set::<Address>::empty().union(addresses@.to_set()) =~= addresses@.to_set());
        }
        book
    }

    /// The highest block height processed so far.
    pub fn height(&self) -> (height: u64)
        ensures
            height == self@.height,
    {
        self.block_height
    }

    /// Advances the height by one and returns the new height. The addresses
    /// stay as they are.
    pub fn increment_block_height(&mut self) -> (height: u64)
        requires
            old(self)@.height < u64::MAX,
        ensures
            height == old(self)@.height + 1,
            final(self)@.height == height,
            final(self)@.addresses == old(self)@.addresses,
            final(self).listing() == old(self).listing(),
    {
        proof {
            use_type_invariant(&*self);
        }
        self.block_height += 1;
        self.block_height
    }

    /// The number of distinct addresses in the registry.
    pub fn len(&self) -> (count: usize)
        ensures
            count == self@.addresses.len(),
            count == self.listing().len(),
            self@.addresses.finite(),
    {
        proof {
            use_type_invariant(self);
            self.addresses@.unique_seq_to_set();
        }
        self.addresses.len()
    }

    /// Whether the registry holds `address`.
    pub fn contains(&self, address: &Address) -> (found: bool)
        ensures
            found == self@.addresses.contains(*address),
    {
        let mut i: usize = 0;
        while i < self.addresses.len()
            invariant
                i <= self.addresses.len(),
                forall|k: int| 0 <= k < i ==> self.addresses@[k] != *address,
            decreases self.addresses.len() - i,
        {
            if same_address(&self.addresses[i], address) {
                assert(self.addresses@.contains(*address));
                return true;
            }
            i += 1;
        }
        false
    }

    /// Whether two registries are equal: the same height and the same set of
    /// addresses, in whatever order each of them lists its addresses.
    pub fn same_as(&self, other: &AddressBook) -> (same: bool)
        ensures
            same == (self@ == other@),
    {
        proof {
            use_type_invariant(self);
            use_type_invariant(other);
            self.addresses@.unique_seq_to_set();
            other.addresses@.unique_seq_to_set();
            seq_to_set_is_finite(self.addresses@);
            seq_to_set_is_finite(other.addresses@);
        }
        if self.block_height != other.block_height {
            return false;
        }
        if self.addresses.len() != other.addresses.len() {
            return false;
        }
        let mut i: usize = 0;
        while i < self.addresses.len()
            invariant
                i <= self.addresses.len(),
                forall|k: int| 0 <= k < i ==> other@.addresses.contains(self.addresses@[k]),
            decreases self.addresses.len() - i,
        {
            if !other.contains(&self.addresses[i]) {
                assert(self@.addresses.contains(self.addresses@[i as int]));
                return false;
            }
            i += 1;
        }
        proof {
            assert(self@.addresses.subset_of(other@.addresses));
            lemma_subset_equality(self@.addresses, other@.addresses);
            assert(self@ =~= other@);
        }
        true
    }

    /// The stored addresses, each once, in the order in which they were first
    /// seen.
    pub fn addresses(&self) -> (list: &Vec<Address>)
        ensures
            list@ == self.listing(),
            list@.no_duplicates(),
            list@.to_set() == self@.addresses,
    {
        proof {
            use_type_invariant(self);
        }
        &self.addresses
    }

    /// Adds one address. Returns whether it was new to the registry; an
    /// address that is already there leaves the registry unchanged.
    pub fn insert(&mut self, address: Address) -> (fresh: bool)
        ensures
            fresh == !old(self)@.addresses.contains(address),
            final(self)@.height == old(self)@.height,
            final(self)@.addresses == old(self)@.addresses.insert(address),
            final(self).listing() == if fresh {
                old(self).listing().push(address)
            } else {
                old(self).listing()
            },
    {
        proof {
            use_type_invariant(&*self);
        }
        if self.contains(&address) {
            assert(self@.addresses.insert(address) =~= self@.addresses);
            false
        } else {
            let ghost before = self.addresses@;
            let mut list: Vec<Address> = Vec::new();
            std::mem::swap(&mut list, &mut self.addresses);
            list.push(address);
            proof {
                lemma_push_to_set(before, address);
                lemma_push_fresh_no_duplicates(before, address);
            }
            self.addresses = list;
            true
        }
    }

    /// Adds the addresses of a list in order. The height stays as it is.
    pub fn extend(&mut self, more: &Vec<Address>)
        ensures
            final(self)@.height == old(self)@.height,
            final(self)@.addresses == old(self)@.addresses.union(more@.to_set()),
            final(self).listing() == appended(old(self).listing(), more@),
    {
        let mut i: usize = 0;
        while i < more.len()
            invariant
                i <= more.len(),
                self@.height == old(self)@.height,
                self.listing() == appended(old(self).listing(), more@.take(i as int)),
            decreases more.len() - i,
        {
            proof {
                lemma_appended_next(old(self).listing(), more@, i as int);
            }
            self.insert(more[i]);
            i += 1;
        }
        proof {
            assert(more@.take(i as int) == more@);
            lemma_appended(old(self).listing(), more@);
        }
    }

    /// Adds every address that takes part in `block`. The height stays as it
    /// is, so absorbing the same block again changes nothing.
    pub fn absorb(&mut self, block: &Block)
        ensures
            final(self)@ == old(self)@.absorbed(*block),
            final(self).listing() == appended(old(self).listing(), block.participant_list()),
    {
        let list = block.participants();
        self.extend(&list);
        assert(self@ =~= old(self)@.absorbed(*block));
    }

    /// Folds one block into the registry: every address that takes part in it
    /// is added, and the height becomes that of the block. The block must be
    /// the one that follows the current height.
    pub fn merge_block(&mut self, block: &Block)
        requires
            block.height == old(self)@.height + 1,
        ensures
            final(self)@ == old(self)@.merged(*block),
            final(self)@.height == old(self)@.height + 1,
            final(self).listing() == appended(old(self).listing(), block.participant_list()),
    {
        self.absorb(block);
        proof {
            use_type_invariant(&*self);
        }
        self.block_height = block.height;
        assert(self@ =~= old(self)@.merged(*block));
    }

    /// The bytes to store: the encoding of the height and of the addresses in
    /// the order of [`AddressBook::listing`]. Restoring them gives a registry
    /// equal to this one.
    pub fn snapshot(&self) -> (bytes: Vec<u8>)
        requires
            16 + 20 * self@.addresses.len() <= isize::MAX,
        ensures
            bytes@ == encoding(self@.height, self.listing()),
            restored(bytes@) == Some(self@),
    {
        proof {
            use_type_invariant(self);
            self.addresses@.unique_seq_to_set();
            lemma_round_trip(self.block_height, self.addresses@, Seq::empty());
            assert(encoding(self.block_height, self.addresses@) + Seq::<u8>::empty() =~= encoding(
                self.block_height,
                self.addresses@,
            ));
        }
        encode_pair(self.block_height, &self.addresses).unwrap()
    }

    /// Restores a registry from stored bytes. Bytes that do not begin with the
    /// encoding of a height and a list of addresses, because they end too
    /// early, are refused as [`ScanError::CorruptState`].
    pub fn load(bytes: &[u8]) -> (result: Result<AddressBook, ScanError>)
        ensures
            match result {
                Ok(book) => restored(bytes@) == Some(book@) && book.listing() == appended(
                    Seq::empty(),
                    decoded(bytes@).1,
                ),
                Err(error) => error == ScanError::CorruptState && restored(bytes@) is None,
            },
            result is Ok <==> complete(bytes@),
    {
        proof {
            lemma_decodable_iff_complete(bytes@);
        }
        match decode_pair(bytes) {
            Ok((height, addresses)) => {
                proof {
                    lemma_decoded_is(bytes@, height, addresses@);
                }
                Ok(AddressBook::new(height, addresses))
            },
            Err(_) => Err(ScanError::CorruptState),
        }
    }
}

/// A stored registry is restored as it was: the bytes that encode the height
/// and any listing of the addresses stand for the same height and the same set
/// of addresses, whatever the order of the listing and whatever follows the
/// encoding.
pub proof fn lemma_snapshot_restores(book: AddressBookView, listing: Seq<Address>, rest: Seq<u8>)
    requires
        listing.to_set() == book.addresses,
        listing.len() <= u64::MAX,
    ensures
        restored(encoding(book.height, listing) + rest) == Some(book),
{
    lemma_round_trip(book.height, listing, rest);
    let again = restored(encoding(book.height, listing) + rest);
    assert(again->Some_0 =~= book);
}

/// A registry that is restored from its own snapshot lists its addresses in
/// the order in which the registry that was stored listed them.
pub proof fn lemma_snapshot_keeps_order(height: u64, listing: Seq<Address>)
    requires
        listing.no_duplicates(),
        listing.len() <= u64::MAX,
    ensures
        appended(Seq::empty(), decoded(encoding(height, listing)).1) == listing,
{
    lemma_round_trip(height, listing, Seq::empty());
    assert(encoding(height, listing) + Seq::<u8>::empty() =~= encoding(height, listing));
    lemma_appended_distinct(listing);
}

/// Processing a block adds addresses and never removes one, and the height
/// becomes that of the block.
pub proof fn lemma_merge_keeps_addresses(book: AddressBookView, block: Block)
    ensures
        book.addresses.subset_of(book.merged(block).addresses),
        block.addresses().subset_of(book.merged(block).addresses),
        book.merged(block).height == block.height,
{
}

/// Adding the addresses of a block a second time changes nothing, and neither
/// does processing the same block a second time.
pub proof fn lemma_merge_idempotent(book: AddressBookView, block: Block)
    ensures
        book.absorbed(block).absorbed(block) == book.absorbed(block),
        book.merged(block).merged(block) == book.merged(block),
{
    assert(book.absorbed(block).absorbed(block) =~= book.absorbed(block));
    assert(book.merged(block).merged(block) =~= book.merged(block));
}

/// The addresses after a list of blocks are those before it and those of
/// every block of the list.
pub proof fn lemma_merged_all_addresses(book: AddressBookView, blocks: Seq<Block>)
    ensures
        forall|a: Address|
            book.merged_all(blocks).addresses.contains(a) <==> (book.addresses.contains(a)
                || exists|i: int|
                0 <= i < blocks.len() && (#[trigger] blocks[i]).addresses().contains(a)),
        book.addresses.subset_of(book.merged_all(blocks).addresses),
    decreases blocks.len(),
{
    if blocks.len() > 0 {
        let front = blocks.drop_last();
        lemma_merged_all_addresses(book, front);
        assert forall|a: Address|
            book.merged_all(blocks).addresses.contains(a) <==> (book.addresses.contains(a)
                || exists|i: int|
                0 <= i < blocks.len() && (#[trigger] blocks[i]).addresses().contains(a)) by {
            if book.merged_all(front).addresses.contains(a) && !book.addresses.contains(a) {
                let i = choose|i: int|
                    0 <= i < front.len() && (#[trigger] front[i]).addresses().contains(a);
                assert(blocks[i].addresses().contains(a));
            }
            if blocks.last().addresses().contains(a) {
                assert(blocks[blocks.len() - 1].addresses().contains(a));
            }
            if exists|i: int|
                0 <= i < blocks.len() && (#[trigger] blocks[i]).addresses().contains(a) {
                let i = choose|i: int|
                    0 <= i < blocks.len() && (#[trigger] blocks[i]).addresses().contains(a);
                if i < front.len() {
                    assert(front[i].addresses().contains(a));
                }
            }
        }
    }
}

/// Going through a list of blocks a second time leaves the registry as the
/// first pass left it.
pub proof fn lemma_rescan_changes_nothing(book: AddressBookView, blocks: Seq<Block>)
    ensures
        book.merged_all(blocks).merged_all(blocks) == book.merged_all(blocks),
{
    let once = book.merged_all(blocks);
    let twice = once.merged_all(blocks);
    lemma_merged_all_addresses(book, blocks);
    lemma_merged_all_addresses(once, blocks);
    if blocks.len() > 0 {
        assert(once.height == blocks.last().height);
        assert(twice.height == blocks.last().height);
    }
    assert(twice.addresses =~= once.addresses);
    assert(twice =~= once);
}

/// Each block that follows on the height of the registry raises the height by
/// exactly one: after the first `k` blocks of such a list the height is `k`
/// above where it was.
pub proof fn lemma_height_advances_by_one(book: AddressBookView, blocks: Seq<Block>, k: int)
    requires
        follows_on(book.height, blocks),
        0 <= k <= blocks.len(),
    ensures
        book.merged_all(blocks.take(k)).height == book.height + k,
    decreases k,
{
    if k > 0 {
        lemma_height_advances_by_one(book, blocks, k - 1);
        assert(blocks.take(k).drop_last() == blocks.take(k - 1));
        assert(blocks.take(k).last() == blocks[k - 1]);
    }
}

} // verus!
