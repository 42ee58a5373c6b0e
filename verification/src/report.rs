//! What a finished scan has to show: each address as text, the number of
//! distinct addresses, and the height reached.

use vstd::prelude::*;
use crate::address::Address;
use crate::registry::AddressBook;

verus! {

/// The text form of an address: `0x` and forty hexadecimal digits whose
/// letters are in upper or lower case as the mixed-case checksum of the
/// address asks. The case of each letter depends on a hash of the digits, so
/// the text is named here and not written out.
pub uninterp spec fn checksum_text(address: Seq<u8>) -> Seq<char>;

/// Formats an address with `alloy::primitives::Address`, through its
/// `Display` impl.
///
/// Trusted: the text depends on the twenty bytes alone.
#[verifier::external_body]
fn address_text(address: &Address) -> (text: String)
    ensures
        text@ == checksum_text(address@),
{
    alloy::primitives::Address::from(address).to_string()
}

/// A read-only account of a registry.
#[derive(Debug)]
pub struct Report {
    /// The addresses as text, in the order of [`AddressBook::listing`].
    pub addresses: Vec<String>,
    /// The number of distinct addresses.
    pub unique_addresses: usize,
    /// The highest block height processed.
    pub block_height: u64,
}

impl Report {
    /// Whether this is the account of a registry with the given height and
    /// listing of addresses.
    pub open spec fn describes(self, height: u64, listing: Seq<Address>) -> bool {
        &&& self.block_height == height
        &&& self.unique_addresses == listing.len()
        &&& self.addresses@.len() == listing.len()
        &&& forall|i: int|
            0 <= i < listing.len() ==> (#[trigger] self.addresses@[i])@ == checksum_text(
                listing[i]@,
            )
    }
}

/// Gives the account of a registry. The registry is not changed.
pub fn report(book: &AddressBook) -> (report: Report)
    ensures
        report.describes(book@.height, book.listing()),
        report.unique_addresses == book@.addresses.len(),
{
    let list = book.addresses();
    let mut texts: Vec<String> = Vec::new();
    let mut i: usize = 0;
    while i < list.len()
        invariant
            i <= list.len(),
            texts@.len() == i,
            forall|k: int| 0 <= k < i ==> (#[trigger] texts@[k])@ == checksum_text(list@[k]@),
        decreases list.len() - i,
    {
        texts.push(address_text(&list[i]));
        i += 1;
    }
    proof {
        list@.unique_seq_to_set();
    }
    Report { addresses: texts, unique_addresses: book.len(), block_height: book.height() }
}

} // verus!
