//! The durable byte format of a registry, and the calls into `bincode` that
//! write and read it.
//!
//! A registry is stored as the pair of its height and the list of its
//! addresses. The bytes are, in this order: the height as eight little-endian
//! bytes, the number of addresses as eight little-endian bytes, and the
//! addresses themselves, twenty bytes each. Bytes that follow are ignored when
//! reading.

use vstd::prelude::*;
use vstd::bytes::{
    lemma_auto_spec_u64_to_from_le_bytes, spec_u64_from_le_bytes, spec_u64_to_le_bytes,
};
use vstd::array::spec_array_update;
use crate::address::Address;

verus! {

/// The error type of `bincode`. Nothing is read from a value of it.
#[verifier::external_type_specification]
#[verifier::external_body]
pub struct ExErrorKind(bincode::ErrorKind);

/// The addresses of a list laid end to end: byte `i` of the result is byte
/// `i % 20` of address `i / 20`.
pub open spec fn packed(addresses: Seq<Address>) -> Seq<u8> {
    Seq::new(20 * addresses.len(), |i: int| addresses[i / 20]@[i % 20])
}

/// The bytes that stand for a height and a list of addresses.
pub open spec fn encoding(height: u64, addresses: Seq<Address>) -> Seq<u8> {
    spec_u64_to_le_bytes(height) + spec_u64_to_le_bytes(addresses.len() as u64) + packed(
        addresses,
    )
}

/// Whether `bytes` begin with the encoding of `height` and `addresses`.
pub open spec fn decodes_to(bytes: Seq<u8>, height: u64, addresses: Seq<Address>) -> bool {
    addresses.len() <= u64::MAX && encoding(height, addresses).is_prefix_of(bytes)
}

/// Whether `bytes` begin with the encoding of some height and list.
pub open spec fn decodable(bytes: Seq<u8>) -> bool {
    exists|height: u64, addresses: Seq<Address>| decodes_to(bytes, height, addresses)
}

/// The height and the list that `bytes` begin with the encoding of. There is
/// at most one such pair, see [`lemma_decoding_unique`].
pub open spec fn decoded(bytes: Seq<u8>) -> (u64, Seq<Address>) {
    choose|pair: (u64, Seq<Address>)| decodes_to(bytes, pair.0, pair.1)
}

/// The height that bytes announce: the number in their first eight bytes.
pub open spec fn announced_height(bytes: Seq<u8>) -> u64 {
    spec_u64_from_le_bytes(bytes.subrange(0, 8))
}

/// The number of addresses that bytes announce: the number in bytes 8 to 15.
pub open spec fn announced_count(bytes: Seq<u8>) -> u64 {
    spec_u64_from_le_bytes(bytes.subrange(8, 16))
}

/// The twenty bytes at the place of address `i`.
pub open spec fn address_bytes(bytes: Seq<u8>, i: int) -> Seq<u8> {
    bytes.subrange(16 + 20 * i, 36 + 20 * i)
}

/// Whether bytes are long enough for the two numbers and for as many
/// addresses as they announce.
pub open spec fn complete(bytes: Seq<u8>) -> bool {
    bytes.len() >= 16 && bytes.len() >= 16 + 20 * announced_count(bytes)
}

/// Calls `bincode::serialize` on the pair of a height and a list of addresses.
///
/// Trusted: with the settings of that function (fixed-width little-endian
/// integers, no size limit) the call succeeds and the bytes are the height,
/// the length of the list as a 64-bit number, and the addresses one after the
/// other without any framing. The output buffer is allocated in one piece, so
/// its size must be one that an allocation can have.
#[verifier::external_body]
pub(crate) fn encode_pair(height: u64, addresses: &Vec<Address>) -> (result: Result<Vec<u8>, Box<bincode::ErrorKind>>)
    requires
        16 + 20 * addresses@.len() <= isize::MAX,
    ensures
        match result {
            Ok(bytes) => bytes@ == encoding(height, addresses@),
            Err(_) => false,
        },
{
    bincode::serialize(&(height, addresses))
}

/// Calls `bincode::deserialize` for the pair of a height and a list of
/// addresses.
///
/// Trusted: the call succeeds exactly when the input begins with the encoding
/// of some pair, and then returns that pair; bytes after the encoding are
/// allowed. It fails when the input ends before the sixteen bytes of the two
/// numbers, or before the last of the announced addresses.
#[verifier::external_body]
pub(crate) fn decode_pair(bytes: &[u8]) -> (result: Result<(u64, Vec<Address>), Box<bincode::ErrorKind>>)
    ensures
        match result {
            Ok((height, addresses)) => decodes_to(bytes@, height, addresses@),
            Err(_) => !decodable(bytes@),
        },
{
    bincode::deserialize::<(u64, Vec<Address>)>(bytes)
}

/// The encoding of a list of `n` addresses is `16 + 20 * n` bytes long.
pub proof fn lemma_encoding_len(height: u64, addresses: Seq<Address>)
    ensures
        encoding(height, addresses).len() == 16 + 20 * addresses.len(),
{
    lemma_auto_spec_u64_to_from_le_bytes();
}

/// Where the fields of an encoding lie: the height in bytes 0 to 7, the
/// number of addresses in bytes 8 to 15, and byte `j` of address `i` at
/// position `16 + 20 * i + j`.
pub proof fn lemma_encoding_fields(height: u64, addresses: Seq<Address>)
    ensures
        encoding(height, addresses).subrange(0, 8) == spec_u64_to_le_bytes(height),
        encoding(height, addresses).subrange(8, 16) == spec_u64_to_le_bytes(
            addresses.len() as u64,
        ),
        forall|i: int, j: int|
            0 <= i < addresses.len() && 0 <= j < 20 ==> #[trigger] encoding(
                height,
                addresses,
            )[16 + 20 * i + j] == addresses[i]@[j],
{
    lemma_auto_spec_u64_to_from_le_bytes();
    let whole = encoding(height, addresses);
    assert(whole.subrange(0, 8) =~= spec_u64_to_le_bytes(height));
    assert(whole.subrange(8, 16) =~= spec_u64_to_le_bytes(addresses.len() as u64));
    assert forall|i: int, j: int| 0 <= i < addresses.len() && 0 <= j < 20 implies #[trigger] whole[16
        + 20 * i + j] == addresses[i]@[j] by {
        let k = 20 * i + j;
        assert(k / 20 == i && k % 20 == j);
        assert(whole[16 + k] == packed(addresses)[k]);
    }
}

/// Bytes begin with the encoding of at most one height and list.
pub proof fn lemma_decoding_unique(
    bytes: Seq<u8>,
    height: u64,
    addresses: Seq<Address>,
    other_height: u64,
    other_addresses: Seq<Address>,
)
    requires
        decodes_to(bytes, height, addresses),
        decodes_to(bytes, other_height, other_addresses),
    ensures
        height == other_height,
        addresses == other_addresses,
{
    lemma_auto_spec_u64_to_from_le_bytes();
    lemma_encoding_len(height, addresses);
    lemma_encoding_len(other_height, other_addresses);
    lemma_encoding_fields(height, addresses);
    lemma_encoding_fields(other_height, other_addresses);
    let one = encoding(height, addresses);
    let two = encoding(other_height, other_addresses);
    assert(one.subrange(0, 8) =~= bytes.subrange(0, 8));
    assert(two.subrange(0, 8) =~= bytes.subrange(0, 8));
    assert(one.subrange(8, 16) =~= bytes.subrange(8, 16));
    assert(two.subrange(8, 16) =~= bytes.subrange(8, 16));
    assert(addresses.len() as u64 == other_addresses.len() as u64);
    assert(addresses.len() == other_addresses.len());
    assert forall|i: int| 0 <= i < addresses.len() implies addresses[i] == other_addresses[i] by {
        assert forall|j: int| 0 <= j < 20 implies addresses[i][j] == other_addresses[i][j] by {
            assert(one[16 + 20 * i + j] == bytes[16 + 20 * i + j]);
            assert(two[16 + 20 * i + j] == bytes[16 + 20 * i + j]);
        }
        assert(addresses[i] =~= other_addresses[i]);
    }
    assert(addresses =~= other_addresses);
}

/// What is read from bytes that begin with the encoding of a pair is that
/// pair.
pub proof fn lemma_decoded_is(bytes: Seq<u8>, height: u64, addresses: Seq<Address>)
    requires
        decodes_to(bytes, height, addresses),
    ensures
        decodable(bytes),
        decoded(bytes) == (height, addresses),
{
    let pair = (height, addresses);
    assert(decodes_to(bytes, pair.0, pair.1));
    let found = decoded(bytes);
    lemma_decoding_unique(bytes, height, addresses, found.0, found.1);
}

/// Reading an encoding gives back the height and the list that were encoded,
/// whatever bytes follow the encoding.
pub proof fn lemma_round_trip(height: u64, addresses: Seq<Address>, rest: Seq<u8>)
    requires
        addresses.len() <= u64::MAX,
    ensures
        decodable(encoding(height, addresses) + rest),
        decoded(encoding(height, addresses) + rest) == (height, addresses),
{
    let whole = encoding(height, addresses) + rest;
    assert(whole.subrange(0, encoding(height, addresses).len() as int) =~= encoding(
        height,
        addresses,
    ));
    lemma_decoded_is(whole, height, addresses);
}

/// An address whose first `n` bytes are those of `bytes`.
spec fn address_from(bytes: Seq<u8>, n: nat) -> Address
    decreases n,
{
    if n == 0 {
        arbitrary()
    } else {
        spec_array_update(address_from(bytes, (n - 1) as nat), n - 1, bytes[n - 1])
    }
}

proof fn lemma_address_from(bytes: Seq<u8>, n: nat)
    requires
        n <= 20,
    ensures
        forall|j: int| 0 <= j < n ==> address_from(bytes, n)@[j] == bytes[j],
    decreases n,
{
    if n > 0 {
        lemma_address_from(bytes, (n - 1) as nat);
    }
}

/// Bytes begin with the encoding of a height and a list exactly when they are
/// complete: shorter than sixteen bytes, or shorter than the addresses that
/// they announce need, they stand for no registry.
pub proof fn lemma_decodable_iff_complete(bytes: Seq<u8>)
    ensures
        decodable(bytes) <==> complete(bytes),
{
    lemma_auto_spec_u64_to_from_le_bytes();
    if decodable(bytes) {
        let (height, addresses) = choose|height: u64, addresses: Seq<Address>|
            decodes_to(bytes, height, addresses);
        lemma_encoding_len(height, addresses);
        lemma_encoding_fields(height, addresses);
        assert(encoding(height, addresses).subrange(8, 16) =~= bytes.subrange(8, 16));
    }
    if complete(bytes) {
        let height = announced_height(bytes);
        let count = announced_count(bytes);
        let addresses = Seq::new(count as nat, |i: int| address_from(address_bytes(bytes, i), 20));
        assert forall|i: int, j: int| 0 <= i < count && 0 <= j < 20 implies #[trigger] addresses[i]@[j]
            == bytes[16 + 20 * i + j] by {
            lemma_address_from(address_bytes(bytes, i), 20);
            assert(addresses[i] == address_from(address_bytes(bytes, i), 20));
            assert(address_bytes(bytes, i)[j] == bytes[16 + 20 * i + j]);
        }
        lemma_encoding_len(height, addresses);
        lemma_encoding_fields(height, addresses);
        let whole = encoding(height, addresses);
        assert(bytes.subrange(0, 8).len() == 8);
        assert(bytes.subrange(8, 16).len() == 8);
        assert forall|k: int| 0 <= k < whole.len() implies whole[k] == bytes[k] by {
            if k < 8 {
                assert(whole[k] == whole.subrange(0, 8)[k]);
                assert(bytes[k] == bytes.subrange(0, 8)[k]);
            } else if k < 16 {
                assert(whole[k] == whole.subrange(8, 16)[k - 8]);
                assert(bytes[k] == bytes.subrange(8, 16)[k - 8]);
            } else {
                let i = (k - 16) / 20;
                let j = (k - 16) % 20;
                assert(whole[16 + 20 * i + j] == addresses[i]@[j]);
            }
        }
        assert(whole =~= bytes.subrange(0, whole.len() as int));
        assert(decodes_to(bytes, height, addresses));
    }
}

/// What is read from complete bytes: the height and the count are the two
/// numbers that the bytes begin with, and address `i` is made of the twenty
/// bytes at its place.
pub proof fn lemma_decoded_fields(bytes: Seq<u8>)
    requires
        complete(bytes),
    ensures
        decoded(bytes).0 == announced_height(bytes),
        decoded(bytes).1.len() == announced_count(bytes),
        forall|i: int|
            0 <= i < announced_count(bytes) ==> (#[trigger] decoded(bytes).1[i])@ == address_bytes(
                bytes,
                i,
            ),
{
    lemma_auto_spec_u64_to_from_le_bytes();
    lemma_decodable_iff_complete(bytes);
    let pair = choose|pair: (u64, Seq<Address>)| decodes_to(bytes, pair.0, pair.1);
    let (height, addresses) = choose|height: u64, addresses: Seq<Address>|
        decodes_to(bytes, height, addresses);
    assert(decodes_to(bytes, (height, addresses).0, (height, addresses).1));
    lemma_encoding_len(pair.0, pair.1);
    lemma_encoding_fields(pair.0, pair.1);
    let whole = encoding(pair.0, pair.1);
    assert(whole.subrange(0, 8) =~= bytes.subrange(0, 8));
    assert(whole.subrange(8, 16) =~= bytes.subrange(8, 16));
    assert forall|i: int| 0 <= i < announced_count(bytes) implies (#[trigger] pair.1[i])@
        == address_bytes(bytes, i) by {
        assert forall|j: int| 0 <= j < 20 implies pair.1[i]@[j] == address_bytes(bytes, i)[j] by {
            assert(whole[16 + 20 * i + j] == bytes[16 + 20 * i + j]);
        }
        assert(pair.1[i]@ =~= address_bytes(bytes, i));
    }
}

} // verus!
