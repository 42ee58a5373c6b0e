use address_book::address::Address;
use address_book::error::ScanError;
use address_book::registry::AddressBook;
use std::collections::HashSet;

fn addr(tag: u8) -> Address {
    let mut a = [tag; 20];
    a[0] = 0xEE;
    a
}

fn sample_bytes() -> Vec<u8> {
    let mut bytes = vec![0x2a, 1, 0, 0, 0, 0, 0, 0, 2, 0, 0, 0, 0, 0, 0, 0];
    bytes.extend_from_slice(&addr(1));
    bytes.extend_from_slice(&addr(2));
    bytes
}

#[test]
fn snapshot_lays_out_height_count_and_addresses() {
    let book = AddressBook::new(0x012a, vec![addr(1), addr(2)]);
    let bytes = book.snapshot();
    assert_eq!(bytes.len(), 16 + 2 * 20);
    assert_eq!(bytes, sample_bytes());
}

#[test]
fn snapshot_of_empty_registry_is_sixteen_bytes() {
    let book = AddressBook::new(21395800, Vec::new());
    let bytes = book.snapshot();
    assert_eq!(
        bytes,
        vec![0x58, 0x79, 0x46, 0x01, 0, 0, 0, 0, 0, 0, 0, 0, 0, 0, 0, 0]
    );
}

#[test]
fn snapshot_is_what_bincode_writes_for_the_pair() {
    let list = vec![addr(3), addr(4), addr(5)];
    let book = AddressBook::new(u64::MAX, list.clone());
    let expected = bincode::serialize(&(u64::MAX, list)).unwrap();
    assert_eq!(book.snapshot(), expected);
}

#[test]
fn load_reads_what_snapshot_wrote() {
    let book = AddressBook::new(77, vec![addr(9), addr(8), addr(7)]);
    let again = AddressBook::load(&book.snapshot()).unwrap();
    assert_eq!(again.height(), 77);
    assert_eq!(again.addresses(), book.addresses());
    assert_eq!(again.snapshot(), book.snapshot());
}

#[test]
fn load_reads_the_layout() {
    let book = AddressBook::load(&sample_bytes()).unwrap();
    assert_eq!(book.height(), 0x012a);
    assert_eq!(book.addresses(), &vec![addr(1), addr(2)]);
}

#[test]
fn load_ignores_bytes_after_the_encoding() {
    let mut bytes = sample_bytes();
    bytes.extend_from_slice(&[1, 2, 3]);
    let book = AddressBook::load(&bytes).unwrap();
    assert_eq!(book.height(), 0x012a);
    assert_eq!(book.addresses(), &vec![addr(1), addr(2)]);
}

#[test]
fn load_stores_a_repeated_address_once() {
    let mut bytes = vec![5, 0, 0, 0, 0, 0, 0, 0, 3, 0, 0, 0, 0, 0, 0, 0];
    bytes.extend_from_slice(&addr(1));
    bytes.extend_from_slice(&addr(2));
    bytes.extend_from_slice(&addr(1));
    let book = AddressBook::load(&bytes).unwrap();
    assert_eq!(book.height(), 5);
    assert_eq!(book.len(), 2);
    assert_eq!(book.addresses(), &vec![addr(1), addr(2)]);
}

#[test]
fn load_reads_a_stored_hash_set() {
    let mut set: HashSet<[u8; 20]> = HashSet::new();
    for tag in 0..40u8 {
        set.insert(addr(tag));
    }
    let bytes = bincode::serialize(&(21395810u64, &set)).unwrap();
    let book = AddressBook::load(&bytes).unwrap();
    assert_eq!(book.height(), 21395810);
    assert_eq!(book.len(), 40);
    let read: HashSet<[u8; 20]> = book.addresses().iter().copied().collect();
    assert_eq!(read, set);
}

#[test]
fn stored_registry_reads_back_as_a_hash_set() {
    let book = AddressBook::new(12, vec![addr(1), addr(2), addr(3)]);
    let (height, set): (u64, HashSet<[u8; 20]>) = bincode::deserialize(&book.snapshot()).unwrap();
    assert_eq!(height, 12);
    let expected: HashSet<[u8; 20]> = [addr(1), addr(2), addr(3)].into_iter().collect();
    assert_eq!(set, expected);
}

#[test]
fn load_refuses_empty_input() {
    assert_eq!(AddressBook::load(&[]).err(), Some(ScanError::CorruptState));
}

#[test]
fn load_refuses_input_shorter_than_the_two_numbers() {
    let bytes = sample_bytes();
    for cut in 0..16 {
        assert_eq!(AddressBook::load(&bytes[..cut]).err(), Some(ScanError::CorruptState));
    }
}

#[test]
fn load_refuses_truncated_addresses() {
    let bytes = sample_bytes();
    for cut in 16..bytes.len() {
        assert_eq!(AddressBook::load(&bytes[..cut]).err(), Some(ScanError::CorruptState));
    }
    assert!(AddressBook::load(&bytes).is_ok());
}

#[test]
fn load_refuses_a_count_beyond_the_input() {
    let mut bytes = vec![1, 0, 0, 0, 0, 0, 0, 0];
    bytes.extend_from_slice(&[0xff; 8]);
    bytes.extend_from_slice(&[0u8; 200]);
    assert_eq!(AddressBook::load(&bytes).err(), Some(ScanError::CorruptState));
}

#[test]
fn load_refuses_text() {
    let text = b"not a registry at all";
    assert_eq!(AddressBook::load(text).err(), Some(ScanError::CorruptState));
}

#[test]
fn load_accepts_exactly_sixteen_bytes_with_no_addresses() {
    let bytes = [9u8, 0, 0, 0, 0, 0, 0, 0, 0, 0, 0, 0, 0, 0, 0, 0];
    let book = AddressBook::load(&bytes).unwrap();
    assert_eq!(book.height(), 9);
    assert_eq!(book.len(), 0);
}

#[test]
fn errors_describe_themselves() {
    assert_eq!(ScanError::CorruptState.describe(), "stored registry is corrupt");
    assert_eq!(ScanError::ProviderUnavailable.describe(), "block provider is unavailable");
}

#[test]
fn restored_registry_equals_the_stored_one() {
    let book = AddressBook::new(21395810, vec![addr(5), addr(4), addr(3), addr(2), addr(1)]);
    let again = AddressBook::load(&book.snapshot()).unwrap();
    assert!(again.same_as(&book));
    assert_eq!(again.height(), 21395810);
    assert_eq!(again.len(), 5);
}

#[test]
fn registries_stored_in_another_order_are_equal() {
    let one = bincode::serialize(&(7u64, vec![addr(1), addr(2), addr(3)])).unwrap();
    let other = bincode::serialize(&(7u64, vec![addr(3), addr(2), addr(1)])).unwrap();
    assert_ne!(one, other);
    let first = AddressBook::load(&one).unwrap();
    let second = AddressBook::load(&other).unwrap();
    assert!(first.same_as(&second));
}
