use address_book::address::{same_address, Address};
use address_book::block::{Block, Transaction};
use address_book::registry::AddressBook;

fn addr(tag: u8) -> Address {
    let mut a = [0u8; 20];
    a[0] = tag;
    a[19] = tag;
    a
}

#[test]
fn same_address_compares_every_byte() {
    let a = addr(1);
    let mut b = addr(1);
    assert!(same_address(&a, &b));
    b[10] = 7;
    assert!(!same_address(&a, &b));
    let mut c = addr(1);
    c[19] = 2;
    assert!(!same_address(&a, &c));
    let mut d = addr(1);
    d[0] = 0;
    assert!(!same_address(&a, &d));
}

#[test]
fn new_keeps_height_and_addresses() {
    let book = AddressBook::new(21395800, vec![addr(1), addr(2)]);
    assert_eq!(book.height(), 21395800);
    assert_eq!(book.len(), 2);
    assert!(book.contains(&addr(1)));
    assert!(book.contains(&addr(2)));
    assert!(!book.contains(&addr(3)));
}

#[test]
fn new_with_no_addresses_is_empty() {
    let book = AddressBook::new(0, Vec::new());
    assert_eq!(book.height(), 0);
    assert_eq!(book.len(), 0);
    assert!(book.addresses().is_empty());
}

#[test]
fn new_stores_a_repeated_address_once() {
    let book = AddressBook::new(5, vec![addr(1), addr(2), addr(1), addr(1), addr(2)]);
    assert_eq!(book.len(), 2);
    assert_eq!(book.addresses(), &vec![addr(1), addr(2)]);
}

#[test]
fn increment_block_height_adds_one() {
    let mut book = AddressBook::new(41, vec![addr(9)]);
    assert_eq!(book.increment_block_height(), 42);
    assert_eq!(book.height(), 42);
    assert_eq!(book.increment_block_height(), 43);
    assert_eq!(book.height(), 43);
    assert_eq!(book.addresses(), &vec![addr(9)]);
}

#[test]
fn insert_reports_whether_the_address_is_new() {
    let mut book = AddressBook::new(1, Vec::new());
    assert!(book.insert(addr(4)));
    assert!(!book.insert(addr(4)));
    assert!(book.insert(addr(5)));
    assert_eq!(book.len(), 2);
    assert_eq!(book.height(), 1);
    assert_eq!(book.addresses(), &vec![addr(4), addr(5)]);
}

#[test]
fn endpoint_is_recipient_or_else_sender() {
    let with_recipient = Transaction { from: addr(1), to: Some(addr(2)) };
    let creation = Transaction { from: addr(3), to: None };
    assert_eq!(with_recipient.endpoint(), addr(2));
    assert_eq!(creation.endpoint(), addr(3));
}

#[test]
fn participants_lists_producer_then_endpoints() {
    let block = Block {
        height: 7,
        producer: addr(10),
        transactions: vec![
            Transaction { from: addr(1), to: Some(addr(2)) },
            Transaction { from: addr(3), to: None },
            Transaction { from: addr(4), to: Some(addr(2)) },
        ],
    };
    assert_eq!(block.participants(), vec![addr(10), addr(2), addr(3), addr(2)]);
    let empty = Block { height: 8, producer: addr(11), transactions: Vec::new() };
    assert_eq!(empty.participants(), vec![addr(11)]);
}

#[test]
fn merge_block_extracts_producer_recipient_and_creator() {
    let p = addr(0xB0);
    let a = addr(0xA0);
    let b = addr(0xB1);
    let c = addr(0xC0);
    let block = Block {
        height: 100,
        producer: p,
        transactions: vec![
            Transaction { from: a, to: Some(b) },
            Transaction { from: c, to: None },
        ],
    };
    let mut book = AddressBook::new(99, Vec::new());
    book.merge_block(&block);
    assert_eq!(book.height(), 100);
    assert!(book.contains(&p));
    assert!(book.contains(&b));
    assert!(book.contains(&c));
    // The sender of a transaction that names a recipient is not recorded.
    assert!(!book.contains(&a));
    assert_eq!(book.len(), 3);
    assert_eq!(book.addresses(), &vec![p, b, c]);
}

#[test]
fn merge_block_keeps_what_was_there() {
    let mut book = AddressBook::new(9, vec![addr(1), addr(2)]);
    let block = Block {
        height: 10,
        producer: addr(2),
        transactions: vec![Transaction { from: addr(3), to: Some(addr(1)) }],
    };
    book.merge_block(&block);
    assert_eq!(book.height(), 10);
    assert_eq!(book.addresses(), &vec![addr(1), addr(2)]);
    let next = Block {
        height: 11,
        producer: addr(4),
        transactions: vec![Transaction { from: addr(5), to: None }],
    };
    book.merge_block(&next);
    assert_eq!(book.height(), 11);
    assert_eq!(book.addresses(), &vec![addr(1), addr(2), addr(4), addr(5)]);
}

#[test]
fn merges_raise_the_height_by_one_each() {
    let mut book = AddressBook::new(1000, Vec::new());
    for step in 1..=25u64 {
        let block = Block {
            height: 1000 + step,
            producer: addr((step % 5) as u8),
            transactions: Vec::new(),
        };
        let before = book.height();
        book.merge_block(&block);
        assert_eq!(book.height(), before + 1);
        assert_eq!(book.height(), 1000 + step);
    }
    assert_eq!(book.len(), 5);
}

#[test]
fn absorbing_a_block_twice_changes_nothing() {
    let block = Block {
        height: 100,
        producer: addr(1),
        transactions: vec![
            Transaction { from: addr(2), to: Some(addr(3)) },
            Transaction { from: addr(4), to: None },
            Transaction { from: addr(4), to: None },
        ],
    };
    let mut book = AddressBook::new(99, vec![addr(7)]);
    book.absorb(&block);
    let first = book.addresses().clone();
    assert_eq!(first, vec![addr(7), addr(1), addr(3), addr(4)]);
    assert_eq!(book.height(), 99);
    book.absorb(&block);
    assert_eq!(book.addresses(), &first);
    assert_eq!(book.height(), 99);
}

#[test]
fn extend_appends_what_is_new_in_order() {
    let mut book = AddressBook::new(3, vec![addr(1), addr(2)]);
    book.extend(&vec![addr(2), addr(5), addr(1), addr(4), addr(5)]);
    assert_eq!(book.height(), 3);
    assert_eq!(book.addresses(), &vec![addr(1), addr(2), addr(5), addr(4)]);
    book.extend(&Vec::new());
    assert_eq!(book.len(), 4);
}

#[test]
fn same_as_ignores_the_order_of_addresses() {
    let one = AddressBook::new(8, vec![addr(1), addr(2), addr(3)]);
    let other = AddressBook::new(8, vec![addr(3), addr(1), addr(2), addr(1)]);
    assert!(one.same_as(&other));
    assert!(other.same_as(&one));
    assert!(one.same_as(&one));
}

#[test]
fn same_as_tells_height_and_addresses_apart() {
    let one = AddressBook::new(8, vec![addr(1), addr(2), addr(3)]);
    assert!(!one.same_as(&AddressBook::new(9, vec![addr(1), addr(2), addr(3)])));
    assert!(!one.same_as(&AddressBook::new(8, vec![addr(1), addr(2)])));
    assert!(!one.same_as(&AddressBook::new(8, vec![addr(1), addr(2), addr(4)])));
    assert!(!one.same_as(&AddressBook::new(8, vec![addr(1), addr(2), addr(3), addr(4)])));
    assert!(!AddressBook::new(8, Vec::new()).same_as(&one));
    assert!(AddressBook::new(8, Vec::new()).same_as(&AddressBook::new(8, Vec::new())));
}
