use mcts_engine::tree::{HashEntry, HashTable};

#[test]
fn new_table_is_empty() {
    let t = HashTable::new(16, 2);
    assert_eq!(t.len(), 16);
    // an empty slot holds signature 0: only hashes whose top 16 bits are zero match
    assert!(t.get(0xFFFF_0000_0000_0003).is_none());
    let e = t.get(3).unwrap();
    assert_eq!(e.q(), 0);
}

#[test]
fn push_then_get_returns_the_value() {
    let mut t = HashTable::new(1024, 1);
    let h: u64 = 0xABCD_1234_5678_9ABC;
    t.push(h, 40000);
    let e = t.get(h).unwrap();
    assert_eq!(e.q(), 40000);
    assert_eq!(e.hash(), 0xABCD);
    assert_eq!(t.fetch(h).q(), 40000);
}

#[test]
fn push_replaces_the_slot() {
    let mut t = HashTable::new(8, 1);
    let a: u64 = 0x1111_0000_0000_0001;
    let b: u64 = 0x2222_0000_0000_0009; // same slot: 9 % 8 == 1
    t.push(a, 10);
    t.push(b, 20);
    assert!(t.get(a).is_none());
    assert_eq!(t.get(b).unwrap().q(), 20);
}

#[test]
fn same_signature_other_slot_keeps_own_value() {
    let mut t = HashTable::new(64, 1);
    let a: u64 = 0x7777_0000_0000_0005;
    let b: u64 = 0x7777_0000_0000_0006;
    assert_eq!(a >> 48, b >> 48);
    t.push(a, 111);
    t.push(b, 222);
    assert_eq!(t.get(a).unwrap().q(), 111);
    assert_eq!(t.get(b).unwrap().q(), 222);
}

#[test]
fn clear_empties_every_slot() {
    let mut t = HashTable::new(4, 1);
    let h: u64 = 0x0102_0000_0000_0002;
    t.push(h, 5);
    t.clear(2);
    assert_eq!(t.len(), 4);
    assert!(t.get(h).is_none());
    assert_eq!(t.fetch(h).q(), 0);
}

#[test]
fn entry_bits_round_trip() {
    let e = HashEntry::from_bits(0xBEEF_CAFE);
    assert_eq!(e.hash(), 0xCAFE);
    assert_eq!(e.q(), 0xBEEF);
    assert_eq!(e.to_bits(), 0xBEEF_CAFE);
}

#[test]
fn float_value_reads_back_within_one_step() {
    let mut t = HashTable::new(256, 1);
    for (i, q) in [0.0f32, 0.123456, 0.5, 0.999999, 1.0, 0.3333333].iter().enumerate() {
        let h: u64 = 0x5A5A_0000_0000_0000 | i as u64;
        t.push(h, (q * 65535.0).round() as u16);
        let back = f32::from(t.get(h).unwrap().q()) / 65535.0;
        assert!((back - q).abs() <= 1.0 / 65536.0);
    }
}
