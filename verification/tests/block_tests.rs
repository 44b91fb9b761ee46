use black_bloc::block::Block;
use black_bloc::secp256k1::ToHex;
use black_bloc::sha256::Sha256;
use black_bloc::transaction::Transaction;

#[test]
fn block_test_new() {
    let now = chrono::Utc::now().timestamp_millis();
    let trans: Vec<Transaction> = Vec::new();
    let item = Block::new(now, trans);
    assert_eq!(item.timestamp, now);
    assert_ne!(item.prev_hash, item.hash);
    assert_eq!(item.nonce, 0);
}

#[test]
fn test_mine() {
    let now = chrono::Utc::now().timestamp_millis();
    let trans: Vec<Transaction> = Vec::new();
    let mut item = Block::new(now, trans);
    item.mine(1);
    assert_ne!(item.nonce, 0);
    assert!(item.hash.to_hex().starts_with("0"), "must start with 0");
}

#[test]
fn new_block_is_unlinked_and_consistent() {
    let item = Block::new(1_700_000_000_000, Vec::new());
    assert_eq!(item.prev_hash, Sha256::zero());
    assert_eq!(item.prev_hash.to_hex(), "0".repeat(64));
    assert_eq!(item.hash, item.get_hash());
}

#[test]
fn empty_block_digest_is_that_of_its_56_bytes() {
    // 32 zero bytes, the time, a count of zero, a nonce of zero.
    let item = Block::new(1, Vec::new());
    let mut bytes = vec![0u8; 32];
    bytes.extend_from_slice(&[1, 0, 0, 0, 0, 0, 0, 0]);
    bytes.extend_from_slice(&[0u8; 8]);
    bytes.extend_from_slice(&[0u8; 8]);
    assert_eq!(item.get_hash(), Sha256::hash(&bytes));
}

#[test]
fn digest_follows_every_field() {
    let base = Block::new(1_700_000_000_000, Vec::new());
    let mut later = base.duplicate();
    later.timestamp += 1;
    assert_ne!(later.get_hash(), base.get_hash());
    let mut other_nonce = base.duplicate();
    other_nonce.nonce = 7;
    assert_ne!(other_nonce.get_hash(), base.get_hash());
    let mut other_prev = base.duplicate();
    other_prev.prev_hash = Sha256::hash(b"x");
    assert_ne!(other_prev.get_hash(), base.get_hash());
    let mut other_hash = base.duplicate();
    other_hash.hash = Sha256::hash(b"x");
    assert_eq!(other_hash.get_hash(), base.get_hash());
}

#[test]
fn difficulty_zero_is_always_mined() {
    let mut item = Block::new(1_700_000_000_000, Vec::new());
    assert!(item.is_mined(0));
    assert!(item.mine(0));
    assert_eq!(item.nonce, 0);
}

#[test]
fn mining_finds_the_first_nonce() {
    let mut item = Block::new(1_700_000_000_123, Vec::new());
    let start = item.duplicate();
    assert!(item.mine(1));
    assert!(item.is_mined(1));
    assert_eq!(item.hash, item.get_hash());
    assert_eq!(item.hash.as_ref()[0], 0);
    let mut probe = start.duplicate();
    for nonce in 0..item.nonce {
        probe.nonce = nonce;
        probe.hash = probe.get_hash();
        assert!(!probe.is_mined(1), "nonce {} already works", nonce);
    }
}

#[test]
fn a_mined_block_is_left_alone() {
    let mut item = Block::new(1_700_000_000_123, Vec::new());
    assert!(item.mine(1));
    let nonce = item.nonce;
    let hash = item.hash;
    assert!(item.mine(1));
    assert_eq!(item.nonce, nonce);
    assert_eq!(item.hash, hash);
}

#[test]
fn mining_ends_at_the_last_nonce() {
    let mut item = Block::new(5, Vec::new());
    item.nonce = u64::MAX - 1;
    item.hash = item.get_hash();
    if !item.is_mined(31) {
        let found = item.mine(31);
        assert_eq!(found, item.is_mined(31));
        if !found {
            assert_eq!(item.nonce, u64::MAX);
        }
    }
}

#[test]
fn a_bounded_search_stops_where_it_is_told() {
    let mut full = Block::new(1_700_000_000_456, Vec::new());
    let start = full.duplicate();
    assert!(full.mine(1));
    let first = full.nonce;

    let mut none = start.duplicate();
    assert_eq!(none.mine_up_to(1, 0), first == 0);
    assert_eq!(none.nonce, 0);
    assert_eq!(none.hash, start.hash);

    if first > 0 {
        let mut short = start.duplicate();
        assert!(!short.mine_up_to(1, first - 1));
        assert_eq!(short.nonce, first - 1);
        assert_eq!(short.hash, short.get_hash());
        assert!(short.mine_up_to(1, 1));
        assert_eq!(short.nonce, first);
        assert_eq!(short.hash, full.hash);
    }
    let mut enough = start.duplicate();
    assert!(enough.mine_up_to(1, first));
    assert_eq!(enough.nonce, first);
    assert_eq!(enough, full);
    assert_eq!(enough.clone(), full);
}
