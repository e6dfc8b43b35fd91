use deepchain::api::{
    create_blockchain, create_transaction, get_version, get_wallet_balance, is_blockchain_valid,
    make_transaction, mine_pending_transactions,
};
use deepchain::hasher::{decimal_string, meets_difficulty, zeros};
use deepchain::ledger::{Blockchain, LedgerError, Transaction};

fn tx(from: &str, to: &str, amount: u64, fee: u64, sig: &str) -> Transaction {
    Transaction {
        id: format!("t-{}-{}", from, to),
        from: from.to_string(),
        to: to.to_string(),
        amount,
        fee,
        timestamp: 1_700_000_000,
        signature: sig.to_string(),
    }
}

#[test]
fn genesis_block_shape() {
    let b = Blockchain::new("http://node", 3, 25);
    assert_eq!(b.chain.len(), 1);
    let g = &b.chain[0];
    assert_eq!(g.index, 0);
    assert_eq!(g.previous_hash, "0".repeat(64));
    assert_eq!(g.hash, "0".repeat(64));
    assert_eq!(g.nonce, 0);
    assert_eq!(g.difficulty, 3);
    assert!(g.transactions.is_empty());
    assert!(b.pending_transactions.is_empty());
    assert_eq!(b.node_url, "http://node");
    assert_eq!(b.mining_reward, 25);
}

#[test]
fn mining_without_pending_fails() {
    let mut b = Blockchain::new("n", 1, 10);
    let r = b.mine_pending_transactions("miner");
    assert!(matches!(r, Err(LedgerError::NoPendingTransactions)));
    assert_eq!(b.chain.len(), 1);
    assert!(b.pending_transactions.is_empty());
}

#[test]
fn mined_block_meets_difficulty_and_links() {
    let mut b = Blockchain::new("n", 2, 10);
    b.create_transaction(tx("0", "A", 5, 0, "S")).unwrap();
    let genesis_hash = b.chain[0].hash.clone();
    let block = b.mine_pending_transactions("M").unwrap();
    assert_eq!(block.index, 1);
    assert_eq!(block.hash.len(), 64);
    assert!(block.hash.starts_with("00"));
    assert!(block.hash.chars().all(|c| c.is_ascii_hexdigit() && !c.is_ascii_uppercase()));
    assert_eq!(block.previous_hash, genesis_hash);
    assert_eq!(block.difficulty, 2);
    assert_eq!(block.transactions.len(), 2);
    let reward = &block.transactions[1];
    assert_eq!(reward.from, "0");
    assert_eq!(reward.to, "M");
    assert_eq!(reward.amount, 10);
    assert_eq!(reward.fee, 0);
    assert_eq!(reward.signature, "SYSTEM");
    assert!(reward.id.starts_with("reward-"));
    assert_eq!(b.chain[1].hash, block.hash);
    assert!(b.is_chain_valid());
}

fn mined_ledger() -> Blockchain {
    let mut b = Blockchain::new("n", 1, 10);
    b.create_transaction(tx("0", "A", 50, 0, "S")).unwrap();
    b.mine_pending_transactions("A").unwrap();
    b.create_transaction(tx("A", "B", 20, 1, "S")).unwrap();
    b.mine_pending_transactions("B").unwrap();
    b
}

#[test]
fn fresh_chain_is_valid() {
    let b = mined_ledger();
    assert_eq!(b.chain.len(), 3);
    assert!(b.is_chain_valid());
    assert!(is_blockchain_valid(&b));
}

#[test]
fn tampered_amount_is_detected() {
    let mut b = mined_ledger();
    b.chain[1].transactions[0].amount = 5000;
    assert!(!b.is_chain_valid());
}

#[test]
fn tampered_nonce_is_detected() {
    let mut b = mined_ledger();
    b.chain[2].nonce += 1;
    assert!(!b.is_chain_valid());
}

#[test]
fn tampered_previous_hash_is_detected() {
    let mut b = mined_ledger();
    b.chain[2].previous_hash = "f".repeat(64);
    assert!(!b.is_chain_valid());
}

#[test]
fn mint_credits_recipient_exactly() {
    let mut b = Blockchain::new("n", 1, 10);
    let before = b.get_address_balance("X");
    b.create_transaction(tx("0", "X", 42, 0, "S")).unwrap();
    assert_eq!(b.get_address_balance("X"), before + 42);
    assert_eq!(b.get_address_balance("0"), -42);
}

#[test]
fn insufficient_funds_rejected() {
    let mut b = Blockchain::new("n", 1, 10);
    b.create_transaction(tx("0", "A", 5, 0, "S")).unwrap();
    let r = b.create_transaction(tx("A", "B", 5, 1, "S"));
    assert_eq!(r, Err(LedgerError::InvalidTransaction));
    assert_eq!(b.pending_transactions.len(), 1);
    assert!(b.create_transaction(tx("A", "B", 4, 1, "S")).is_ok());
    assert_eq!(b.pending_transactions.len(), 2);
}

#[test]
fn empty_signature_rejected() {
    let mut b = Blockchain::new("n", 1, 10);
    let r = b.create_transaction(tx("0", "A", 5, 0, ""));
    assert_eq!(r, Err(LedgerError::InvalidTransaction));
    assert!(b.pending_transactions.is_empty());
}

#[test]
fn end_to_end_scenario() {
    let b = create_blockchain("node", 2, 10);
    let b = create_transaction(b, "0", "A", 50, 0, "S").ok().unwrap();
    let b = mine_pending_transactions(b, "A").ok().unwrap();
    assert_eq!(b.chain.len(), 2);
    assert_eq!(b.chain[1].index, 1);
    assert!(b.chain[1].hash.starts_with("00"));
    assert_eq!(get_wallet_balance(&b, "A"), 60);
    assert!(is_blockchain_valid(&b));
    assert!(b.pending_transactions.is_empty());
}

#[test]
fn balance_counts_fees_and_pending() {
    let mut b = Blockchain::new("n", 1, 10);
    b.create_transaction(tx("0", "A", 100, 0, "S")).unwrap();
    b.mine_pending_transactions("M").unwrap();
    b.create_transaction(tx("A", "B", 30, 2, "S")).unwrap();
    assert_eq!(b.get_address_balance("A"), 68);
    assert_eq!(b.get_address_balance("B"), 30);
    assert_eq!(b.get_address_balance("M"), 10);
    assert_eq!(b.get_address_balance("nobody"), 0);
}

#[test]
fn self_transfer_costs_the_fee() {
    let mut b = Blockchain::new("n", 1, 10);
    b.create_transaction(tx("0", "A", 20, 0, "S")).unwrap();
    b.create_transaction(tx("A", "A", 10, 3, "S")).unwrap();
    assert_eq!(b.get_address_balance("A"), 17);
}

#[test]
fn add_peer_deduplicates() {
    let mut b = Blockchain::new("n", 1, 10);
    b.add_peer("p1");
    b.add_peer("p2");
    b.add_peer("p1");
    assert_eq!(b.peers, vec!["p1".to_string(), "p2".to_string()]);
}

#[test]
fn latest_block_is_last() {
    let b = mined_ledger();
    assert_eq!(b.get_latest_block().index, 2);
}

#[test]
fn decimal_and_zero_texts() {
    assert_eq!(decimal_string(0), "0");
    assert_eq!(decimal_string(7), "7");
    assert_eq!(decimal_string(1234567890), "1234567890");
    assert_eq!(decimal_string(u64::MAX), "18446744073709551615");
    assert_eq!(zeros(0), "");
    assert_eq!(zeros(5), "00000");
}

#[test]
fn difficulty_prefix_check() {
    let h = "00ab".to_string();
    assert!(meets_difficulty(&h, 0));
    assert!(meets_difficulty(&h, 2));
    assert!(!meets_difficulty(&h, 3));
    assert!(!meets_difficulty(&h, 5));
}

#[test]
fn transaction_json_escapes_strings() {
    let t = Transaction {
        id: "a\"b".to_string(),
        from: "0".to_string(),
        to: "x\\y".to_string(),
        amount: 12,
        fee: 3,
        timestamp: 99,
        signature: "S".to_string(),
    };
    assert_eq!(
        t.to_json(),
        "{\"id\":\"a\\\"b\",\"from\":\"0\",\"to\":\"x\\\\y\",\"amount\":12,\"fee\":3,\"timestamp\":99,\"signature\":\"S\"}"
    );
}

#[test]
fn block_content_layout() {
    let b = Blockchain::new("n", 1, 10);
    let g = &b.chain[0];
    assert_eq!(g.content(), format!("0{}[]{}", "0".repeat(64), g.timestamp));
}

#[test]
fn transaction_identity_and_signature() {
    let t = make_transaction("alice", "bob", 5, 1, "key", 1700);
    assert_eq!(t.id, "tx-alice-1700");
    assert_eq!(t.signature, "SIG_key_tx-alice-1700");
    assert_eq!(t.from, "alice");
    assert_eq!(t.to, "bob");
}

#[test]
fn submit_error_keeps_ledger() {
    let b = create_blockchain("node", 1, 10);
    let r = create_transaction(b, "A", "B", 1, 0, "k");
    assert!(matches!(r, Err(LedgerError::InvalidTransaction)));
}

#[test]
fn version_text() {
    assert_eq!(get_version(), "0.1.0");
}

fn crafted_ledger(hash: &str) -> Blockchain {
    let mut b = Blockchain::new("n", 0, 10);
    let block = deepchain::ledger::Block {
        index: 1,
        timestamp: 1_700_000_001,
        transactions: vec![Transaction {
            id: "t1".to_string(),
            from: "0".to_string(),
            to: "A".to_string(),
            amount: 50,
            fee: 0,
            timestamp: 1_700_000_000,
            signature: "S".to_string(),
        }],
        previous_hash: "0".repeat(64),
        hash: hash.to_string(),
        nonce: 7,
        difficulty: 0,
    };
    b.chain.push(block);
    b
}

#[test]
fn known_sha256_digest_validates() {
    let good = crafted_ledger("08f532f382d81a61fc825bd9c76e46b54ae86977300fcc30e4ed3188b87ed1b3");
    assert!(good.is_chain_valid());
    let bad = crafted_ledger("18f532f382d81a61fc825bd9c76e46b54ae86977300fcc30e4ed3188b87ed1b3");
    assert!(!bad.is_chain_valid());
}

#[test]
fn well_formedness_checks() {
    let b = mined_ledger();
    assert!(b.is_well_formed());
    assert!(b.has_room());
    let mut renumbered = mined_ledger();
    renumbered.chain[2].index = 5;
    assert!(!renumbered.is_well_formed());
    assert!(!renumbered.has_room());
    let mut empty = mined_ledger();
    empty.chain.clear();
    assert!(!empty.is_well_formed());
    let mut regenesis = mined_ledger();
    regenesis.chain[0].hash = "1".repeat(64);
    assert!(!regenesis.is_well_formed());
}

#[test]
fn transaction_json_escapes_control_characters() {
    let t = Transaction {
        id: "a\nb\tc\u{1}d\u{1f}".to_string(),
        from: "é\u{8}\u{c}\r".to_string(),
        to: "/".to_string(),
        amount: 0,
        fee: 0,
        timestamp: 0,
        signature: "".to_string(),
    };
    assert_eq!(
        t.to_json(),
        "{\"id\":\"a\\nb\\tc\\u0001d\\u001f\",\"from\":\"é\\b\\f\\r\",\"to\":\"/\",\"amount\":0,\"fee\":0,\"timestamp\":0,\"signature\":\"\"}"
    );
}

#[test]
fn host_mining_appends_linked_rewarded_block() {
    let b = create_blockchain("node", 1, 7);
    assert!(b.peers.is_empty());
    let b = create_transaction(b, "0", "A", 5, 0, "key").ok().unwrap();
    let queued = &b.pending_transactions[0];
    assert!(queued.id.starts_with("tx-0-"));
    assert_eq!(queued.id, format!("tx-0-{}", queued.timestamp));
    assert_eq!(queued.signature, format!("SIG_key_{}", queued.id));
    let last_hash = b.chain[0].hash.clone();
    let b = mine_pending_transactions(b, "M").ok().unwrap();
    let block = &b.chain[1];
    assert_eq!(block.index, 1);
    assert_eq!(block.previous_hash, last_hash);
    assert_eq!(block.difficulty, 1);
    assert_eq!(block.transactions.len(), 2);
    assert_eq!(block.transactions[0].to, "A");
    assert_eq!(block.transactions[1].to, "M");
    assert_eq!(block.transactions[1].amount, 7);
    assert_eq!(b.mining_reward, 7);
    assert_eq!(b.node_url, "node");
    assert!(b.pending_transactions.is_empty());
}

#[test]
fn host_mining_without_pending_fails() {
    let b = create_blockchain("node", 1, 7);
    assert!(matches!(
        mine_pending_transactions(b, "M"),
        Err(LedgerError::NoPendingTransactions)
    ));
}
