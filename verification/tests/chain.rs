use blockchain::ledger::{Blockchain, MineError};

#[test]
fn genesis_block_on_fresh_ledger() {
    let mut bc = Blockchain::new();
    let b0 = bc.new_block(0);
    assert_eq!(b0.index, 0);
    assert_eq!(b0.previous_hash, "");
    assert_eq!(b0.proof, 0);
    assert!(b0.transactions.is_empty());
    assert_eq!(bc.chain().len(), 1);
}

#[test]
fn chain_linkage_across_two_seals() {
    let mut bc = Blockchain::new();
    let b0 = bc.new_block(0);
    let b1 = bc.new_block(7);
    assert_eq!(b1.index, b0.index + 1);
    assert_eq!(b1.previous_hash, Blockchain::hash(&b0));
    assert_eq!(bc.chain().len(), 2);
    assert_eq!(bc.chain()[1].previous_hash, Blockchain::hash(&bc.chain()[0]));
}

#[test]
fn pending_pool_lifecycle() {
    let mut bc = Blockchain::new();
    bc.new_transaction("T1s", "T1r", 1);
    bc.new_transaction("T2s", "T2r", 2);
    bc.new_transaction("T3s", "T3r", 3);
    assert_eq!(bc.pending().len(), 3);
    let sealed = bc.new_block(0);
    let names: Vec<&str> = sealed.transactions.iter().map(|t| t.sender.as_str()).collect();
    assert_eq!(names, vec!["T1s", "T2s", "T3s"]);
    assert_eq!(sealed.transactions.len(), 3);
    assert!(bc.pending().is_empty());
    bc.new_transaction("T4s", "T4r", 4);
    let next = bc.new_block(0);
    assert_eq!(next.transactions.len(), 1);
    assert_eq!(next.transactions[0].sender, "T4s");
    assert_eq!(next.transactions[0].recipient, "T4r");
    assert_eq!(next.transactions[0].amount, 4);
    assert!(bc.pending().is_empty());
}

#[test]
fn landing_index_estimates() {
    let mut bc = Blockchain::new();
    assert_eq!(bc.new_transaction("a", "b", 5), 1);
    bc.new_block(0);
    assert_eq!(bc.new_transaction("b", "c", 6), 2);
    bc.new_block(0);
    assert_eq!(bc.new_transaction("c", "d", 7), 3);
}

#[test]
fn last_block_tracks_the_tip() {
    let mut bc = Blockchain::new();
    assert!(bc.last_block().is_none());
    bc.new_block(0);
    let first_hash = {
        let last = bc.last_block().expect("chain is non-empty");
        assert_eq!(last.index, 0);
        Blockchain::hash(last)
    };
    bc.new_block(3);
    let last = bc.last_block().expect("chain is non-empty");
    assert_eq!(last.index, 1);
    assert_eq!(last.previous_hash, first_hash);
}

#[test]
fn full_scenario_with_search() {
    // A fresh ledger, one queued transaction, an explicitly sealed genesis
    // block, a second queued transaction, and a mined successor.
    let mut bc = Blockchain::with_config(2, u64::MAX);
    assert_eq!(bc.new_transaction("A", "B", 100), 1);
    let b0 = bc.new_block(0);
    assert_eq!(b0.index, 0);
    assert_eq!(b0.previous_hash, "");
    assert_eq!(b0.transactions.len(), 1);
    assert_eq!(b0.transactions[0].sender, "A");
    assert_eq!(b0.transactions[0].recipient, "B");
    assert_eq!(b0.transactions[0].amount, 100);
    assert_eq!(bc.new_transaction("B", "C", 50), 2);
    let b1 = bc.mine_block().expect("search at difficulty 2 succeeds");
    assert_eq!(b1.index, 1);
    assert_eq!(b1.previous_hash, Blockchain::hash(&b0));
    assert_eq!(b1.transactions.len(), 1);
    assert_eq!(b1.transactions[0].sender, "B");
    assert_eq!(b1.transactions[0].recipient, "C");
    assert_eq!(b1.transactions[0].amount, 50);
    assert!(Blockchain::hash(&b1).starts_with("00"));
    assert!(bc.pending().is_empty());
}

#[test]
fn mining_error_leaves_ledger_unchanged() {
    // 65 leading zeros can never appear in a 64-character digest, so the
    // search must exhaust its cutoff and report the predicate unsatisfiable.
    let mut bc = Blockchain::with_config(65, 100);
    bc.new_transaction("a", "b", 1);
    let r = bc.mine_block();
    assert_eq!(r.unwrap_err(), MineError::PredicateUnsatisfiable);
    assert_eq!(bc.chain().len(), 0);
    assert_eq!(bc.pending().len(), 1);
}

#[test]
fn configuration_is_reported() {
    let bc = Blockchain::new();
    assert_eq!(bc.difficulty(), 4);
    assert_eq!(bc.max_iterations(), u64::MAX);
    let bc2 = Blockchain::with_config(2, 500);
    assert_eq!(bc2.difficulty(), 2);
    assert_eq!(bc2.max_iterations(), 500);
}
