use blockchain::ledger::{Block, Blockchain, Transaction};

fn candidate_block() -> Block {
    Block {
        index: 1,
        timestamp: 123_456,
        transactions: vec![Transaction {
            sender: "A".to_owned(),
            recipient: "B".to_owned(),
            amount: 9,
        }],
        proof: 0,
        previous_hash: "d00d".to_owned(),
    }
}

#[test]
fn search_is_deterministic() {
    let bc = Blockchain::with_config(2, u64::MAX);
    let b = candidate_block();
    let p1 = bc.proof_of_work(&b).expect("difficulty 2 is reachable");
    let p2 = bc.proof_of_work(&b).expect("difficulty 2 is reachable");
    assert_eq!(p1, p2);
}

#[test]
fn search_returns_the_smallest_valid_proof() {
    let bc = Blockchain::with_config(1, u64::MAX);
    let b = candidate_block();
    let p = bc.proof_of_work(&b).expect("difficulty 1 is reachable");
    assert!(bc.is_valid_proof(&b, p));
    for smaller in 0..p {
        assert!(!bc.is_valid_proof(&b, smaller));
    }
}

#[test]
fn found_proof_satisfies_the_predicate() {
    let bc = Blockchain::with_config(2, u64::MAX);
    let mut b = candidate_block();
    let p = bc.proof_of_work(&b).expect("difficulty 2 is reachable");
    b.proof = p;
    let digest = Blockchain::hash(&b);
    assert!(digest.starts_with("00"));
}

#[test]
fn zero_difficulty_accepts_the_first_candidate() {
    let bc = Blockchain::with_config(0, u64::MAX);
    let b = candidate_block();
    assert_eq!(bc.proof_of_work(&b), Ok(0));
}

#[test]
fn cutoff_bounds_the_search() {
    // An exhausted cutoff reports failure; a digest cannot show 65 zeros.
    let bc = Blockchain::with_config(65, 3);
    let b = candidate_block();
    assert!(bc.proof_of_work(&b).is_err());
}

#[test]
fn validity_depends_on_the_candidate_not_the_stored_proof() {
    let bc = Blockchain::with_config(1, u64::MAX);
    let mut b = candidate_block();
    let p = bc.proof_of_work(&b).expect("difficulty 1 is reachable");
    let verdict_before = bc.is_valid_proof(&b, p);
    b.proof = 777;
    let verdict_after = bc.is_valid_proof(&b, p);
    assert!(verdict_before);
    assert_eq!(verdict_before, verdict_after);
}
