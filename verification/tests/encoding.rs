use blockchain::codec::encode_block;
use blockchain::ledger::{Block, Blockchain, Transaction};

fn tx(sender: &str, recipient: &str, amount: u64) -> Transaction {
    Transaction { sender: sender.to_owned(), recipient: recipient.to_owned(), amount }
}

fn sample_block() -> Block {
    Block {
        index: 0,
        timestamp: 1,
        transactions: vec![tx("A", "B", 100)],
        proof: 0,
        previous_hash: String::new(),
    }
}

#[test]
fn encoding_exact_bytes() {
    let b = sample_block();
    let expected = "{\"index\":0,\"timestamp\":1,\"transactions\":[{\"sender\":\"A\",\"recipient\":\"B\",\"amount\":100}],\"proof\":0,\"previous_hash\":\"\"}";
    assert_eq!(encode_block(&b), expected.as_bytes().to_vec());
}

#[test]
fn encoding_empty_batch_exact_bytes() {
    let b = Block {
        index: 0,
        timestamp: 0,
        transactions: vec![],
        proof: 0,
        previous_hash: String::new(),
    };
    let expected = "{\"index\":0,\"timestamp\":0,\"transactions\":[],\"proof\":0,\"previous_hash\":\"\"}";
    assert_eq!(encode_block(&b), expected.as_bytes().to_vec());
}

#[test]
fn encoding_escapes_and_extremes_exact_bytes() {
    let b = Block {
        index: 3,
        timestamp: -5,
        transactions: vec![tx("a\"b", "c\\d", 0), tx("\u{e9}", "y", u64::MAX)],
        proof: 42,
        previous_hash: "00ab".to_owned(),
    };
    let expected = "{\"index\":3,\"timestamp\":-5,\"transactions\":[{\"sender\":\"a\\\"b\",\"recipient\":\"c\\\\d\",\"amount\":0},{\"sender\":\"\u{e9}\",\"recipient\":\"y\",\"amount\":18446744073709551615}],\"proof\":42,\"previous_hash\":\"00ab\"}";
    assert_eq!(encode_block(&b), expected.as_bytes().to_vec());
}

#[test]
fn encoding_is_stable_across_calls() {
    let b = sample_block();
    assert_eq!(encode_block(&b), encode_block(&b));
}

#[test]
fn digest_matches_known_sha256_vector() {
    let b = sample_block();
    assert_eq!(
        Blockchain::hash(&b),
        "0c62bb697026e224726e1f045ef4dca3680a0f55e92fef943f37b683545c37c4"
    );
}

#[test]
fn digest_of_empty_batch_matches_known_vector() {
    let b = Block {
        index: 0,
        timestamp: 0,
        transactions: vec![],
        proof: 0,
        previous_hash: String::new(),
    };
    assert_eq!(
        Blockchain::hash(&b),
        "7eba3cb7b6736d11ca9f192dea467b25bf55460cf12415b576a510bb6a3eec96"
    );
}

#[test]
fn digest_of_escaped_block_matches_known_vector() {
    let b = Block {
        index: 3,
        timestamp: -5,
        transactions: vec![tx("a\"b", "c\\d", 0), tx("\u{e9}", "y", u64::MAX)],
        proof: 42,
        previous_hash: "00ab".to_owned(),
    };
    assert_eq!(
        Blockchain::hash(&b),
        "b7d346bcf237c9c3d5918ff8dc8c83d59357d9509d9d91ef3979914fd0a8faf6"
    );
}

#[test]
fn digest_is_stable_and_hex() {
    let b = sample_block();
    let h1 = Blockchain::hash(&b);
    let h2 = Blockchain::hash(&b);
    assert_eq!(h1, h2);
    assert_eq!(h1.len(), 64);
    assert!(h1.chars().all(|c| c.is_ascii_hexdigit() && !c.is_ascii_uppercase()));
}
