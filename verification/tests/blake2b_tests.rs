use cuckatoo::blake2b::{blake2b, blake2b_256};

#[test]
fn test_blake2b_basic() {
    let header = b"test header";
    let nonce = 12345u64;
    let result = blake2b(header, nonce);

    assert_eq!(result.len(), 4);
    assert!(result.iter().any(|&x| x != 0));
}

#[test]
fn test_blake2b_consistency() {
    let header = b"test header";
    let nonce = 12345u64;
    let result1 = blake2b(header, nonce);
    let result2 = blake2b(header, nonce);

    assert_eq!(result1, result2);
}

#[test]
fn test_blake2b_different_inputs() {
    let header1 = b"test header";
    let header2 = b"test header2";
    let nonce = 12345u64;

    let result1 = blake2b(header1, nonce);
    let result2 = blake2b(header2, nonce);

    assert_ne!(result1, result2);
}

#[test]
fn blake2b_known_answer_empty() {
    // Blake2b-256 of the empty message, as four little-endian words.
    let words = blake2b_256(b"");
    assert_eq!(words[0], 0xb243e526c051570e);
    assert_eq!(words[1], 0xa1da9960b02eabe8);
    assert_eq!(words[2], 0x87778f7747dfe5d1);
    assert_eq!(words[3], 0xa8e32ff1cd45abfa);
}

#[test]
fn blake2b_known_answer_abc() {
    // Blake2b-256 of "abc", as four little-endian words.
    let words = blake2b_256(b"abc");
    assert_eq!(words[0], 0x723942633c81ddbd);
    assert_eq!(words[1], 0x9b5798ee3fef7131);
    assert_eq!(words[2], 0x423ecbb13b4e9694);
    assert_eq!(words[3], 0x1923d568c0c86272);
}

#[test]
fn blake2b_long_message_multiple_blocks() {
    // A 300-byte message crosses two full compression blocks.
    let msg = [7u8; 300];
    let a = blake2b_256(&msg);
    let b = blake2b_256(&msg);
    assert_eq!(a, b);
    let mut msg2 = [7u8; 300];
    msg2[299] = 8;
    assert_ne!(blake2b_256(&msg2), a);
}
