use bdk::bitcoin::consensus::encode::{deserialize, serialize};
use grouphug::hexstr::decode_hex;
use grouphug::transaction::{copy_bytes, OutPoint, Transaction, TxIn, TxOut};

/// One input without witness, one output of 10000 satoshis.
fn legacy_hex() -> String {
    let mut text = String::from("0200000001");
    text.push_str(&"aa".repeat(32));
    text.push_str("00000000");
    text.push_str("00");
    text.push_str("ffffffff");
    text.push_str("01");
    text.push_str("1027000000000000");
    text.push_str("0151");
    text.push_str("00000000");
    text
}

/// The same with a witness of two items, and other numbers.
fn segwit_hex() -> String {
    let mut text = String::from("02000000");
    text.push_str("0001");
    text.push_str("01");
    text.push_str(&"0b".repeat(32));
    text.push_str("07000000");
    text.push_str("00");
    text.push_str("feffffff");
    text.push_str("01");
    text.push_str("e803000000000000");
    text.push_str("026a00");
    text.push_str("02");
    text.push_str("023083");
    text.push_str("0102");
    text.push_str("00e1f505");
    text
}

fn legacy() -> Transaction {
    Transaction {
        version: 2,
        lock_time: 0,
        input: vec![TxIn {
            previous_output: OutPoint { txid: [0xaa; 32], vout: 0 },
            script_sig: Vec::new(),
            sequence: 0xffff_ffff,
            witness: Vec::new(),
        }],
        output: vec![TxOut { value: 10_000, script_pubkey: vec![0x51] }],
    }
}

fn segwit() -> Transaction {
    Transaction {
        version: 2,
        lock_time: 100_000_000,
        input: vec![TxIn {
            previous_output: OutPoint { txid: [0x0b; 32], vout: 7 },
            script_sig: Vec::new(),
            sequence: 0xffff_fffe,
            witness: vec![vec![0x30, 0x83], vec![0x02]],
        }],
        output: vec![TxOut { value: 1000, script_pubkey: vec![0x6a, 0x00] }],
    }
}

#[test]
fn hex_text_spells_bytes() {
    assert_eq!(decode_hex("00ff10"), Some(vec![0x00, 0xff, 0x10]));
    assert_eq!(decode_hex("48656c6c6f"), Some(vec![0x48, 0x65, 0x6c, 0x6c, 0x6f]));
    assert_eq!(decode_hex("0123456789abcdef"), Some(vec![0x01, 0x23, 0x45, 0x67, 0x89, 0xab, 0xcd, 0xef]));
    assert_eq!(decode_hex(""), Some(Vec::new()));
}

#[test]
fn hex_text_may_mix_cases() {
    assert_eq!(decode_hex("f9B4Ca"), Some(vec![0xf9, 0xb4, 0xca]));
    assert_eq!(decode_hex("ABCDEF"), Some(vec![0xab, 0xcd, 0xef]));
}

#[test]
fn hex_text_of_odd_length_is_none() {
    assert_eq!(decode_hex("123"), None);
    assert_eq!(decode_hex("a"), None);
}

#[test]
fn hex_text_with_other_characters_is_none() {
    assert_eq!(decode_hex("foo0"), None);
    assert_eq!(decode_hex("0g"), None);
    assert_eq!(decode_hex("00 11"), None);
    assert_eq!(decode_hex(" 0011"), None);
    assert_eq!(decode_hex("0x11"), None);
    assert_eq!(decode_hex("/0"), None);
    assert_eq!(decode_hex(":0"), None);
    assert_eq!(decode_hex("@0"), None);
    assert_eq!(decode_hex("G0"), None);
    assert_eq!(decode_hex("`0"), None);
    // Two bytes in UTF-8, none of them a digit.
    assert_eq!(decode_hex("é"), None);
    assert_eq!(decode_hex("12é"), None);
}

#[test]
fn a_legacy_transaction_is_read_field_by_field() {
    let bytes = decode_hex(&legacy_hex()).unwrap();
    assert_eq!(Transaction::decode(&bytes), Some(legacy()));
}

#[test]
fn a_segwit_transaction_is_read_field_by_field() {
    let bytes = decode_hex(&segwit_hex()).unwrap();
    assert_eq!(Transaction::decode(&bytes), Some(segwit()));
}

#[test]
fn bytes_that_are_no_transaction_are_not_read() {
    assert_eq!(Transaction::decode(&Vec::new()), None);
    assert_eq!(Transaction::decode(&vec![0x02, 0x00, 0x00]), None);
    let mut bytes = decode_hex(&legacy_hex()).unwrap();
    bytes.push(0x00);
    assert_eq!(Transaction::decode(&bytes), None);
    bytes.pop();
    bytes.pop();
    assert_eq!(Transaction::decode(&bytes), None);
}

#[test]
fn a_transaction_is_written_as_it_was_read() {
    assert_eq!(legacy().encode(), decode_hex(&legacy_hex()).unwrap());
    assert_eq!(segwit().encode(), decode_hex(&segwit_hex()).unwrap());
}

#[test]
fn encoding_agrees_with_the_bitcoin_crate() {
    for text in [legacy_hex(), segwit_hex()] {
        let bytes = hex::decode(&text).unwrap();
        let theirs: bdk::bitcoin::Transaction = deserialize(&bytes).unwrap();
        let ours = Transaction::decode(&bytes).unwrap();
        assert_eq!(ours.encode(), serialize(&theirs));
        assert_eq!(ours.vsize(), theirs.vsize());
        assert_eq!(ours.version, theirs.version);
        assert_eq!(ours.lock_time, theirs.lock_time.to_consensus_u32());
        assert_eq!(ours.input[0].sequence, theirs.input[0].sequence.0);
        assert_eq!(ours.input[0].previous_output.vout, theirs.input[0].previous_output.vout);
        assert_eq!(ours.input[0].witness, theirs.input[0].witness.to_vec());
        assert_eq!(ours.output[0].value, theirs.output[0].value);
        assert_eq!(ours.output[0].script_pubkey, theirs.output[0].script_pubkey.to_bytes());
    }
}

#[test]
fn virtual_size_counts_witness_bytes_a_quarter() {
    // 61 bytes, all of them outside the witness.
    assert_eq!(legacy().vsize(), 61);
    // 62 bytes outside the witness, 8 inside: (62 * 4 + 8) / 4.
    assert_eq!(segwit().vsize(), 64);
}

#[test]
fn an_empty_transaction_has_a_size() {
    let empty = Transaction { version: 2, lock_time: 0, input: Vec::new(), output: Vec::new() };
    assert_eq!(empty.vsize(), 10);
    let bytes = empty.encode();
    assert_eq!(Transaction::decode(&bytes), Some(empty));
}

#[test]
fn copies_are_equal() {
    assert_eq!(copy_bytes(&vec![1, 2, 3]), vec![1, 2, 3]);
    assert_eq!(copy_bytes(&Vec::new()), Vec::<u8>::new());
    let tx = segwit();
    assert_eq!(tx.input[0].duplicate(), tx.input[0]);
    assert_eq!(tx.output[0].duplicate(), tx.output[0]);
    assert_eq!(tx.input[0].previous_output.duplicate(), tx.input[0].previous_output);
}

#[test]
fn outpoints_are_the_same_when_both_parts_are() {
    let a = OutPoint { txid: [1; 32], vout: 0 };
    let mut other_txid = [1; 32];
    other_txid[31] = 2;
    assert!(a.same(&OutPoint { txid: [1; 32], vout: 0 }));
    assert!(!a.same(&OutPoint { txid: [1; 32], vout: 1 }));
    assert!(!a.same(&OutPoint { txid: other_txid, vout: 0 }));
    other_txid[31] = 1;
    other_txid[0] = 0;
    assert!(!a.same(&OutPoint { txid: other_txid, vout: 0 }));
}
