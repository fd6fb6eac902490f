use std::collections::HashMap;

use bdk::bitcoin::absolute::{Height, LockTime, Time};
use bdk::bitcoin::consensus::encode::serialize_hex;
use bdk::bitcoin::hashes::Hash as _;
use bdk::bitcoin::{ScriptBuf, Sequence, Txid, Witness};
use grouphug::oracle::{ChainOracle, OracleError, Unspent};
use grouphug::transaction::{OutPoint, Transaction, TxIn, TxOut};
use grouphug::validation::{
    after_amounts, after_origin, after_states, all_unspent, check_absolute_locktime,
    check_dust_limit, check_sighash_single_anyone_can_pay, check_structure, check_tx_version,
    decode_transaction, gather, get_num_inputs_and_outputs, get_previous_utxo_value,
    input_states, is_known, judge, previous_utxo_spent, previous_values, prior_output,
    script_to_ask, utxo_state, utxo_status, validate_transaction, validate_tx_query_one_to_one_single_anyone_can_pay,
    which_network, Answers, Rejection, UtxoState, LOCK_TIME_THRESHOLD, REQUIRED_VERSION,
    SIGHASH_SINGLE_ANYONECANPAY,
};

/// A chain kept in memory.
struct Chain {
    known: HashMap<[u8; 32], Transaction>,
    spent_scripts: Vec<Vec<u8>>,
    silent_scripts: Vec<Vec<u8>>,
    down: bool,
    asked: usize,
}

impl Chain {
    fn new() -> Chain {
        Chain {
            known: HashMap::new(),
            spent_scripts: Vec::new(),
            silent_scripts: Vec::new(),
            down: false,
            asked: 0,
        }
    }

    /// Puts a transaction with the given outputs on the chain, each on a
    /// script of its own.
    fn fund(&mut self, tag: u8, values: &[u64]) -> [u8; 32] {
        let mut output = Vec::new();
        for (i, value) in values.iter().enumerate() {
            output.push(TxOut { value: *value, script_pubkey: vec![tag, i as u8] });
        }
        self.known.insert(
            [tag; 32],
            Transaction { version: 2, lock_time: 0, input: Vec::new(), output },
        );
        [tag; 32]
    }
}

fn failure() -> OracleError {
    OracleError { reason: String::from("unreachable") }
}

impl ChainOracle for Chain {
    fn get_tx(&mut self, txid: &[u8; 32]) -> Result<Option<Transaction>, OracleError> {
        self.asked += 1;
        if self.down {
            return Err(failure());
        }
        Ok(self.known.get(txid).cloned())
    }

    fn list_unspent(&mut self, script_pubkey: &Vec<u8>) -> Result<Vec<Unspent>, OracleError> {
        self.asked += 1;
        if self.down || self.silent_scripts.contains(script_pubkey) {
            return Err(failure());
        }
        if self.spent_scripts.contains(script_pubkey) {
            return Ok(Vec::new());
        }
        Ok(vec![Unspent { outpoint: OutPoint { txid: [0; 32], vout: 0 }, value: 1, height: 0 }])
    }

    fn estimate_fee_next_block(&mut self) -> Result<i64, OracleError> {
        Err(failure())
    }

    fn broadcast(&mut self, _raw: &Vec<u8>) -> Result<[u8; 32], OracleError> {
        Err(failure())
    }
}

fn signature(last: u8) -> Vec<u8> {
    let mut bytes = vec![0x30; 70];
    bytes.push(last);
    bytes
}

fn input(prior: [u8; 32], vout: u32) -> bdk::bitcoin::TxIn {
    bdk::bitcoin::TxIn {
        previous_output: bdk::bitcoin::OutPoint::new(Txid::from_byte_array(prior), vout),
        script_sig: ScriptBuf::new(),
        sequence: Sequence::MAX,
        witness: Witness::from_slice(&[signature(0x83), vec![0x02; 33]]),
    }
}

fn output(value: u64) -> bdk::bitcoin::TxOut {
    bdk::bitcoin::TxOut { value, script_pubkey: ScriptBuf::from_bytes(vec![0x51]) }
}

/// One input that spends output 0 of the transaction with the given tag, and
/// one output.
fn simple(tag: u8, value: u64) -> bdk::bitcoin::Transaction {
    bdk::bitcoin::Transaction {
        version: 2,
        lock_time: LockTime::ZERO,
        input: vec![input([tag; 32], 0)],
        output: vec![output(value)],
    }
}

fn own(tx: &bdk::bitcoin::Transaction) -> Transaction {
    decode_transaction(&serialize_hex(tx)).unwrap()
}

fn validate(chain: &mut Chain, tx: &bdk::bitcoin::Transaction) -> Result<u64, Rejection> {
    validate_tx_query_one_to_one_single_anyone_can_pay(chain, &serialize_hex(tx), 1000)
}

#[test]
fn a_good_transaction_is_admitted_with_its_fee_rate() {
    let mut chain = Chain::new();
    let tx = simple(1, 50_000);
    let size = tx.vsize() as u64;
    chain.fund(1, &[50_000 + 3 * size]);
    assert_eq!(validate(&mut chain, &tx), Ok(3000));
    assert_eq!(validate_transaction(&mut chain, &own(&tx), 1000), Ok(3000));
}

#[test]
fn fee_is_summed_over_all_inputs() {
    let mut chain = Chain::new();
    chain.fund(1, &[30_000, 1]);
    chain.fund(2, &[1, 1, 40_000]);
    let tx = bdk::bitcoin::Transaction {
        version: 2,
        lock_time: LockTime::ZERO,
        input: vec![input([1; 32], 0), input([2; 32], 2)],
        output: vec![output(35_000), output(34_000)],
    };
    let size = tx.vsize() as u64;
    assert_eq!(validate(&mut chain, &tx), Ok(1000 * 1000 / size));
}

#[test]
fn text_that_is_not_hexadecimal_is_rejected() {
    let mut chain = Chain::new();
    for text in ["zz", "123", "0x00", "add_tx"] {
        assert_eq!(
            validate_tx_query_one_to_one_single_anyone_can_pay(&mut chain, text, 1000),
            Err(Rejection::HexDecode)
        );
        assert_eq!(decode_transaction(text), Err(Rejection::HexDecode));
    }
    assert_eq!(chain.asked, 0);
}

#[test]
fn bytes_that_are_no_transaction_are_rejected() {
    let mut chain = Chain::new();
    for text in ["", "00", "0200000001"] {
        assert_eq!(
            validate_tx_query_one_to_one_single_anyone_can_pay(&mut chain, text, 1000),
            Err(Rejection::Deserialize)
        );
        assert_eq!(decode_transaction(text), Err(Rejection::Deserialize));
    }
    assert_eq!(chain.asked, 0);
}

#[test]
fn network_rejection() {
    let mut chain = Chain::new();
    chain.fund(2, &[60_000]);
    // Nothing on the chain has the first input's origin.
    let tx = simple(1, 50_000);
    assert_eq!(validate(&mut chain, &tx), Err(Rejection::WrongNetwork));
    assert!(!which_network(&mut chain, &own(&tx)));
    assert!(which_network(&mut chain, &own(&simple(2, 50_000))));
    // It is the first input that counts.
    let mut two = simple(1, 50_000);
    two.input.push(input([2; 32], 0));
    two.output.push(output(1000));
    assert_eq!(validate(&mut chain, &two), Err(Rejection::WrongNetwork));
}

#[test]
fn a_chain_that_does_not_answer_rejects() {
    let mut chain = Chain::new();
    let tx = simple(1, 50_000);
    chain.fund(1, &[60_000]);
    chain.down = true;
    assert_eq!(validate(&mut chain, &tx), Err(Rejection::WrongNetwork));
    assert!(!which_network(&mut chain, &own(&tx)));
}

#[test]
fn a_transaction_without_inputs_comes_from_nowhere() {
    let mut chain = Chain::new();
    let tx = Transaction { version: 2, lock_time: 0, input: Vec::new(), output: Vec::new() };
    assert!(!which_network(&mut chain, &tx));
    assert_eq!(validate_transaction(&mut chain, &tx, 1000), Err(Rejection::WrongNetwork));
    assert_eq!(chain.asked, 0);
}

#[test]
fn counts_have_to_be_equal() {
    let mut chain = Chain::new();
    chain.fund(1, &[60_000]);
    let mut tx = simple(1, 50_000);
    tx.output.push(output(2000));
    assert_eq!(validate(&mut chain, &tx), Err(Rejection::UnequalCounts { inputs: 1, outputs: 2 }));
    assert_eq!(get_num_inputs_and_outputs(&own(&tx)), (1, 2));
    tx.output.clear();
    assert_eq!(validate(&mut chain, &tx), Err(Rejection::UnequalCounts { inputs: 1, outputs: 0 }));
    assert_eq!(get_num_inputs_and_outputs(&own(&tx)), (1, 0));
}

#[test]
fn lock_time_has_to_be_inactive() {
    let mut chain = Chain::new();
    chain.fund(1, &[60_000]);
    let mut tx = simple(1, 50_000);
    tx.lock_time = LockTime::from_consensus(5);
    tx.input[0].sequence = Sequence(0);
    assert_eq!(validate(&mut chain, &tx), Err(Rejection::LockTime));
    assert!(!check_absolute_locktime(&own(&tx)));
    // With every sequence final the lock time does not count.
    tx.input[0].sequence = Sequence::MAX;
    assert!(check_absolute_locktime(&own(&tx)));
    assert!(validate(&mut chain, &tx).is_ok());
}

#[test]
fn lock_time_agrees_with_the_bitcoin_crate() {
    assert_eq!(LOCK_TIME_THRESHOLD, 500_000_000);
    let times = [0, 1, 499_999_999, 500_000_000, 500_000_001, 1_700_000_000, u32::MAX];
    let sequences = [0, 1, 0xffff_fffd, 0xffff_fffe, 0xffff_ffff];
    for lock_time in times {
        for first in sequences {
            for second in sequences {
                let mut tx = simple(1, 50_000);
                tx.lock_time = LockTime::from_consensus(lock_time);
                tx.input[0].sequence = Sequence(first);
                tx.input.push(input([2; 32], 0));
                tx.input[1].sequence = Sequence(second);
                let expected = tx.is_absolute_timelock_satisfied(Height::MIN, Time::MIN);
                assert_eq!(check_absolute_locktime(&own(&tx)), expected);
                let inactive = lock_time == 0 || lock_time == 500_000_000
                    || (first == u32::MAX && second == u32::MAX);
                assert_eq!(expected, inactive);
            }
        }
    }
    let mut none = simple(1, 50_000);
    none.lock_time = LockTime::from_consensus(77);
    none.input.clear();
    assert!(none.is_absolute_timelock_satisfied(Height::MIN, Time::MIN));
    let empty = Transaction { version: 2, lock_time: 77, input: Vec::new(), output: Vec::new() };
    assert!(check_absolute_locktime(&empty));
}

#[test]
fn outputs_have_to_reach_the_dust_limit() {
    let mut chain = Chain::new();
    chain.fund(1, &[60_000]);
    let tx = simple(1, 999);
    assert_eq!(validate(&mut chain, &tx), Err(Rejection::Dust { limit: 1000 }));
    assert!(!check_dust_limit(&own(&tx), 1000));
    assert!(check_dust_limit(&own(&tx), 999));
    assert!(check_dust_limit(&own(&simple(1, 1000)), 1000));
    assert!(check_dust_limit(&own(&tx), 0));
    let empty = Transaction { version: 2, lock_time: 0, input: Vec::new(), output: Vec::new() };
    assert!(check_dust_limit(&empty, u64::MAX));
    // Every output counts.
    let mut two = simple(1, 5000);
    two.output.push(output(10));
    assert!(!check_dust_limit(&own(&two), 1000));
}

#[test]
fn version_has_to_be_two() {
    assert_eq!(REQUIRED_VERSION, 2);
    let mut chain = Chain::new();
    chain.fund(1, &[60_000]);
    for version in [1, 0, 3, -2, i32::MAX] {
        let mut tx = simple(1, 50_000);
        tx.version = version;
        assert_eq!(validate(&mut chain, &tx), Err(Rejection::Version));
        assert!(!check_tx_version(&own(&tx)));
    }
    assert!(check_tx_version(&own(&simple(1, 50_000))));
}

#[test]
fn the_first_broken_rule_decides() {
    let mut chain = Chain::new();
    chain.fund(1, &[60_000]);
    // Too many outputs, a lock time, dust, and the wrong version.
    let mut tx = simple(1, 10);
    tx.version = 1;
    tx.lock_time = LockTime::from_consensus(9);
    tx.input[0].sequence = Sequence(0);
    tx.input[0].witness = Witness::new();
    tx.output.push(output(10));
    assert_eq!(
        check_structure(&own(&tx), 1000),
        Some(Rejection::UnequalCounts { inputs: 1, outputs: 2 })
    );
    tx.output.pop();
    assert_eq!(check_structure(&own(&tx), 1000), Some(Rejection::LockTime));
    assert_eq!(validate(&mut chain, &tx), Err(Rejection::LockTime));
    tx.lock_time = LockTime::ZERO;
    assert_eq!(check_structure(&own(&tx), 1000), Some(Rejection::Dust { limit: 1000 }));
    tx.output[0].value = 50_000;
    assert_eq!(check_structure(&own(&tx), 1000), Some(Rejection::Version));
    assert_eq!(validate(&mut chain, &tx), Err(Rejection::Version));
    tx.version = 2;
    assert_eq!(check_structure(&own(&tx), 1000), None);
    // The fee is looked at before the signature.
    assert_eq!(validate(&mut chain, &tx), Err(Rejection::Sighash));
    tx.output[0].value = 60_000;
    assert_eq!(validate(&mut chain, &tx), Err(Rejection::FeeTooLow { fee_rate: 0 }));
    // And the origin of the first input before everything else.
    tx.version = 1;
    tx.input[0].previous_output.txid = Txid::from_byte_array([9; 32]);
    assert_eq!(validate(&mut chain, &tx), Err(Rejection::WrongNetwork));
}

#[test]
fn every_input_needs_an_amount() {
    let mut chain = Chain::new();
    chain.fund(1, &[60_000, 0]);
    // The second input comes from a transaction that the chain does not know.
    let mut tx = simple(1, 50_000);
    tx.input.push(input([2; 32], 0));
    tx.output.push(output(1000));
    assert_eq!(validate(&mut chain, &tx), Err(Rejection::PriorValue));
    // An output that does not exist.
    tx.input[1] = input([1; 32], 2);
    assert_eq!(validate(&mut chain, &tx), Err(Rejection::PriorValue));
    // An output that holds nothing.
    tx.input[1] = input([1; 32], 1);
    assert_eq!(validate(&mut chain, &tx), Err(Rejection::PriorValue));
}

#[test]
fn amounts_are_read_from_the_answer() {
    let mut chain = Chain::new();
    chain.fund(1, &[60_000, 0, 7]);
    let found = Ok(Some(chain.known[&[1u8; 32]].clone()));
    assert_eq!(get_previous_utxo_value(&found, 0), 60_000);
    assert_eq!(get_previous_utxo_value(&found, 1), 0);
    assert_eq!(get_previous_utxo_value(&found, 2), 7);
    assert_eq!(get_previous_utxo_value(&found, 3), 0);
    assert_eq!(get_previous_utxo_value(&found, u32::MAX), 0);
    assert_eq!(prior_output(&found, 2), Some(&TxOut { value: 7, script_pubkey: vec![1, 2] }));
    assert_eq!(prior_output(&found, 3), None);
    assert!(is_known(&found));
    assert_eq!(get_previous_utxo_value(&Ok(None), 0), 0);
    assert_eq!(prior_output(&Ok(None), 0), None);
    assert!(!is_known(&Ok(None)));
    assert_eq!(get_previous_utxo_value(&Err(failure()), 0), 0);
    assert_eq!(prior_output(&Err(failure()), 0), None);
    assert!(!is_known(&Err(failure())));

    // And so through the chain, input by input.
    let mut tx = simple(1, 50_000);
    tx.input.push(input([1; 32], 2));
    assert_eq!(previous_values(&mut chain, &own(&tx)), vec![60_000, 7]);
    tx.input[1] = input([2; 32], 0);
    assert_eq!(previous_values(&mut chain, &own(&tx)), vec![60_000, 0]);
    chain.down = true;
    assert_eq!(previous_values(&mut chain, &own(&tx)), vec![0]);
}

#[test]
fn the_script_to_ask_about_is_that_of_the_output() {
    let mut chain = Chain::new();
    chain.fund(1, &[60_000, 0, 7]);
    let found = Ok(Some(chain.known[&[1u8; 32]].clone()));
    assert_eq!(script_to_ask(&found, 0), Ok(&vec![1u8, 0]));
    assert_eq!(script_to_ask(&found, 2), Ok(&vec![1u8, 2]));
    // No such output, no such transaction, no answer: the state stays unknown.
    assert_eq!(script_to_ask(&found, 3), Err(UtxoState::Unknown));
    assert_eq!(script_to_ask(&Ok(None), 0), Err(UtxoState::Unknown));
    assert_eq!(script_to_ask(&Err(failure()), 0), Err(UtxoState::Unknown));
    // A chain that does not know the transaction never makes an output spent.
    assert_eq!(utxo_status(&mut chain, &OutPoint { txid: [9; 32], vout: 0 }), UtxoState::Unknown);
    assert_eq!(utxo_status(&mut chain, &OutPoint { txid: [1; 32], vout: 3 }), UtxoState::Unknown);
}

#[test]
fn the_codec_holds_what_it_decoded() {
    let tx = own(&simple(1, 50_000));
    assert!(tx.fits_encoding());
    assert!(tx.input[0].witness_fits());
    let mut bare = tx.clone();
    bare.input[0].witness = Vec::new();
    assert!(bare.input[0].witness_fits());
    assert!(bare.fits_encoding());
    let empty = Transaction { version: 2, lock_time: 0, input: Vec::new(), output: Vec::new() };
    assert!(empty.fits_encoding());
    // Many small items count with 9 bytes each besides their own.
    let mut wide = tx.clone();
    wide.input[0].witness = vec![vec![0u8; 91]; 1_000_000];
    assert!(wide.input[0].witness_fits());
    assert!(wide.fits_encoding());
}

#[test]
fn the_fee_rate_has_to_exceed_the_minimum() {
    let mut chain = Chain::new();
    let tx = simple(1, 50_000);
    let size = tx.vsize() as u64;
    chain.fund(1, &[50_000 + size]);
    assert_eq!(validate(&mut chain, &tx), Err(Rejection::FeeTooLow { fee_rate: 1000 }));
    chain.fund(1, &[50_000]);
    assert_eq!(validate(&mut chain, &tx), Err(Rejection::FeeTooLow { fee_rate: 0 }));
    // More handed on than taken.
    chain.fund(1, &[40_000]);
    assert_eq!(validate(&mut chain, &tx), Err(Rejection::FeeTooLow { fee_rate: 0 }));
    chain.fund(1, &[50_000 + size + size / 50]);
    assert_eq!(validate(&mut chain, &tx), Ok((size + size / 50) * 1000 / size));
}

#[test]
fn every_input_has_to_be_signed_for_itself_alone() {
    assert_eq!(SIGHASH_SINGLE_ANYONECANPAY, 131);
    let mut chain = Chain::new();
    chain.fund(1, &[60_000]);
    let mut tx = simple(1, 50_000);
    assert!(check_sighash_single_anyone_can_pay(&own(&tx)));
    for last in [0x01, 0x03, 0x81, 0x82, 0x00, 0xff] {
        tx.input[0].witness = Witness::from_slice(&[signature(last), vec![0x02; 33]]);
        assert_eq!(validate(&mut chain, &tx), Err(Rejection::Sighash));
        assert!(!check_sighash_single_anyone_can_pay(&own(&tx)));
    }
    // It is the first item that is looked at.
    tx.input[0].witness = Witness::from_slice(&[vec![0x02; 33], signature(0x83)]);
    assert!(!check_sighash_single_anyone_can_pay(&own(&tx)));
    // One item, three items, none.
    tx.input[0].witness = Witness::from_slice(&[signature(0x83)]);
    assert!(!check_sighash_single_anyone_can_pay(&own(&tx)));
    tx.input[0].witness = Witness::from_slice(&[signature(0x83), vec![0x02; 33], vec![1]]);
    assert!(!check_sighash_single_anyone_can_pay(&own(&tx)));
    tx.input[0].witness = Witness::new();
    assert_eq!(validate(&mut chain, &tx), Err(Rejection::Sighash));
    // An empty signature.
    tx.input[0].witness = Witness::from_slice(&[Vec::new(), vec![0x02; 33]]);
    assert!(!check_sighash_single_anyone_can_pay(&own(&tx)));
    // A signature of the one byte.
    tx.input[0].witness = Witness::from_slice(&[vec![0x83], vec![0x02; 33]]);
    assert!(check_sighash_single_anyone_can_pay(&own(&tx)));
    // Every input counts.
    tx.input.push(input([1; 32], 0));
    assert!(check_sighash_single_anyone_can_pay(&own(&tx)));
    tx.input[1].witness = Witness::from_slice(&[signature(0x01), vec![0x02; 33]]);
    assert!(!check_sighash_single_anyone_can_pay(&own(&tx)));
    // Without inputs nothing is signed wrongly.
    let empty = Transaction { version: 2, lock_time: 0, input: Vec::new(), output: Vec::new() };
    assert!(check_sighash_single_anyone_can_pay(&empty));
}

#[test]
fn every_input_has_to_be_unspent() {
    let mut chain = Chain::new();
    chain.fund(1, &[60_000, 60_000]);
    let mut tx = simple(1, 50_000);
    tx.input.push(input([1; 32], 1));
    tx.output.push(output(50_000));
    assert!(validate(&mut chain, &tx).is_ok());
    assert!(previous_utxo_spent(&mut chain, &own(&tx)));

    chain.spent_scripts.push(vec![1, 1]);
    assert_eq!(validate(&mut chain, &tx), Err(Rejection::Spent));
    assert!(!previous_utxo_spent(&mut chain, &own(&tx)));
    assert_eq!(utxo_status(&mut chain, &OutPoint { txid: [1; 32], vout: 0 }), UtxoState::Unspent);
    assert_eq!(utxo_status(&mut chain, &OutPoint { txid: [1; 32], vout: 1 }), UtxoState::Spent);

    chain.spent_scripts.clear();
    chain.silent_scripts.push(vec![1, 0]);
    assert_eq!(validate(&mut chain, &tx), Err(Rejection::Spent));
    assert_eq!(utxo_status(&mut chain, &OutPoint { txid: [1; 32], vout: 0 }), UtxoState::Unknown);
    assert_eq!(utxo_status(&mut chain, &OutPoint { txid: [1; 32], vout: 2 }), UtxoState::Unknown);
    assert_eq!(utxo_status(&mut chain, &OutPoint { txid: [3; 32], vout: 0 }), UtxoState::Unknown);
}

#[test]
fn the_state_of_an_output_is_read_from_the_answer() {
    let one = Unspent { outpoint: OutPoint { txid: [0; 32], vout: 0 }, value: 1, height: 0 };
    assert_eq!(utxo_state(&Ok(vec![one.clone()])), UtxoState::Unspent);
    assert_eq!(utxo_state(&Ok(vec![one.clone(), one])), UtxoState::Unspent);
    assert_eq!(utxo_state(&Ok(Vec::new())), UtxoState::Spent);
    assert_eq!(utxo_state(&Err(failure())), UtxoState::Unknown);
}

#[test]
fn rejections_say_why() {
    let said = |r: Rejection| r.message("testnet");
    assert_eq!(said(Rejection::HexDecode), "Error decoding hex");
    assert_eq!(said(Rejection::Deserialize), "Error deserializing transaction");
    assert_eq!(said(Rejection::WrongNetwork), "The tx you provided is not from testnet network");
    assert_eq!(
        Rejection::WrongNetwork.message("mainnet"),
        "The tx you provided is not from mainnet network"
    );
    assert_eq!(
        said(Rejection::UnequalCounts { inputs: 1, outputs: 20 }),
        "Number of inputs and outputs must be equal. Inputs = 1 | Outputs = 20"
    );
    assert_eq!(said(Rejection::LockTime), "Absolute locktime is not 0");
    assert_eq!(
        said(Rejection::Dust { limit: 1000 }),
        "The transaction value is under the dust limit 1000"
    );
    assert_eq!(said(Rejection::Version), "Tx version is not 2");
    assert_eq!(said(Rejection::PriorValue), "There's an error loading the previous utxo value");
    assert_eq!(
        said(Rejection::FeeTooLow { fee_rate: 500 }),
        "Fee bellow 1 sat/vB. Fee rate found 0.5sat/vB"
    );
    assert_eq!(
        said(Rejection::FeeTooLow { fee_rate: 1010 }),
        "Fee bellow 1 sat/vB. Fee rate found 1.01sat/vB"
    );
    assert_eq!(
        said(Rejection::FeeTooLow { fee_rate: 0 }),
        "Fee bellow 1 sat/vB. Fee rate found 0sat/vB"
    );
    assert_eq!(said(Rejection::Sighash), "Wrong sighash used");
    assert_eq!(said(Rejection::Spent), "Double spending detected");
    assert_eq!(said(Rejection::AlreadyInGroup), "Transaction input is already in a group");
}

#[test]
fn inputs_are_plain_data() {
    let tx = own(&simple(1, 50_000));
    assert_eq!(
        tx.input[0],
        TxIn {
            previous_output: OutPoint { txid: [1; 32], vout: 0 },
            script_sig: Vec::new(),
            sequence: 0xffff_ffff,
            witness: vec![signature(0x83), vec![0x02; 33]],
        }
    );
}

/// Version 2, one input that spends output 0 of `[0x11; 32]`, two outputs of
/// 1000 satoshis with empty scripts, lock time 0.
const ONE_IN_TWO_OUT: &str = "020000000111111111111111111111111111111111111111111111111111111111111111110000000000ffffffff02e80300000000000000e8030000000000000000000000";

#[test]
fn the_origin_is_judged_before_the_counts() {
    let tx = decode_transaction(ONE_IN_TWO_OUT).unwrap();
    assert_eq!(get_num_inputs_and_outputs(&tx), (1, 2));
    assert_eq!(after_origin(&tx, 1000, false), Some(Rejection::WrongNetwork));
    assert_eq!(
        after_origin(&tx, 1000, true),
        Some(Rejection::UnequalCounts { inputs: 1, outputs: 2 })
    );
    assert_eq!(judge(&tx, 1000, false, &vec![5000], true), Err(Rejection::WrongNetwork));
    assert_eq!(
        judge(&tx, 1000, true, &vec![5000], true),
        Err(Rejection::UnequalCounts { inputs: 1, outputs: 2 })
    );
    // And so it is with a chain that knows nothing.
    let mut chain = Chain::new();
    let said = validate_tx_query_one_to_one_single_anyone_can_pay(&mut chain, ONE_IN_TWO_OUT, 1000);
    assert_eq!(said, Err(Rejection::WrongNetwork));
    assert_eq!(
        said.unwrap_err().message("testnet"),
        "The tx you provided is not from testnet network"
    );
    // It was asked once, for the origin.
    assert_eq!(chain.asked, 1);
}

#[test]
fn a_transaction_that_meets_every_rule_is_judged_fit() {
    let tx = simple(1, 50_000);
    let size = tx.vsize() as u64;
    let tx = own(&tx);
    assert_eq!(judge(&tx, 1000, true, &vec![50_000 + 3 * size], true), Ok(3000));
    assert_eq!(judge(&tx, 50_000, true, &vec![50_000 + 3 * size], true), Ok(3000));
    assert_eq!(after_origin(&tx, 1000, true), None);
    assert_eq!(after_amounts(&tx, &vec![50_000 + 3 * size]), Ok(3000));
    assert_eq!(after_states(3000, true), Ok(3000));
}

#[test]
fn the_rate_is_what_the_inputs_spend_less_what_the_outputs_hold() {
    let mut tx = simple(1, 35_000);
    tx.input.push(input([2; 32], 2));
    tx.output.push(output(34_000));
    let size = tx.vsize() as u64;
    let tx = own(&tx);
    assert_eq!(after_amounts(&tx, &vec![30_000, 40_000]), Ok(1_000_000 / size));
    assert_eq!(after_amounts(&tx, &vec![40_000, 30_000]), Ok(1_000_000 / size));
    assert_eq!(after_amounts(&tx, &vec![69_000 + 2 * size, 1]), Ok(2000 + 1000 / size));
    assert_eq!(judge(&tx, 1000, true, &vec![30_000, 40_000], true), Ok(1_000_000 / size));
}

#[test]
fn a_rate_at_the_minimum_is_judged_too_low() {
    let tx = simple(1, 50_000);
    let size = tx.vsize() as u64;
    let tx = own(&tx);
    // Exactly 1 satoshi per virtual byte.
    assert_eq!(
        judge(&tx, 1000, true, &vec![50_000 + size], true),
        Err(Rejection::FeeTooLow { fee_rate: 1000 })
    );
    // Exactly 1.01: 101 satoshis on 100 bytes would be; here the nearest below and above.
    let at = 50_000 + (1010 * size) / 1000;
    assert_eq!(
        after_amounts(&tx, &vec![at]),
        Err(Rejection::FeeTooLow { fee_rate: (1010 * size / 1000) * 1000 / size })
    );
    assert_eq!(after_amounts(&tx, &vec![at + 1]), Ok((1010 * size / 1000 + 1) * 1000 / size));
    assert_eq!(after_amounts(&tx, &vec![50_000]), Err(Rejection::FeeTooLow { fee_rate: 0 }));
    assert_eq!(after_amounts(&tx, &vec![1]), Err(Rejection::FeeTooLow { fee_rate: 0 }));
}

#[test]
fn rules_are_judged_in_their_order() {
    // Breaks every rule at once.
    let mut tx = simple(1, 10);
    tx.version = 1;
    tx.lock_time = LockTime::from_consensus(9);
    tx.input[0].sequence = Sequence(0);
    tx.input[0].witness = Witness::new();
    tx.output.push(output(10));
    let broken = own(&tx);
    assert_eq!(judge(&broken, 1000, false, &vec![0], false), Err(Rejection::WrongNetwork));
    assert_eq!(
        judge(&broken, 1000, true, &vec![0], false),
        Err(Rejection::UnequalCounts { inputs: 1, outputs: 2 })
    );
    tx.output.pop();
    assert_eq!(judge(&own(&tx), 1000, true, &vec![0], false), Err(Rejection::LockTime));
    tx.lock_time = LockTime::ZERO;
    assert_eq!(judge(&own(&tx), 1000, true, &vec![0], false), Err(Rejection::Dust { limit: 1000 }));
    tx.output[0].value = 50_000;
    assert_eq!(judge(&own(&tx), 1000, true, &vec![0], false), Err(Rejection::Version));
    tx.version = 2;
    assert_eq!(judge(&own(&tx), 1000, true, &vec![0], false), Err(Rejection::PriorValue));
    assert_eq!(judge(&own(&tx), 1000, true, &Vec::new(), false), Err(Rejection::PriorValue));
    assert_eq!(judge(&own(&tx), 1000, true, &vec![60_000, 1], false), Err(Rejection::PriorValue));
    assert_eq!(
        judge(&own(&tx), 1000, true, &vec![50_000], false),
        Err(Rejection::FeeTooLow { fee_rate: 0 })
    );
    assert_eq!(judge(&own(&tx), 1000, true, &vec![60_000], false), Err(Rejection::Sighash));
    tx.input[0].witness = Witness::from_slice(&[signature(0x83), vec![0x02; 33]]);
    let size = tx.vsize() as u64;
    assert_eq!(judge(&own(&tx), 1000, true, &vec![60_000], false), Err(Rejection::Spent));
    assert_eq!(after_states(7, false), Err(Rejection::Spent));
    assert_eq!(judge(&own(&tx), 1000, true, &vec![60_000], true), Ok(10_000_000 / size));
    // A transaction without inputs is not from the network, whatever the chain knows.
    let empty = Transaction { version: 2, lock_time: 0, input: Vec::new(), output: Vec::new() };
    assert_eq!(judge(&empty, 1000, true, &Vec::new(), true), Err(Rejection::WrongNetwork));
}

#[test]
fn inputs_are_unspent_when_each_has_that_state() {
    let u = UtxoState::Unspent;
    assert!(all_unspent(&vec![u, u, u], 3));
    assert!(all_unspent(&Vec::new(), 0));
    assert!(!all_unspent(&vec![u, u], 3));
    assert!(!all_unspent(&vec![u, u, u], 2));
    assert!(!all_unspent(&vec![u, UtxoState::Spent, u], 3));
    assert!(!all_unspent(&vec![u, u, UtxoState::Unknown], 3));
    assert!(!all_unspent(&vec![UtxoState::Spent], 1));
    assert!(!all_unspent(&Vec::new(), 1));
}

#[test]
fn the_chain_is_asked_up_to_the_first_answer_that_decides() {
    let mut chain = Chain::new();
    chain.fund(1, &[60_000, 0, 7]);
    let mut tx = simple(1, 50_000);
    tx.input.push(input([1; 32], 1));
    tx.input.push(input([1; 32], 2));
    let tx = own(&tx);
    assert_eq!(previous_values(&mut chain, &tx), vec![60_000, 0]);
    assert_eq!(chain.asked, 2);
    chain.fund(1, &[60_000, 5, 7]);
    assert_eq!(previous_values(&mut chain, &tx), vec![60_000, 5, 7]);

    chain.asked = 0;
    chain.spent_scripts.push(vec![1, 1]);
    assert_eq!(input_states(&mut chain, &tx), vec![UtxoState::Unspent, UtxoState::Spent]);
    assert_eq!(chain.asked, 4);
    assert!(!previous_utxo_spent(&mut chain, &tx));
    chain.spent_scripts.clear();
    assert_eq!(
        input_states(&mut chain, &tx),
        vec![UtxoState::Unspent, UtxoState::Unspent, UtxoState::Unspent]
    );
    assert!(previous_utxo_spent(&mut chain, &tx));
    chain.silent_scripts.push(vec![1, 0]);
    assert_eq!(input_states(&mut chain, &tx), vec![UtxoState::Unknown]);
    let empty = Transaction { version: 2, lock_time: 0, input: Vec::new(), output: Vec::new() };
    assert_eq!(input_states(&mut chain, &empty), Vec::new());
    assert_eq!(previous_values(&mut chain, &empty), Vec::<u64>::new());
    assert!(previous_utxo_spent(&mut chain, &empty));
}

#[test]
fn answers_are_gathered_as_far_as_the_rules_need_them() {
    let mut chain = Chain::new();
    let tx = simple(1, 50_000);
    let size = tx.vsize() as u64;

    // Unknown origin: one question.
    assert_eq!(
        gather(&mut chain, &own(&tx), 1000),
        Answers { known: false, priors: Vec::new(), unspent: false }
    );
    assert_eq!(chain.asked, 1);

    // Known, but the shape is wrong: still one question.
    chain.fund(1, &[50_000 + size]);
    chain.asked = 0;
    let mut old_version = tx.clone();
    old_version.version = 1;
    assert_eq!(
        gather(&mut chain, &own(&old_version), 1000),
        Answers { known: true, priors: Vec::new(), unspent: false }
    );
    assert_eq!(chain.asked, 1);

    // Too little fee: the amount is asked for, the state is not.
    chain.asked = 0;
    assert_eq!(
        gather(&mut chain, &own(&tx), 1000),
        Answers { known: true, priors: vec![50_000 + size], unspent: false }
    );
    assert_eq!(chain.asked, 2);

    // Enough fee: everything is asked for.
    chain.fund(1, &[50_000 + 2 * size]);
    chain.asked = 0;
    assert_eq!(
        gather(&mut chain, &own(&tx), 1000),
        Answers { known: true, priors: vec![50_000 + 2 * size], unspent: true }
    );
    assert_eq!(chain.asked, 4);
    chain.spent_scripts.push(vec![1, 0]);
    assert_eq!(
        gather(&mut chain, &own(&tx), 1000),
        Answers { known: true, priors: vec![50_000 + 2 * size], unspent: false }
    );
    assert_eq!(validate(&mut chain, &tx), Err(Rejection::Spent));
}
