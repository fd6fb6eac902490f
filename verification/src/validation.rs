//! The rules that a transaction meets before it joins a group.

use crate::fee::{effective_fee_rate, fee_rate_of, pays_minimum, total, total_bound, total_step};
use crate::hexstr::{decode_hex, hex_bytes, is_hex};
use crate::oracle::{ChainOracle, OracleError, Unspent};
use crate::text::{decimal, push_decimal, push_rate, rate_text};
use crate::transaction::{
    consensus_decoded, encodable, virtual_size, OutPoint, Transaction, TransactionView, TxInView,
    TxOut, SEQUENCE_FINAL,
};
use vstd::prelude::*;
use vstd::string::{StringExecFns, StringSliceAdditionalSpecFns};

verus! {

/// The last byte of a signature that commits to its own input and the output
/// beside it, and to nothing else.
pub const SIGHASH_SINGLE_ANYONECANPAY: u8 = 0x83;

/// The version that every admitted transaction has.
pub const REQUIRED_VERSION: i32 = 2;

/// Lock times below this number are block heights, the others are seconds.
pub const LOCK_TIME_THRESHOLD: u32 = 500_000_000;

/// Why a transaction was turned away.
#[derive(Clone, Copy, Debug, PartialEq, Eq, Structural)]
pub enum Rejection {
    /// The text is not hexadecimal.
    HexDecode,
    /// The bytes are not a transaction.
    Deserialize,
    /// The chain does not know where the first input comes from.
    WrongNetwork,
    /// There are not as many outputs as inputs.
    UnequalCounts { inputs: usize, outputs: usize },
    /// The lock time holds the transaction back.
    LockTime,
    /// An output is smaller than the dust limit.
    Dust { limit: u64 },
    /// The version is not 2.
    Version,
    /// The chain gave no amount for an input.
    PriorValue,
    /// The transaction does not pay more than the minimum fee rate.
    FeeTooLow { fee_rate: u64 },
    /// An input is not signed for itself and its output alone.
    Sighash,
    /// An input is spent already, or the chain could not tell.
    Spent,
    /// An input waits in a group already.
    AlreadyInGroup,
}

impl Rejection {
    /// The sentence that a client is told, `network` being the name of the
    /// chain that the server works on. Fee rates are in satoshis per
    /// virtual byte.
    pub open spec fn text(self, network: Seq<char>) -> Seq<char> {
        match self {
            Rejection::HexDecode => "Error decoding hex"@,
            Rejection::Deserialize => "Error deserializing transaction"@,
            Rejection::WrongNetwork => "The tx you provided is not from "@ + network + " network"@,
            Rejection::UnequalCounts { inputs, outputs } =>
                "Number of inputs and outputs must be equal. Inputs = "@ + decimal(inputs as nat)
                    + " | Outputs = "@ + decimal(outputs as nat),
            Rejection::LockTime => "Absolute locktime is not 0"@,
            Rejection::Dust { limit } => "The transaction value is under the dust limit "@
                + decimal(limit as nat),
            Rejection::Version => "Tx version is not 2"@,
            Rejection::PriorValue => "There's an error loading the previous utxo value"@,
            Rejection::FeeTooLow { fee_rate } => "Fee bellow 1 sat/vB. Fee rate found "@
                + rate_text(fee_rate as nat) + "sat/vB"@,
            Rejection::Sighash => "Wrong sighash used"@,
            Rejection::Spent => "Double spending detected"@,
            Rejection::AlreadyInGroup => "Transaction input is already in a group"@,
        }
    }

    /// Writes the sentence that a client is told.
    pub fn message(&self, network: &str) -> (text: String)
        ensures
            text@ == self.text(network@),
    {
        match self {
            Rejection::HexDecode => String::from_str("Error decoding hex"),
            Rejection::Deserialize => String::from_str("Error deserializing transaction"),
            Rejection::WrongNetwork => {
                let mut text = String::from_str("The tx you provided is not from ");
                text.append(network);
                text.append(" network");
                text
            },
            Rejection::UnequalCounts { inputs, outputs } => {
                let mut text = String::from_str(
                    "Number of inputs and outputs must be equal. Inputs = ",
                );
                push_decimal(&mut text, *inputs as u64);
                text.append(" | Outputs = ");
                push_decimal(&mut text, *outputs as u64);
                text
            },
            Rejection::LockTime => String::from_str("Absolute locktime is not 0"),
            Rejection::Dust { limit } => {
                let mut text = String::from_str("The transaction value is under the dust limit ");
                push_decimal(&mut text, *limit);
                text
            },
            Rejection::Version => String::from_str("Tx version is not 2"),
            Rejection::PriorValue => String::from_str(
                "There's an error loading the previous utxo value",
            ),
            Rejection::FeeTooLow { fee_rate } => {
                let mut text = String::from_str("Fee bellow 1 sat/vB. Fee rate found ");
                push_rate(&mut text, *fee_rate);
                text.append("sat/vB");
                text
            },
            Rejection::Sighash => String::from_str("Wrong sighash used"),
            Rejection::Spent => String::from_str("Double spending detected"),
            Rejection::AlreadyInGroup => String::from_str("Transaction input is already in a group"),
        }
    }
}

/// What the chain says of an output that an input wants to spend.
#[derive(Clone, Copy, Debug, PartialEq, Eq, Structural)]
pub enum UtxoState {
    /// Something that pays to its script is still unspent.
    Unspent,
    /// Nothing that pays to its script is left.
    Spent,
    /// The chain gave no answer, or does not hold the output.
    Unknown,
}

/// The amounts of the outputs, in order.
pub open spec fn output_values(tx: TransactionView) -> Seq<u64> {
    Seq::new(tx.output.len(), |i: int| tx.output[i].value)
}

/// Whether the lock time lets the transaction into a block at height 0 and
/// at the earliest time: no input switches the lock time on, or it is 0 or
/// the first of the values that mean a time.
pub open spec fn lock_time_inactive(tx: TransactionView) -> bool {
    ||| forall|i: int| 0 <= i < tx.input.len() ==> (#[trigger] tx.input[i]).sequence == SEQUENCE_FINAL
    ||| tx.lock_time == 0
    ||| tx.lock_time == LOCK_TIME_THRESHOLD
}

/// Whether every output holds at least `limit`.
pub open spec fn above_dust(tx: TransactionView, limit: u64) -> bool {
    forall|i: int| 0 <= i < tx.output.len() ==> (#[trigger] tx.output[i]).value >= limit
}

/// Whether the witness is a signature and a key, the signature ending in
/// [`SIGHASH_SINGLE_ANYONECANPAY`].
pub open spec fn signs_single_anyone_can_pay(input: TxInView) -> bool {
    &&& input.witness.len() == 2
    &&& input.witness[0].len() > 0
    &&& input.witness[0].last() == SIGHASH_SINGLE_ANYONECANPAY
}

/// Whether every input is signed for itself and its output alone.
pub open spec fn all_sign_single_anyone_can_pay(tx: TransactionView) -> bool {
    forall|i: int| 0 <= i < tx.input.len() ==> signs_single_anyone_can_pay(#[trigger] tx.input[i])
}

/// The first of the rules on the transaction's own shape that it breaks:
/// as many outputs as inputs, an inactive lock time, no output under the
/// dust limit, version 2.
pub open spec fn structural_rejection(tx: TransactionView, dust_limit: u64) -> Option<Rejection> {
    if tx.input.len() != tx.output.len() {
        Some(
            Rejection::UnequalCounts {
                inputs: tx.input.len() as usize,
                outputs: tx.output.len() as usize,
            },
        )
    } else if !lock_time_inactive(tx) {
        Some(Rejection::LockTime)
    } else if !above_dust(tx, dust_limit) {
        Some(Rejection::Dust { limit: dust_limit })
    } else if tx.version != REQUIRED_VERSION {
        Some(Rejection::Version)
    } else {
        None
    }
}

/// The transaction that a hexadecimal text holds.
pub open spec fn decoded(text: Seq<u8>) -> Result<TransactionView, Rejection> {
    if !is_hex(text) {
        Err(Rejection::HexDecode)
    } else {
        match consensus_decoded(hex_bytes(text)) {
            Some(tx) => Ok(tx),
            None => Err(Rejection::Deserialize),
        }
    }
}

/// What is made of a transaction once the chain has said whether it knows
/// the origin of the first input: a transaction without inputs, or of
/// unknown origin, is not from the network; after that the rules on the
/// transaction's own shape decide.
pub open spec fn origin_rejection(tx: TransactionView, dust_limit: u64, known: bool) -> Option<
    Rejection,
> {
    if tx.input.len() == 0 || !known {
        Some(Rejection::WrongNetwork)
    } else {
        structural_rejection(tx, dust_limit)
    }
}

/// What is made of a transaction once the chain has given the amounts that
/// its inputs spend (`priors`, in the order of the inputs, 0 for none).
/// Every input needs an amount. Then the fee, which is what the inputs spend
/// less what the outputs hold, has to pay more than the minimum for the
/// virtual size. Then every input has to be signed for itself and its output
/// alone. A transaction that passes has the fee rate that comes back.
pub open spec fn amounts_verdict(tx: TransactionView, priors: Seq<u64>) -> Result<u64, Rejection> {
    let total_in = total(priors);
    let total_out = total(output_values(tx));
    let size = virtual_size(tx);
    if priors.len() != tx.input.len() || priors.contains(0) {
        Err(Rejection::PriorValue)
    } else if !pays_minimum(total_in, total_out, size) {
        Err(Rejection::FeeTooLow { fee_rate: fee_rate_of(total_in, total_out, size) })
    } else if !all_sign_single_anyone_can_pay(tx) {
        Err(Rejection::Sighash)
    } else {
        Ok(fee_rate_of(total_in, total_out, size))
    }
}

/// Whether every one of `inputs` inputs has a state, and that state is
/// unspent.
pub open spec fn every_unspent(states: Seq<UtxoState>, inputs: nat) -> bool {
    &&& states.len() == inputs
    &&& forall|i: int| 0 <= i < states.len() ==> #[trigger] states[i] == UtxoState::Unspent
}

/// What is made of a transaction that passed so far, once the chain has said
/// whether every input is unspent.
pub open spec fn states_verdict(fee_rate: u64, unspent: bool) -> Result<u64, Rejection> {
    if unspent {
        Ok(fee_rate)
    } else {
        Err(Rejection::Spent)
    }
}

/// What the rules make of a transaction, given what the chain answered:
/// whether it knows the origin of the first input (`known`), the amount it
/// gave for each input (`priors`, 0 for none), and whether it found every
/// input unspent (`unspent`). The rules apply in this order, and the first
/// that fails decides: origin, counts, lock time, dust, version, amounts,
/// fee, signatures, unspent. A transaction that passes them all is admitted
/// with its fee rate.
pub open spec fn verdict(
    tx: TransactionView,
    dust_limit: u64,
    known: bool,
    priors: Seq<u64>,
    unspent: bool,
) -> Result<u64, Rejection> {
    match origin_rejection(tx, dust_limit, known) {
        Some(rejection) => Err(rejection),
        None => match amounts_verdict(tx, priors) {
            Err(rejection) => Err(rejection),
            Ok(fee_rate) => states_verdict(fee_rate, unspent),
        },
    }
}

/// Whether `r` is what the rules make of the transaction for some answers of
/// the chain.
pub open spec fn is_verdict(tx: TransactionView, dust_limit: u64, r: Result<u64, Rejection>) -> bool {
    exists|known: bool, priors: Seq<u64>, unspent: bool|
        r == #[trigger] verdict(tx, dust_limit, known, priors, unspent)
}

/// A transaction whose first input comes from a transaction that the chain
/// does not know is rejected as not from the network, whatever else holds
/// of it.
pub proof fn unknown_origin_is_rejected(
    tx: TransactionView,
    dust_limit: u64,
    priors: Seq<u64>,
    unspent: bool,
)
    ensures
        verdict(tx, dust_limit, false, priors, unspent) == Err::<u64, Rejection>(
            Rejection::WrongNetwork,
        ),
{
}

/// A transaction is admitted exactly when it has an input, as many outputs
/// as inputs, an inactive lock time, no output under the dust limit,
/// version 2, and every input signed for itself and its output alone; the
/// chain knew the origin of its first input, gave an amount for every input
/// and found them all unspent; and it pays more than the minimum fee rate.
/// It is admitted with the fee rate of those amounts.
pub proof fn admitted_meets_every_rule(
    tx: TransactionView,
    dust_limit: u64,
    known: bool,
    priors: Seq<u64>,
    unspent: bool,
)
    ensures
        verdict(tx, dust_limit, known, priors, unspent) is Ok <==> {
            &&& tx.input.len() > 0
            &&& tx.input.len() == tx.output.len()
            &&& lock_time_inactive(tx)
            &&& above_dust(tx, dust_limit)
            &&& tx.version == REQUIRED_VERSION
            &&& all_sign_single_anyone_can_pay(tx)
            &&& known
            &&& priors.len() == tx.input.len()
            &&& !priors.contains(0)
            &&& unspent
            &&& pays_minimum(total(priors), total(output_values(tx)), virtual_size(tx))
        },
        verdict(tx, dust_limit, known, priors, unspent) is Ok ==> verdict(
            tx,
            dust_limit,
            known,
            priors,
            unspent,
        ) == Ok::<u64, Rejection>(
            fee_rate_of(total(priors), total(output_values(tx)), virtual_size(tx)),
        ),
{
}

/// Reads a transaction from hexadecimal text.
pub fn decode_transaction(tx_hex: &str) -> (r: Result<Transaction, Rejection>)
    ensures
        match decoded(tx_hex.spec_bytes()) {
            Ok(tx) => r is Ok && r->Ok_0@ == tx && encodable(tx),
            Err(e) => r == Err::<Transaction, Rejection>(e),
        },
{
    match decode_hex(tx_hex) {
        None => Err(Rejection::HexDecode),
        Some(bytes) => match Transaction::decode(&bytes) {
            None => Err(Rejection::Deserialize),
            Some(tx) => Ok(tx),
        },
    }
}

/// The number of inputs and the number of outputs.
pub fn get_num_inputs_and_outputs(tx: &Transaction) -> (n: (usize, usize))
    ensures
        n.0 == tx@.input.len(),
        n.1 == tx@.output.len(),
{
    (tx.input.len(), tx.output.len())
}

/// Whether the lock time is inactive.
pub fn check_absolute_locktime(tx: &Transaction) -> (b: bool)
    ensures
        b == lock_time_inactive(tx@),
{
    if tx.lock_time == 0 || tx.lock_time == LOCK_TIME_THRESHOLD {
        return true;
    }
    let mut i: usize = 0;
    while i < tx.input.len()
        invariant
            i <= tx.input.len(),
            tx.lock_time != 0,
            tx.lock_time != LOCK_TIME_THRESHOLD,
            forall|j: int| 0 <= j < i ==> (#[trigger] tx@.input[j]).sequence == SEQUENCE_FINAL,
        decreases tx.input.len() - i,
    {
        if tx.input[i].sequence != SEQUENCE_FINAL {
            assert(tx@.input[i as int].sequence != SEQUENCE_FINAL);
            return false;
        }
        i += 1;
    }
    true
}

/// Whether every output holds at least the dust limit.
pub fn check_dust_limit(tx: &Transaction, limit: u64) -> (b: bool)
    ensures
        b == above_dust(tx@, limit),
{
    let mut i: usize = 0;
    while i < tx.output.len()
        invariant
            i <= tx.output.len(),
            forall|j: int| 0 <= j < i ==> (#[trigger] tx@.output[j]).value >= limit,
        decreases tx.output.len() - i,
    {
        if tx.output[i].value < limit {
            assert(tx@.output[i as int].value < limit);
            return false;
        }
        i += 1;
    }
    true
}

/// Whether the version is 2.
pub fn check_tx_version(tx: &Transaction) -> (b: bool)
    ensures
        b == (tx@.version == REQUIRED_VERSION),
{
    tx.version == REQUIRED_VERSION
}

/// Whether every input is signed for itself and its output alone.
pub fn check_sighash_single_anyone_can_pay(tx: &Transaction) -> (b: bool)
    ensures
        b == all_sign_single_anyone_can_pay(tx@),
{
    let mut i: usize = 0;
    while i < tx.input.len()
        invariant
            i <= tx.input.len(),
            forall|j: int| 0 <= j < i ==> signs_single_anyone_can_pay(#[trigger] tx@.input[j]),
        decreases tx.input.len() - i,
    {
        let witness = &tx.input[i].witness;
        let ghost this = tx@.input[i as int];
        if witness.len() != 2 {
            assert(!signs_single_anyone_can_pay(this));
            return false;
        }
        let signature = &witness[0];
        assert(this.witness[0] == signature@);
        if signature.len() == 0 || signature[signature.len() - 1] != SIGHASH_SINGLE_ANYONECANPAY {
            assert(!signs_single_anyone_can_pay(this));
            return false;
        }
        i += 1;
    }
    true
}

/// The first rule on the transaction's own shape that it breaks, if any.
pub fn check_structure(tx: &Transaction, dust_limit: u64) -> (r: Option<Rejection>)
    ensures
        r == structural_rejection(tx@, dust_limit),
{
    let (inputs, outputs) = get_num_inputs_and_outputs(tx);
    if inputs != outputs {
        Some(Rejection::UnequalCounts { inputs, outputs })
    } else if !check_absolute_locktime(tx) {
        Some(Rejection::LockTime)
    } else if !check_dust_limit(tx, dust_limit) {
        Some(Rejection::Dust { limit: dust_limit })
    } else if !check_tx_version(tx) {
        Some(Rejection::Version)
    } else {
        None
    }
}

/// Whether an answer of the chain holds a transaction.
pub open spec fn origin_known(reply: Result<Option<Transaction>, OracleError>) -> bool {
    reply matches Ok(Some(_))
}

/// Whether the chain answered with a transaction.
pub fn is_known(reply: &Result<Option<Transaction>, OracleError>) -> (b: bool)
    ensures
        b == origin_known(*reply),
{
    match reply {
        Ok(Some(_)) => true,
        _ => false,
    }
}

/// The output at position `vout` of the transaction that the chain answered
/// with: `None` where it gave no transaction or one with fewer outputs.
pub open spec fn output_in(reply: Result<Option<Transaction>, OracleError>, vout: u32) -> Option<
    TxOut,
> {
    match reply {
        Ok(Some(tx)) => if vout < tx.output@.len() {
            Some(tx.output@[vout as int])
        } else {
            None
        },
        _ => None,
    }
}

/// Picks the output that an input refers to out of the chain's answer.
pub fn prior_output(reply: &Result<Option<Transaction>, OracleError>, vout: u32) -> (r: Option<
    &TxOut,
>)
    ensures
        r is Some <==> output_in(*reply, vout) is Some,
        r matches Some(o) ==> *o == output_in(*reply, vout).unwrap(),
{
    match reply {
        Ok(Some(tx)) => if (vout as usize) < tx.output.len() {
            Some(&tx.output[vout as usize])
        } else {
            None
        },
        _ => None,
    }
}

/// The amount that an answer of the chain gives for an output: 0 where it
/// names no such output.
pub open spec fn value_in(reply: Result<Option<Transaction>, OracleError>, vout: u32) -> u64 {
    match output_in(reply, vout) {
        Some(o) => o.value,
        None => 0,
    }
}

/// Reads the amount of an output out of the chain's answer on the
/// transaction that holds it: 0 where the answer names no such output.
pub fn get_previous_utxo_value(reply: &Result<Option<Transaction>, OracleError>, vout: u32) -> (v:
    u64)
    ensures
        v == value_in(*reply, vout),
{
    match prior_output(reply, vout) {
        Some(o) => o.value,
        None => 0,
    }
}

/// What a list of unspent outputs says of the script it was asked for.
pub open spec fn state_in(reply: Result<Vec<Unspent>, OracleError>) -> UtxoState {
    match reply {
        Ok(list) => if list@.len() > 0 {
            UtxoState::Unspent
        } else {
            UtxoState::Spent
        },
        Err(_) => UtxoState::Unknown,
    }
}

/// Reads the state of an output out of the chain's answer.
pub fn utxo_state(reply: &Result<Vec<Unspent>, OracleError>) -> (s: UtxoState)
    ensures
        s == state_in(*reply),
{
    match reply {
        Ok(list) => if list.len() > 0 {
            UtxoState::Unspent
        } else {
            UtxoState::Spent
        },
        Err(_) => UtxoState::Unknown,
    }
}

/// Whether the chain knows the transaction that the first input comes from.
/// A transaction without inputs comes from nowhere.
pub fn which_network<O: ChainOracle>(oracle: &mut O, tx: &Transaction) -> (b: bool)
    ensures
        tx@.input.len() == 0 ==> !b,
{
    if tx.input.len() == 0 {
        return false;
    }
    let reply = oracle.get_tx(&tx.input[0].previous_output.txid);
    is_known(&reply)
}

/// What is asked next once the chain has answered for the transaction that
/// holds an output: the script of that output, or nothing where the answer
/// names no such output, whose state then stays unknown.
pub open spec fn script_in(origin: Result<Option<Transaction>, OracleError>, vout: u32) -> Result<
    Seq<u8>,
    UtxoState,
> {
    match output_in(origin, vout) {
        Some(o) => Ok(o.script_pubkey@),
        None => Err(UtxoState::Unknown),
    }
}

/// Picks the script to ask the chain about out of its answer on the
/// transaction that holds an output.
pub fn script_to_ask(origin: &Result<Option<Transaction>, OracleError>, vout: u32) -> (r: Result<
    &Vec<u8>,
    UtxoState,
>)
    ensures
        match script_in(*origin, vout) {
            Ok(script) => r is Ok && r->Ok_0@ == script,
            Err(state) => r == Err::<&Vec<u8>, UtxoState>(state),
        },
{
    match prior_output(origin, vout) {
        Some(o) => Ok(&o.script_pubkey),
        None => Err(UtxoState::Unknown),
    }
}

/// Asks the chain for the transaction that holds an output, and then for what
/// is left unspent on the script that [`script_to_ask`] picks; what that
/// answer means, [`utxo_state`] says.
pub fn utxo_status<O: ChainOracle>(oracle: &mut O, utxo: &OutPoint) -> UtxoState {
    let origin = oracle.get_tx(&utxo.txid);
    match script_to_ask(&origin, utxo.vout) {
        Ok(script) => {
            let reply = oracle.list_unspent(script);
            utxo_state(&reply)
        },
        Err(state) => state,
    }
}

/// Asks the chain for the amount that each input spends, in the order of
/// the inputs, up to the first that it gives none for.
pub fn previous_values<O: ChainOracle>(oracle: &mut O, tx: &Transaction) -> (priors: Vec<u64>)
    ensures
        priors@.len() <= tx@.input.len(),
        forall|j: int| 0 <= j < priors@.len() - 1 ==> #[trigger] priors@[j] != 0,
        priors@.len() < tx@.input.len() ==> priors@.len() > 0 && priors@.last() == 0,
{
    let mut priors: Vec<u64> = Vec::new();
    let mut i: usize = 0;
    while i < tx.input.len()
        invariant
            i <= tx.input.len(),
            priors@.len() == i,
            forall|j: int| 0 <= j < i ==> #[trigger] priors@[j] != 0,
        decreases tx.input.len() - i,
    {
        let reply = oracle.get_tx(&tx.input[i].previous_output.txid);
        let value = get_previous_utxo_value(&reply, tx.input[i].previous_output.vout);
        priors.push(value);
        if value == 0 {
            return priors;
        }
        i += 1;
    }
    priors
}

/// Asks the chain for the state of the output behind each input, in the
/// order of the inputs, up to the first that it does not find unspent.
pub fn input_states<O: ChainOracle>(oracle: &mut O, tx: &Transaction) -> (states: Vec<UtxoState>)
    ensures
        states@.len() <= tx@.input.len(),
        forall|j: int| 0 <= j < states@.len() - 1 ==> #[trigger] states@[j] == UtxoState::Unspent,
        states@.len() < tx@.input.len() ==> states@.len() > 0 && states@.last()
            != UtxoState::Unspent,
{
    let mut states: Vec<UtxoState> = Vec::new();
    let mut i: usize = 0;
    while i < tx.input.len()
        invariant
            i <= tx.input.len(),
            states@.len() == i,
            forall|j: int| 0 <= j < i ==> #[trigger] states@[j] == UtxoState::Unspent,
        decreases tx.input.len() - i,
    {
        let state = utxo_status(oracle, &tx.input[i].previous_output);
        states.push(state);
        match state {
            UtxoState::Unspent => {},
            _ => {
                return states;
            },
        }
        i += 1;
    }
    states
}

/// Whether there is a state for each of `inputs` inputs, and every one is
/// unspent.
pub fn all_unspent(states: &Vec<UtxoState>, inputs: usize) -> (all: bool)
    ensures
        all == every_unspent(states@, inputs as nat),
{
    if states.len() != inputs {
        return false;
    }
    let mut i: usize = 0;
    while i < states.len()
        invariant
            i <= states.len(),
            forall|j: int| 0 <= j < i ==> #[trigger] states@[j] == UtxoState::Unspent,
        decreases states.len() - i,
    {
        match states[i] {
            UtxoState::Unspent => {},
            _ => {
                assert(states@[i as int] != UtxoState::Unspent);
                return false;
            },
        }
        i += 1;
    }
    true
}

/// Whether the chain finds the output behind every input unspent. It is
/// asked input by input, up to the first that it does not find unspent.
pub fn previous_utxo_spent<O: ChainOracle>(oracle: &mut O, tx: &Transaction) -> (all: bool)
    ensures
        tx@.input.len() == 0 ==> all,
{
    let states = input_states(oracle, tx);
    all_unspent(&states, tx.input.len())
}

/// Applies the rule on the origin and then the rules on the transaction's
/// own shape.
pub fn after_origin(tx: &Transaction, dust_limit: u64, known: bool) -> (r: Option<Rejection>)
    ensures
        r == origin_rejection(tx@, dust_limit, known),
{
    if tx.input.len() == 0 || !known {
        Some(Rejection::WrongNetwork)
    } else {
        check_structure(tx, dust_limit)
    }
}

/// Applies the rules on amounts, fee and signatures to the amounts that the
/// chain gave.
pub fn after_amounts(tx: &Transaction, priors: &Vec<u64>) -> (r: Result<u64, Rejection>)
    requires
        encodable(tx@),
    ensures
        r == amounts_verdict(tx@, priors@),
{
    if priors.len() != tx.input.len() {
        return Err(Rejection::PriorValue);
    }
    let mut total_in: u128 = 0;
    let mut i: usize = 0;
    while i < priors.len()
        invariant
            i <= priors.len(),
            forall|j: int| 0 <= j < i ==> #[trigger] priors@[j] != 0,
            total_in == total(priors@.take(i as int)),
        decreases priors.len() - i,
    {
        if priors[i] == 0 {
            assert(priors@[i as int] == 0);
            return Err(Rejection::PriorValue);
        }
        proof {
            total_bound(priors@.take(i as int));
            total_step(priors@, i as int);
            assert(i * u64::MAX + u64::MAX <= u128::MAX) by (nonlinear_arith)
                requires
                    i < usize::MAX,
            ;
        }
        total_in = total_in + priors[i] as u128;
        i += 1;
    }
    assert(priors@.take(priors@.len() as int) =~= priors@);
    let ghost spent = output_values(tx@);
    let mut total_out: u128 = 0;
    let mut k: usize = 0;
    while k < tx.output.len()
        invariant
            k <= tx.output.len(),
            spent == output_values(tx@),
            total_out == total(spent.take(k as int)),
        decreases tx.output.len() - k,
    {
        proof {
            total_bound(spent.take(k as int));
            total_step(spent, k as int);
            assert(k * u64::MAX + u64::MAX <= u128::MAX) by (nonlinear_arith)
                requires
                    k < usize::MAX,
            ;
        }
        total_out = total_out + tx.output[k].value as u128;
        k += 1;
    }
    assert(spent.take(spent.len() as int) =~= spent);
    let (fee_rate, enough) = effective_fee_rate(total_in, total_out, tx.vsize());
    if !enough {
        Err(Rejection::FeeTooLow { fee_rate })
    } else if !check_sighash_single_anyone_can_pay(tx) {
        Err(Rejection::Sighash)
    } else {
        Ok(fee_rate)
    }
}

/// Applies the rule on unspent inputs to a transaction that passed so far.
pub fn after_states(fee_rate: u64, unspent: bool) -> (r: Result<u64, Rejection>)
    ensures
        r == states_verdict(fee_rate, unspent),
{
    if unspent {
        Ok(fee_rate)
    } else {
        Err(Rejection::Spent)
    }
}

/// What the rules make of a transaction, given what the chain answered.
pub fn judge(tx: &Transaction, dust_limit: u64, known: bool, priors: &Vec<u64>, unspent: bool) -> (r:
    Result<u64, Rejection>)
    requires
        encodable(tx@),
    ensures
        r == verdict(tx@, dust_limit, known, priors@, unspent),
{
    match after_origin(tx, dust_limit, known) {
        Some(rejection) => Err(rejection),
        None => match after_amounts(tx, priors) {
            Err(rejection) => Err(rejection),
            Ok(fee_rate) => after_states(fee_rate, unspent),
        },
    }
}

/// What the chain answered when a transaction was held to the rules.
#[derive(Clone, Debug, PartialEq, Eq)]
pub struct Answers {
    /// Whether it knows the transaction that the first input comes from.
    pub known: bool,
    /// The amounts it gave for the inputs, as far as it was asked.
    pub priors: Vec<u64>,
    /// Whether it found every input unspent; `false` if it was not asked.
    pub unspent: bool,
}

/// Asks the chain what the rules need to know of a transaction, and only as
/// far as they have not decided: first for the origin of the first input;
/// then, if [`after_origin`] lets the transaction pass, for the amounts;
/// then, if [`after_amounts`] lets it pass, for the states.
pub fn gather<O: ChainOracle>(oracle: &mut O, tx: &Transaction, dust_limit: u64) -> (answers: Answers)
    requires
        encodable(tx@),
    ensures
        tx@.input.len() == 0 ==> !answers.known,
        origin_rejection(tx@, dust_limit, answers.known) is Some ==> answers.priors@.len() == 0,
        origin_rejection(tx@, dust_limit, answers.known) is Some || amounts_verdict(
            tx@,
            answers.priors@,
        ) is Err ==> !answers.unspent,
{
    let known = which_network(oracle, tx);
    if after_origin(tx, dust_limit, known).is_some() {
        return Answers { known, priors: Vec::new(), unspent: false };
    }
    let priors = previous_values(oracle, tx);
    if after_amounts(tx, &priors).is_err() {
        return Answers { known, priors, unspent: false };
    }
    let unspent = previous_utxo_spent(oracle, tx);
    Answers { known, priors, unspent }
}

/// Holds a transaction to every rule and gives its fee rate if it passes:
/// the chain is asked by [`gather`], and [`judge`] decides on its answers.
pub fn validate_transaction<O: ChainOracle>(oracle: &mut O, tx: &Transaction, dust_limit: u64) -> (r:
    Result<u64, Rejection>)
    requires
        encodable(tx@),
    ensures
        is_verdict(tx@, dust_limit, r),
{
    let answers = gather(oracle, tx, dust_limit);
    judge(tx, dust_limit, answers.known, &answers.priors, answers.unspent)
}

/// Reads a transaction from hexadecimal text and holds it to every rule.
/// A text that holds no transaction is rejected without a question to the
/// chain.
pub fn validate_tx_query_one_to_one_single_anyone_can_pay<O: ChainOracle>(
    oracle: &mut O,
    tx_hex: &str,
    dust_limit: u64,
) -> (r: Result<u64, Rejection>)
    ensures
        match decoded(tx_hex.spec_bytes()) {
            Ok(tx) => is_verdict(tx, dust_limit, r),
            Err(e) => r == Err::<u64, Rejection>(e),
        },
{
    match decode_transaction(tx_hex) {
        Ok(tx) => validate_transaction(oracle, &tx, dust_limit),
        Err(e) => Err(e),
    }
}

} // verus!
