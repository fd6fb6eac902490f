//! Bitcoin transactions as plain data, and the consensus codec behind them.

use bdk::bitcoin::absolute::LockTime;
use bdk::bitcoin::consensus::encode::{deserialize, serialize, Error};
use bdk::bitcoin::{ScriptBuf, Sequence, Witness};
use vstd::prelude::*;

verus! {

/// The sequence number with which an input leaves the lock time of its
/// transaction switched off.
pub const SEQUENCE_FINAL: u32 = 0xFFFF_FFFF;

/// A reference to one output of an earlier transaction.
#[derive(Clone, Debug, PartialEq, Eq)]
pub struct OutPoint {
    /// Identifier of the earlier transaction, in the byte order of the wire.
    pub txid: [u8; 32],
    /// Position of the output in that transaction.
    pub vout: u32,
}

/// Mathematical value of an [`OutPoint`].
pub struct OutPointView {
    pub txid: Seq<u8>,
    pub vout: u32,
}

impl View for OutPoint {
    type V = OutPointView;

    open spec fn view(&self) -> OutPointView {
        OutPointView { txid: self.txid@, vout: self.vout }
    }
}

/// One input of a transaction.
#[derive(Clone, Debug, PartialEq, Eq)]
pub struct TxIn {
    pub previous_output: OutPoint,
    pub script_sig: Vec<u8>,
    pub sequence: u32,
    /// Witness stack, bottom item first.
    pub witness: Vec<Vec<u8>>,
}

/// Mathematical value of a [`TxIn`].
pub struct TxInView {
    pub previous_output: OutPointView,
    pub script_sig: Seq<u8>,
    pub sequence: u32,
    pub witness: Seq<Seq<u8>>,
}

impl View for TxIn {
    type V = TxInView;

    open spec fn view(&self) -> TxInView {
        TxInView {
            previous_output: self.previous_output@,
            script_sig: self.script_sig@,
            sequence: self.sequence,
            witness: Seq::new(self.witness@.len(), |i: int| self.witness@[i]@),
        }
    }
}

/// One output of a transaction.
#[derive(Clone, Debug, PartialEq, Eq)]
pub struct TxOut {
    /// Amount in satoshis.
    pub value: u64,
    pub script_pubkey: Vec<u8>,
}

/// Mathematical value of a [`TxOut`].
pub struct TxOutView {
    pub value: u64,
    pub script_pubkey: Seq<u8>,
}

impl View for TxOut {
    type V = TxOutView;

    open spec fn view(&self) -> TxOutView {
        TxOutView { value: self.value, script_pubkey: self.script_pubkey@ }
    }
}

/// A transaction: what the consensus encoding carries, field for field.
#[derive(Clone, Debug, PartialEq, Eq)]
pub struct Transaction {
    pub version: i32,
    /// The lock time as the 32-bit number of the wire format.
    pub lock_time: u32,
    pub input: Vec<TxIn>,
    pub output: Vec<TxOut>,
}

/// Mathematical value of a [`Transaction`].
pub struct TransactionView {
    pub version: i32,
    pub lock_time: u32,
    pub input: Seq<TxInView>,
    pub output: Seq<TxOutView>,
}

impl View for Transaction {
    type V = TransactionView;

    open spec fn view(&self) -> TransactionView {
        TransactionView {
            version: self.version,
            lock_time: self.lock_time,
            input: Seq::new(self.input@.len(), |i: int| self.input@[i]@),
            output: Seq::new(self.output@.len(), |i: int| self.output@[i]@),
        }
    }
}

/// The room that a witness takes in the codec's buffer, reckoned
/// generously: for each item its length and 9 bytes for the length's own
/// encoding.
pub open spec fn witness_span(witness: Seq<Seq<u8>>) -> nat
    decreases witness.len(),
{
    if witness.len() == 0 {
        0
    } else {
        witness_span(witness.drop_last()) + witness.last().len() + 9
    }
}

/// Whether the codec can hold the transaction: it keeps the place of each
/// witness item in 32 bits, so no witness may span more.
pub open spec fn encodable(tx: TransactionView) -> bool {
    forall|i: int| 0 <= i < tx.input.len() ==> witness_span((#[trigger] tx.input[i]).witness) <= u32::MAX
}

/// The first items of a witness span no more than all of them.
pub proof fn witness_span_grows(witness: Seq<Seq<u8>>, n: int)
    requires
        0 <= n <= witness.len(),
    ensures
        witness_span(witness.take(n)) <= witness_span(witness),
    decreases witness.len() - n,
{
    if n < witness.len() {
        witness_span_grows(witness, n + 1);
        assert(witness.take(n + 1).drop_last() =~= witness.take(n));
    } else {
        assert(witness.take(n) =~= witness);
    }
}

#[verifier::external_type_specification]
#[verifier::external_body]
pub struct ExConsensusError(Error);

/// The transaction that a byte string is the consensus encoding of, if it is
/// one.
pub uninterp spec fn consensus_decoded(bytes: Seq<u8>) -> Option<TransactionView>;

/// The consensus encoding of a transaction.
pub uninterp spec fn consensus_encoded(tx: TransactionView) -> Seq<u8>;

/// The virtual size of a transaction, in virtual bytes.
pub uninterp spec fn virtual_size(tx: TransactionView) -> nat;

/// `bitcoin::consensus::encode::deserialize` for a `bitcoin::Transaction`,
/// the result copied field by field. It succeeds exactly on the byte strings
/// that `consensus_decoded` knows, with the transaction it names. The
/// decoder gives up on a witness whose items, with the encodings of their
/// lengths, take more than 4,000,000 bytes, so what it hands out can be
/// encoded again.
#[verifier::external_body]
fn consensus_deserialize(bytes: &Vec<u8>) -> (r: Result<Transaction, Error>)
    ensures
        r is Ok <==> consensus_decoded(bytes@) is Some,
        r matches Ok(tx) ==> consensus_decoded(bytes@) == Some(tx@),
        r matches Ok(tx) ==> encodable(tx@),
{
    let t: bdk::bitcoin::Transaction = deserialize(bytes)?;
    Ok(Transaction {
        version: t.version,
        lock_time: t.lock_time.to_consensus_u32(),
        input: t.input.into_iter().map(|i| TxIn {
            previous_output: OutPoint { txid: bdk::bitcoin::hashes::Hash::to_byte_array(i.previous_output.txid), vout: i.previous_output.vout },
            script_sig: i.script_sig.into_bytes(),
            sequence: i.sequence.0,
            witness: i.witness.to_vec(),
        }).collect(),
        output: t.output.into_iter().map(|o| TxOut { value: o.value, script_pubkey: o.script_pubkey.into_bytes() }).collect(),
    })
}

/// `bitcoin::consensus::encode::serialize` on the `bitcoin::Transaction` with
/// the same fields: the bytes that `consensus_encoded` names. Building a
/// witness (`Witness::from_slice`) panics where the place of an item does
/// not fit in 32 bits, which `encodable` rules out.
#[verifier::external_body]
fn consensus_serialize(tx: &Transaction) -> (bytes: Vec<u8>)
    requires
        encodable(tx@),
    ensures
        bytes@ == consensus_encoded(tx@),
{
    serialize(&bdk::bitcoin::Transaction {
        version: tx.version,
        lock_time: LockTime::from_consensus(tx.lock_time),
        input: tx.input.iter().map(|i| bdk::bitcoin::TxIn {
            previous_output: bdk::bitcoin::OutPoint::new(bdk::bitcoin::hashes::Hash::from_byte_array(i.previous_output.txid), i.previous_output.vout),
            script_sig: ScriptBuf::from_bytes(i.script_sig.clone()),
            sequence: Sequence(i.sequence),
            witness: Witness::from_slice(&i.witness),
        }).collect(),
        output: tx.output.iter().map(|o| bdk::bitcoin::TxOut { value: o.value, script_pubkey: ScriptBuf::from_bytes(o.script_pubkey.clone()) }).collect(),
    })
}

/// `bitcoin::Transaction::vsize` on the `bitcoin::Transaction` with the same
/// fields: the number that `virtual_size` names. Building a witness
/// (`Witness::from_slice`) panics where the place of an item does not fit in
/// 32 bits, which `encodable` rules out.
#[verifier::external_body]
fn consensus_vsize(tx: &Transaction) -> (n: usize)
    requires
        encodable(tx@),
    ensures
        n == virtual_size(tx@),
{
    bdk::bitcoin::Transaction {
        version: tx.version,
        lock_time: LockTime::from_consensus(tx.lock_time),
        input: tx.input.iter().map(|i| bdk::bitcoin::TxIn {
            previous_output: bdk::bitcoin::OutPoint::new(bdk::bitcoin::hashes::Hash::from_byte_array(i.previous_output.txid), i.previous_output.vout),
            script_sig: ScriptBuf::from_bytes(i.script_sig.clone()),
            sequence: Sequence(i.sequence),
            witness: Witness::from_slice(&i.witness),
        }).collect(),
        output: tx.output.iter().map(|o| bdk::bitcoin::TxOut { value: o.value, script_pubkey: ScriptBuf::from_bytes(o.script_pubkey.clone()) }).collect(),
    }.vsize()
}

/// A copy of a byte string.
pub fn copy_bytes(bytes: &Vec<u8>) -> (copy: Vec<u8>)
    ensures
        copy@ == bytes@,
{
    let copy = bytes.clone();
    assert(copy@ =~= bytes@);
    copy
}

impl OutPoint {
    /// Whether two references name the same output.
    pub fn same(&self, other: &OutPoint) -> (b: bool)
        ensures
            b == (self@ == other@),
    {
        if self.vout != other.vout {
            return false;
        }
        let mut i: usize = 0;
        while i < 32
            invariant
                i <= 32,
                forall|j: int| 0 <= j < i ==> self.txid@[j] == other.txid@[j],
            decreases 32 - i,
        {
            if self.txid[i] != other.txid[i] {
                assert(self.txid@[i as int] != other.txid@[i as int]);
                return false;
            }
            i += 1;
        }
        assert(self.txid@ =~= other.txid@);
        true
    }

    /// A copy of the reference.
    pub fn duplicate(&self) -> (copy: OutPoint)
        ensures
            copy@ == self@,
    {
        OutPoint { txid: self.txid, vout: self.vout }
    }
}

impl TxIn {
    /// Whether the witness spans no more than the codec can hold.
    pub fn witness_fits(&self) -> (fits: bool)
        ensures
            fits == (witness_span(self@.witness) <= u32::MAX),
    {
        let ghost witness = self@.witness;
        let mut span: u64 = 0;
        let mut i: usize = 0;
        assert(witness.take(0) =~= Seq::<Seq<u8>>::empty());
        while i < self.witness.len()
            invariant
                i <= self.witness.len(),
                witness == self@.witness,
                witness.len() == self.witness@.len(),
                span == witness_span(witness.take(i as int)),
                span <= u32::MAX,
            decreases self.witness.len() - i,
        {
            let item = self.witness[i].len();
            assert(witness[i as int].len() == item);
            assert(witness.take(i + 1).drop_last() =~= witness.take(i as int));
            if item > 0xFFFF_FFFF || span + item as u64 + 9 > 0xFFFF_FFFF {
                proof {
                    witness_span_grows(witness, i + 1);
                }
                return false;
            }
            span = span + item as u64 + 9;
            i += 1;
        }
        assert(witness.take(witness.len() as int) =~= witness);
        true
    }

    /// A copy of the input.
    pub fn duplicate(&self) -> (copy: TxIn)
        ensures
            copy@ == self@,
    {
        let mut witness: Vec<Vec<u8>> = Vec::new();
        let mut i: usize = 0;
        while i < self.witness.len()
            invariant
                i <= self.witness.len(),
                witness@.len() == i,
                forall|j: int| 0 <= j < i ==> (#[trigger] witness@[j])@ == self.witness@[j]@,
            decreases self.witness.len() - i,
        {
            witness.push(copy_bytes(&self.witness[i]));
            i += 1;
        }
        let copy = TxIn {
            previous_output: self.previous_output.duplicate(),
            script_sig: copy_bytes(&self.script_sig),
            sequence: self.sequence,
            witness,
        };
        assert(copy@.witness =~= self@.witness);
        copy
    }
}

impl TxOut {
    /// A copy of the output.
    pub fn duplicate(&self) -> (copy: TxOut)
        ensures
            copy@ == self@,
    {
        TxOut { value: self.value, script_pubkey: copy_bytes(&self.script_pubkey) }
    }
}

impl Transaction {
    /// Reads a transaction from its consensus encoding.
    pub fn decode(bytes: &Vec<u8>) -> (r: Option<Transaction>)
        ensures
            r is Some <==> consensus_decoded(bytes@) is Some,
            r matches Some(tx) ==> consensus_decoded(bytes@) == Some(tx@),
            r matches Some(tx) ==> encodable(tx@),
    {
        match consensus_deserialize(bytes) {
            Ok(tx) => Some(tx),
            Err(_) => None,
        }
    }

    /// Whether the codec can hold the transaction.
    pub fn fits_encoding(&self) -> (fits: bool)
        ensures
            fits == encodable(self@),
    {
        let mut i: usize = 0;
        while i < self.input.len()
            invariant
                i <= self.input.len(),
                forall|j: int|
                    0 <= j < i ==> witness_span((#[trigger] self@.input[j]).witness) <= u32::MAX,
            decreases self.input.len() - i,
        {
            if !self.input[i].witness_fits() {
                assert(witness_span(self@.input[i as int].witness) > u32::MAX);
                return false;
            }
            i += 1;
        }
        true
    }

    /// Writes the transaction in its consensus encoding.
    pub fn encode(&self) -> (bytes: Vec<u8>)
        requires
            encodable(self@),
        ensures
            bytes@ == consensus_encoded(self@),
    {
        consensus_serialize(self)
    }

    /// The virtual size, in virtual bytes.
    pub fn vsize(&self) -> (n: usize)
        requires
            encodable(self@),
        ensures
            n == virtual_size(self@),
    {
        consensus_vsize(self)
    }
}

} // verus!
