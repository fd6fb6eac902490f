//! One bucket of input/output pairs that wait to be published together.

use crate::clock::unix_now;
use crate::oracle::{ChainOracle, OracleError};
use crate::transaction::{
    encodable, witness_span, OutPointView, Transaction, TransactionView, TxIn, TxInView, TxOut,
    TxOutView,
};
use crate::validation::{utxo_status, UtxoState};
use vstd::prelude::*;

verus! {

/// The version of the transaction that a group publishes.
pub const GROUP_VERSION: i32 = 2;

/// The lock time of the transaction that a group publishes.
pub const GROUP_LOCK_TIME: u32 = 0;

/// The pairs that a transaction brings: its inputs in order, each with the
/// output at the same position.
pub open spec fn pairs_of(tx: TransactionView) -> Seq<(TxInView, TxOutView)> {
    Seq::new(tx.input.len(), |i: int| (tx.input[i], tx.output[i]))
}

/// Whether one of the pairs spends the given output.
pub open spec fn spends(pairs: Seq<(TxInView, TxOutView)>, outpoint: OutPointView) -> bool {
    exists|i: int| 0 <= i < pairs.len() && (#[trigger] pairs[i]).0.previous_output == outpoint
}

/// The transaction that is published for a sequence of pairs: version 2, lock
/// time 0, the inputs in order and the outputs in the same order.
pub open spec fn assembled(pairs: Seq<(TxInView, TxOutView)>) -> TransactionView {
    TransactionView {
        version: GROUP_VERSION,
        lock_time: GROUP_LOCK_TIME,
        input: Seq::new(pairs.len(), |i: int| pairs[i].0),
        output: Seq::new(pairs.len(), |i: int| pairs[i].1),
    }
}

/// Whether the codec can hold the transaction that is published for the
/// pairs: no witness among them spans more than it has room for.
pub open spec fn writable(pairs: Seq<(TxInView, TxOutView)>) -> bool {
    forall|i: int| 0 <= i < pairs.len() ==> witness_span((#[trigger] pairs[i]).0.witness) <= u32::MAX
}

/// Pairs that the codec can hold give a transaction that it can hold; a
/// transaction that it can hold brings such pairs; and such pairs stay so
/// when others join them or one leaves.
pub proof fn writable_pairs(
    before: Seq<(TxInView, TxOutView)>,
    after: Seq<(TxInView, TxOutView)>,
    tx: TransactionView,
)
    ensures
        writable(before) ==> encodable(assembled(before)),
        encodable(tx) ==> writable(pairs_of(tx)),
        writable(before) && writable(after) ==> writable(before + after),
        writable(before) && kept_or_dropped_one(before, after) ==> writable(after),
{
    if writable(before) {
        assert forall|i: int| 0 <= i < assembled(before).input.len() implies witness_span(
            (#[trigger] assembled(before).input[i]).witness,
        ) <= u32::MAX by {
            assert(assembled(before).input[i] == before[i].0);
        }
    }
    if encodable(tx) {
        assert forall|i: int| 0 <= i < pairs_of(tx).len() implies witness_span(
            (#[trigger] pairs_of(tx)[i]).0.witness,
        ) <= u32::MAX by {
            assert(pairs_of(tx)[i].0 == tx.input[i]);
        }
    }
    if writable(before) && writable(after) {
        let joined = before + after;
        assert forall|i: int| 0 <= i < joined.len() implies witness_span(
            (#[trigger] joined[i]).0.witness,
        ) <= u32::MAX by {
            if i < before.len() {
                assert(joined[i] == before[i]);
            } else {
                assert(joined[i] == after[i - before.len()]);
            }
        }
    }
    if writable(before) && kept_or_dropped_one(before, after) && after != before {
        let k = choose|k: int| 0 <= k < before.len() && after == #[trigger] before.remove(k);
        assert forall|i: int| 0 <= i < after.len() implies witness_span(
            (#[trigger] after[i]).0.witness,
        ) <= u32::MAX by {
            if i < k {
                assert(after[i] == before[i]);
            } else {
                assert(after[i] == before[i + 1]);
            }
        }
    }
}

/// Whether `after` is `before`, or `before` without one of its pairs.
pub open spec fn kept_or_dropped_one(
    before: Seq<(TxInView, TxOutView)>,
    after: Seq<(TxInView, TxOutView)>,
) -> bool {
    after == before || exists|k: int| 0 <= k < before.len() && after == #[trigger] before.remove(k)
}

/// How an attempt to publish pairs ends, given what the chain said of each
/// pair (`states`) and whether it took the transaction (`accepted`).
///
/// The pairs are gone through in order, up to the first that the chain did
/// not find unspent. A spent pair leaves, one that the chain gave no answer
/// for stays, and either way nothing is published. If the chain found them
/// all unspent, the pairs stay as they are, and they are published if the
/// chain took the transaction.
pub open spec fn closes(
    before: Seq<(TxInView, TxOutView)>,
    states: Seq<UtxoState>,
    accepted: bool,
    after: Seq<(TxInView, TxOutView)>,
    published: bool,
) -> bool {
    &&& states.len() == before.len()
    &&& if forall|j: int| 0 <= j < states.len() ==> #[trigger] states[j] == UtxoState::Unspent {
        after == before && published == accepted
    } else {
        exists|k: int|
            #![trigger states[k]]
            {
                &&& 0 <= k < states.len()
                &&& states[k] != UtxoState::Unspent
                &&& forall|j: int| 0 <= j < k ==> #[trigger] states[j] == UtxoState::Unspent
                &&& !published
                &&& after == if states[k] == UtxoState::Spent {
                    before.remove(k)
                } else {
                    before
                }
            }
    }
}

/// Whether an attempt to publish `before` can end with `after`, published
/// or not, for some answers of the chain.
pub open spec fn is_closure(
    before: Seq<(TxInView, TxOutView)>,
    after: Seq<(TxInView, TxOutView)>,
    published: bool,
) -> bool {
    exists|states: Seq<UtxoState>, accepted: bool|
        #[trigger] closes(before, states, accepted, after, published)
}

/// An attempt to publish may always fail and leave the pairs as they were:
/// the chain need not take the transaction.
pub proof fn closure_may_fail(pairs: Seq<(TxInView, TxOutView)>)
    ensures
        is_closure(pairs, pairs, false),
{
    let states = Seq::new(pairs.len(), |j: int| UtxoState::Unspent);
    assert(closes(pairs, states, false, pairs, false));
}

/// An attempt to publish takes at most one pair away, and none if it
/// succeeds.
pub proof fn closure_drops_at_most_one(
    before: Seq<(TxInView, TxOutView)>,
    after: Seq<(TxInView, TxOutView)>,
    published: bool,
)
    requires
        is_closure(before, after, published),
    ensures
        kept_or_dropped_one(before, after),
        after.len() <= before.len(),
        published ==> after == before,
{
    let (states, accepted) = choose|states: Seq<UtxoState>, accepted: bool|
        #[trigger] closes(before, states, accepted, after, published);
    if !(forall|j: int| 0 <= j < states.len() ==> #[trigger] states[j] == UtxoState::Unspent) {
        let k = choose|k: int|
            #![trigger states[k]]
            {
                &&& 0 <= k < states.len()
                &&& states[k] != UtxoState::Unspent
                &&& forall|j: int| 0 <= j < k ==> #[trigger] states[j] == UtxoState::Unspent
                &&& !published
                &&& after == if states[k] == UtxoState::Spent {
                    before.remove(k)
                } else {
                    before
                }
            };
        if states[k] == UtxoState::Spent {
            assert(after == before.remove(k));
        }
    }
}

/// Whether no two of the pairs spend the same output.
pub open spec fn distinct_inputs(pairs: Seq<(TxInView, TxOutView)>) -> bool {
    forall|i: int, j: int|
        0 <= i < j < pairs.len() ==> (#[trigger] pairs[i]).0.previous_output != (
        #[trigger] pairs[j]).0.previous_output
}

/// Pairs that spend different outputs still do once one of them has left.
pub proof fn dropping_keeps_distinct(
    before: Seq<(TxInView, TxOutView)>,
    after: Seq<(TxInView, TxOutView)>,
)
    requires
        kept_or_dropped_one(before, after),
        distinct_inputs(before),
    ensures
        distinct_inputs(after),
{
    if after != before {
        let k = choose|k: int| 0 <= k < before.len() && after == #[trigger] before.remove(k);
        assert forall|i: int, j: int| 0 <= i < j < after.len() implies (
        #[trigger] after[i]).0.previous_output != (#[trigger] after[j]).0.previous_output by {
            let a = if i < k { i } else { i + 1 };
            let b = if j < k { j } else { j + 1 };
            assert(after[i] == before[a] && after[j] == before[b]);
        }
    }
}

/// Pairs that spend different outputs still do once a transaction has joined
/// whose inputs spend different outputs, none of which was spent before.
pub proof fn joining_keeps_distinct(before: Seq<(TxInView, TxOutView)>, tx: TransactionView)
    requires
        distinct_inputs(before),
        distinct_inputs(pairs_of(tx)),
        forall|k: int|
            0 <= k < tx.input.len() ==> !spends(before, (#[trigger] tx.input[k]).previous_output),
    ensures
        distinct_inputs(before + pairs_of(tx)),
{
    let joined = before + pairs_of(tx);
    assert forall|i: int, j: int| 0 <= i < j < joined.len() implies (
    #[trigger] joined[i]).0.previous_output != (#[trigger] joined[j]).0.previous_output by {
        if j < before.len() {
            assert(joined[i] == before[i] && joined[j] == before[j]);
        } else if i < before.len() {
            let k = j - before.len();
            assert(joined[i] == before[i]);
            assert(joined[j] == pairs_of(tx)[k]);
            assert(!spends(before, tx.input[k].previous_output));
        } else {
            let a = i - before.len();
            let b = j - before.len();
            assert(joined[i] == pairs_of(tx)[a] && joined[j] == pairs_of(tx)[b]);
        }
    }
}

/// The transaction assembled from N pairs has N inputs and N outputs, and
/// at every position the input and the output of the pair at that position.
pub proof fn assembly_is_aligned(pairs: Seq<(TxInView, TxOutView)>)
    ensures
        assembled(pairs).version == 2,
        assembled(pairs).lock_time == 0,
        assembled(pairs).input.len() == pairs.len(),
        assembled(pairs).output.len() == pairs.len(),
        forall|i: int|
            0 <= i < pairs.len() ==> assembled(pairs).input[i] == pairs[i].0 && assembled(
                pairs,
            ).output[i] == pairs[i].1,
{
}

/// Whatever a group spends once the pairs of a transaction have joined it,
/// the group spent before or an input of the transaction spends.
pub(crate) proof fn joining_adds_inputs(
    before: Seq<(TxInView, TxOutView)>,
    tx: TransactionView,
    outpoint: OutPointView,
)
    requires
        spends(before + pairs_of(tx), outpoint),
    ensures
        spends(before, outpoint) || exists|k: int|
            0 <= k < tx.input.len() && (#[trigger] tx.input[k]).previous_output == outpoint,
{
    let joined = before + pairs_of(tx);
    let i = choose|i: int|
        0 <= i < joined.len() && (#[trigger] joined[i]).0.previous_output == outpoint;
    if i < before.len() {
        assert(before[i] == joined[i]);
    } else {
        let k = i - before.len();
        assert(joined[i] == pairs_of(tx)[k]);
        assert(tx.input[k].previous_output == outpoint);
    }
}

/// A sequence that lost at most one pair is no longer than before, and
/// spends nothing that it did not spend before.
pub(crate) proof fn dropping_adds_nothing(
    before: Seq<(TxInView, TxOutView)>,
    after: Seq<(TxInView, TxOutView)>,
)
    requires
        kept_or_dropped_one(before, after),
    ensures
        after.len() <= before.len(),
        forall|outpoint: OutPointView| spends(after, outpoint) ==> spends(before, outpoint),
{
    assert forall|outpoint: OutPointView| spends(after, outpoint) implies spends(
        before,
        outpoint,
    ) by {
        if after != before {
            let k = choose|k: int| 0 <= k < before.len() && after == #[trigger] before.remove(k);
            let i = choose|i: int|
                0 <= i < after.len() && (#[trigger] after[i]).0.previous_output == outpoint;
            if i < k {
                assert(before[i] == after[i]);
            } else {
                assert(before[i + 1] == after[i]);
            }
        }
    }
}

/// A bucket: the pairs admitted at one quantized fee rate, in the order in
/// which they came.
pub struct Group {
    /// The quantized fee rate that the group is found by.
    pub fee_rate: u64,
    /// When the group was made, in seconds since the Unix epoch.
    pub timestamp: i64,
    transactions: Vec<(TxIn, TxOut)>,
}

/// Mathematical value of a [`Group`].
pub struct GroupView {
    pub fee_rate: u64,
    pub timestamp: i64,
    /// The pairs, oldest first.
    pub pairs: Seq<(TxInView, TxOutView)>,
}

impl View for Group {
    type V = GroupView;

    closed spec fn view(&self) -> GroupView {
        GroupView {
            fee_rate: self.fee_rate,
            timestamp: self.timestamp,
            pairs: Seq::new(
                self.transactions@.len(),
                |i: int| (self.transactions@[i].0@, self.transactions@[i].1@),
            ),
        }
    }
}

impl Group {
    /// The pairs of the group, oldest first.
    pub open spec fn pairs(&self) -> Seq<(TxInView, TxOutView)> {
        self@.pairs
    }

    /// Whether the codec can hold the transaction that the group publishes.
    /// A group is made so, and stays so with transactions that the codec can
    /// hold.
    pub open spec fn wf(&self) -> bool {
        writable(self.pairs())
    }

    /// The quantized fee rate that the group is found by.
    pub fn key(&self) -> (fee_rate: u64)
        ensures
            fee_rate == self@.fee_rate,
    {
        self.fee_rate
    }

    /// When the group was made.
    pub fn created(&self) -> (timestamp: i64)
        ensures
            timestamp == self@.timestamp,
    {
        self.timestamp
    }

    /// An empty group for a bucket, made now.
    pub fn new(fee_rate: u64) -> (group: Group)
        ensures
            group@.fee_rate == fee_rate,
            group.pairs() == Seq::<(TxInView, TxOutView)>::empty(),
            group.wf(),
    {
        Group::created_at(fee_rate, unix_now())
    }

    /// An empty group for a bucket, made at the given time.
    pub fn created_at(fee_rate: u64, timestamp: i64) -> (group: Group)
        ensures
            group@.fee_rate == fee_rate,
            group@.timestamp == timestamp,
            group.pairs() == Seq::<(TxInView, TxOutView)>::empty(),
            group.wf(),
    {
        let group = Group { fee_rate, timestamp, transactions: Vec::new() };
        group
    }

    /// The number of pairs in the group.
    pub fn get_num_transactions(&self) -> (n: usize)
        ensures
            n == self.pairs().len(),
    {
        self.transactions.len()
    }

    /// Whether a pair of the group spends the output that `txin` spends.
    pub fn contains_txin(&self, txin: &TxIn) -> (b: bool)
        ensures
            b == spends(self.pairs(), txin@.previous_output),
    {
        let mut i: usize = 0;
        while i < self.transactions.len()
            invariant
                i <= self.transactions.len(),
                forall|j: int|
                    0 <= j < i ==> (#[trigger] self.pairs()[j]).0.previous_output
                        != txin@.previous_output,
            decreases self.transactions.len() - i,
        {
            if self.transactions[i].0.previous_output.same(&txin.previous_output) {
                assert(self.pairs()[i as int].0.previous_output == txin@.previous_output);
                return true;
            }
            i += 1;
        }
        false
    }

    /// Takes the pairs of a transaction into the group, behind those that
    /// are there.
    pub fn append(&mut self, tx: &Transaction)
        requires
            tx@.input.len() <= tx@.output.len(),
        ensures
            final(self)@.fee_rate == old(self)@.fee_rate,
            final(self)@.timestamp == old(self)@.timestamp,
            final(self).pairs() == old(self).pairs() + pairs_of(tx@),
            old(self).wf() && encodable(tx@) ==> final(self).wf(),
    {
        proof {
            writable_pairs(old(self).pairs(), pairs_of(tx@), tx@);
        }
        let mut i: usize = 0;
        while i < tx.input.len()
            invariant
                i <= tx.input.len(),
                tx.input.len() <= tx.output.len(),
                self.fee_rate == old(self).fee_rate,
                self.timestamp == old(self).timestamp,
                self.pairs() == old(self).pairs() + pairs_of(tx@).take(i as int),
            decreases tx.input.len() - i,
        {
            let ghost before = self.pairs();
            let pair = (tx.input[i].duplicate(), tx.output[i].duplicate());
            self.transactions.push(pair);
            assert(self.pairs() =~= before.push((tx@.input[i as int], tx@.output[i as int])));
            assert(pairs_of(tx@).take(i + 1) =~= pairs_of(tx@).take(i as int).push(
                (tx@.input[i as int], tx@.output[i as int]),
            ));
            i += 1;
        }
    }

    /// Puts the pairs together into the transaction that is published.
    pub fn create_group_transaction(&self) -> (tx: Transaction)
        ensures
            tx@ == assembled(self.pairs()),
            self.wf() ==> encodable(tx@),
    {
        proof {
            writable_pairs(self.pairs(), self.pairs(), assembled(self.pairs()));
        }
        let mut input: Vec<TxIn> = Vec::new();
        let mut output: Vec<TxOut> = Vec::new();
        let mut i: usize = 0;
        while i < self.transactions.len()
            invariant
                i <= self.transactions.len(),
                input@.len() == i,
                output@.len() == i,
                forall|j: int| 0 <= j < i ==> (#[trigger] input@[j])@ == self.pairs()[j].0,
                forall|j: int| 0 <= j < i ==> (#[trigger] output@[j])@ == self.pairs()[j].1,
            decreases self.transactions.len() - i,
        {
            input.push(self.transactions[i].0.duplicate());
            output.push(self.transactions[i].1.duplicate());
            i += 1;
        }
        let tx = Transaction { version: GROUP_VERSION, lock_time: GROUP_LOCK_TIME, input, output };
        assert(tx@.input =~= assembled(self.pairs()).input);
        assert(tx@.output =~= assembled(self.pairs()).output);
        tx
    }

    /// What the chain's word on the pair at a position does to the group,
    /// and where an attempt to publish goes on: an unspent pair stays and
    /// the next pair is looked at; a spent pair leaves, and one that the
    /// chain gave no answer for stays, and either ends the attempt.
    pub fn settle(&mut self, at: usize, state: UtxoState) -> (next: Option<usize>)
        requires
            at < old(self).pairs().len(),
        ensures
            final(self)@.fee_rate == old(self)@.fee_rate,
            final(self)@.timestamp == old(self)@.timestamp,
            state == UtxoState::Unspent ==> next == Some((at + 1) as usize) && final(self).pairs()
                == old(self).pairs(),
            state == UtxoState::Spent ==> next is None && final(self).pairs() == old(
                self,
            ).pairs().remove(at as int),
            state == UtxoState::Unknown ==> next is None && final(self).pairs() == old(
                self,
            ).pairs(),
            old(self).wf() ==> final(self).wf(),
    {
        proof {
            writable_pairs(
                old(self).pairs(),
                old(self).pairs().remove(at as int),
                assembled(old(self).pairs()),
            );
        }
        let held = self.transactions.len();
        assert(self.pairs().len() == held);
        match state {
            UtxoState::Unspent => Some(at + 1),
            UtxoState::Spent => {
                let ghost before = self.pairs();
                self.transactions.remove(at);
                assert(self.pairs() =~= before.remove(at as int));
                None
            },
            UtxoState::Unknown => None,
        }
    }

    /// Whether the chain took a transaction that was handed to it.
    pub fn taken(reply: &Result<[u8; 32], OracleError>) -> (published: bool)
        ensures
            published == (*reply is Ok),
    {
        match reply {
            Ok(_) => true,
            Err(_) => false,
        }
    }

    /// Tries to publish the group.
    ///
    /// Every pair is first looked up on the chain again. If the chain gives
    /// no answer for one, nothing happens. If it finds one spent, that pair
    /// leaves the group and nothing is published. Otherwise the assembled
    /// transaction is handed to the chain, and the result says whether the
    /// chain took it. The group itself only ever loses a pair, and only when
    /// the result is `false`.
    pub fn close_group<O: ChainOracle>(&mut self, oracle: &mut O) -> (published: bool)
        requires
            old(self).wf(),
        ensures
            final(self).wf(),
            final(self)@.fee_rate == old(self)@.fee_rate,
            final(self)@.timestamp == old(self)@.timestamp,
            is_closure(old(self).pairs(), final(self).pairs(), published),
            published ==> final(self).pairs() == old(self).pairs(),
            kept_or_dropped_one(old(self).pairs(), final(self).pairs()),
            final(self).pairs().len() <= old(self).pairs().len(),
    {
        let ghost before = self.pairs();
        let ghost mut seen: Seq<UtxoState> = Seq::empty();
        let mut i: usize = 0;
        while i < self.transactions.len()
            invariant
                i <= self.transactions.len(),
                self@.fee_rate == old(self)@.fee_rate,
                self@.timestamp == old(self)@.timestamp,
                before == self.pairs(),
                before == old(self).pairs(),
                self.wf(),
                seen.len() == i,
                forall|j: int| 0 <= j < i ==> #[trigger] seen[j] == UtxoState::Unspent,
            decreases self.transactions.len() - i,
        {
            let state = utxo_status(oracle, &self.transactions[i].0.previous_output);
            let ghost states = seen.push(state) + Seq::new(
                (before.len() - i - 1) as nat,
                |j: int| UtxoState::Unspent,
            );
            match self.settle(i, state) {
                Some(next) => {
                    proof {
                        seen = seen.push(state);
                    }
                    i = next;
                },
                None => {
                    assert(states[i as int] == state);
                    assert(closes(before, states, false, self.pairs(), false));
                    return false;
                },
            }
        }
        let raw = self.create_group_transaction().encode();
        let reply = oracle.broadcast(&raw);
        let published = Group::taken(&reply);
        assert(closes(before, seen, published, self.pairs(), published));
        published
    }

    /// Takes the pairs of a transaction into the group and, once the group
    /// holds `max_size` pairs or more, tries to publish it. The result says
    /// whether it was published, and so has to leave the registry.
    pub fn add_tx<O: ChainOracle>(&mut self, oracle: &mut O, tx: &Transaction, max_size: usize) -> (closed:
        bool)
        requires
            old(self).wf(),
            encodable(tx@),
            tx@.input.len() <= tx@.output.len(),
        ensures
            final(self).wf(),
            final(self)@.fee_rate == old(self)@.fee_rate,
            final(self)@.timestamp == old(self)@.timestamp,
            closed ==> final(self).pairs() == old(self).pairs() + pairs_of(tx@),
            closed ==> final(self).pairs().len() >= max_size,
            old(self).pairs().len() + tx@.input.len() < max_size ==> !closed && final(self).pairs()
                == old(self).pairs() + pairs_of(tx@),
            old(self).pairs().len() + tx@.input.len() >= max_size ==> is_closure(
                old(self).pairs() + pairs_of(tx@),
                final(self).pairs(),
                closed,
            ),
            kept_or_dropped_one(old(self).pairs() + pairs_of(tx@), final(self).pairs()),
    {
        self.append(tx);
        assert(self.pairs().len() == old(self).pairs().len() + tx@.input.len());
        if self.transactions.len() >= max_size {
            self.close_group(oracle)
        } else {
            false
        }
    }
}

} // verus!
