//! The groups of a server, one for each bucket in use.

use crate::clock::unix_now;
use crate::config::Config;
use crate::fee::{bucket_of, exceeds_market, expired, has_expired, overpays, quantize};
use crate::group::{
    closure_drops_at_most_one, closure_may_fail, distinct_inputs, dropping_adds_nothing,
    dropping_keeps_distinct, is_closure, joining_adds_inputs, joining_keeps_distinct, pairs_of,
    spends, writable, Group, GroupView,
};
use crate::oracle::{ChainOracle, OracleError};
use crate::transaction::{
    encodable, OutPointView, Transaction, TransactionView, TxInView, TxOutView,
};
use crate::validation::{
    admitted_meets_every_rule, decode_transaction, decoded, is_verdict, validate_transaction,
    verdict, Rejection,
};
use vstd::prelude::*;
use vstd::string::StringSliceAdditionalSpecFns;

verus! {

/// Whether no two groups share a bucket.
pub open spec fn distinct_keys(groups: Seq<GroupView>) -> bool {
    forall|i: int, j: int|
        0 <= i < j < groups.len() ==> (#[trigger] groups[i]).fee_rate != (#[trigger] groups[j]).fee_rate
}

/// Whether no output is spent in more than one group.
pub open spec fn disjoint(groups: Seq<GroupView>) -> bool {
    forall|i: int, j: int, outpoint: OutPointView|
        0 <= i < groups.len() && 0 <= j < groups.len() && i != j && #[trigger] spends(
            groups[i].pairs,
            outpoint,
        ) ==> !#[trigger] spends(groups[j].pairs, outpoint)
}

/// Whether the codec can hold what each group publishes.
pub open spec fn all_writable(groups: Seq<GroupView>) -> bool {
    forall|g: int| 0 <= g < groups.len() ==> writable((#[trigger] groups[g]).pairs)
}

/// Whether a group has the given bucket.
pub open spec fn has_key(groups: Seq<GroupView>, key: u64) -> bool {
    exists|i: int| 0 <= i < groups.len() && (#[trigger] groups[i]).fee_rate == key
}

/// The position of the group with the given bucket.
pub open spec fn index_of(groups: Seq<GroupView>, key: u64) -> int {
    choose|i: int| 0 <= i < groups.len() && (#[trigger] groups[i]).fee_rate == key
}

/// Whether an input of the transaction spends what a pair in a group spends
/// already.
pub open spec fn double_spends(groups: Seq<GroupView>, tx: TransactionView) -> bool {
    exists|k: int, g: int|
        0 <= k < tx.input.len() && 0 <= g < groups.len() && spends(
            (#[trigger] groups[g]).pairs,
            (#[trigger] tx.input[k]).previous_output,
        )
}

/// Whether `after` is what an attempt to publish `before` can leave behind:
/// a group in the same bucket and of the same age, with the pairs that a
/// failed attempt leaves. An attempt can always leave the group as it was.
pub open spec fn descends(before: GroupView, after: GroupView) -> bool {
    &&& after.fee_rate == before.fee_rate
    &&& after.timestamp == before.timestamp
    &&& is_closure(before.pairs, after.pairs, false)
}

/// Whether no group holds more than `max_size` pairs.
pub open spec fn within_capacity(groups: Seq<GroupView>, max_size: usize) -> bool {
    forall|i: int| 0 <= i < groups.len() ==> (#[trigger] groups[i]).pairs.len() <= max_size
}

/// The groups once there is one for the given bucket: a new, empty group
/// comes last if there was none.
pub open spec fn with_bucket(groups: Seq<GroupView>, key: u64, now: i64) -> Seq<GroupView> {
    if has_key(groups, key) {
        groups
    } else {
        groups.push(GroupView { fee_rate: key, timestamp: now, pairs: Seq::empty() })
    }
}

/// How the groups change when a transaction is admitted to a bucket.
///
/// The pairs of the transaction join the group of the bucket, which is made
/// at `now` if there was none. Below `max_size` pairs nothing else happens.
/// From `max_size` on there was an attempt to publish the group: either it
/// was published (`closed`) and is gone, or it stays as the attempt left it.
/// No other group changes.
pub open spec fn placed(
    before: Seq<GroupView>,
    after: Seq<GroupView>,
    tx: TransactionView,
    key: u64,
    max_size: usize,
    now: i64,
    closed: bool,
) -> bool {
    let base = with_bucket(before, key, now);
    let at = index_of(base, key);
    let joined = base[at].pairs + pairs_of(tx);
    if closed {
        &&& after == base.remove(at)
        &&& joined.len() >= max_size
        &&& is_closure(joined, joined, true)
    } else {
        &&& after.len() == base.len()
        &&& after == base.update(at, after[at])
        &&& after[at].fee_rate == key
        &&& after[at].timestamp == base[at].timestamp
        &&& if joined.len() < max_size {
            after[at].pairs == joined
        } else {
            is_closure(joined, after[at].pairs, false)
        }
    }
}

/// What became of an admitted transaction.
#[derive(Clone, Copy, Debug, PartialEq, Eq, Structural)]
pub struct Admission {
    /// The fee rate that the transaction pays.
    pub fee_rate: u64,
    /// The bucket that it went to.
    pub bucket: u64,
    /// Whether its group was published with it, and left the registry.
    pub closed: bool,
}

/// Whether the rules let the transaction pass for some answers of the chain.
pub open spec fn passes(tx: TransactionView, dust_limit: u64) -> bool {
    exists|fee_rate: u64| #[trigger] is_verdict(tx, dust_limit, Ok(fee_rate))
}

/// How a registry answers a transaction in hexadecimal text, and what
/// becomes of its groups.
///
/// A text that holds no transaction is rejected as such. A transaction is
/// rejected with what the rules make of it for some answers of the chain,
/// or, where they let it pass, because one of its inputs is in a group
/// already.
/// A rejection changes nothing. Otherwise the transaction is placed in the
/// bucket of the fee rate that the rules found.
pub open spec fn admission(
    before: Seq<GroupView>,
    after: Seq<GroupView>,
    text: Seq<u8>,
    config: Config,
    now: i64,
    r: Result<Admission, Rejection>,
) -> bool {
    &&& r is Err ==> after == before
    &&& match decoded(text) {
        Err(e) => r == Err::<Admission, Rejection>(e),
        Ok(tx) => match r {
            Err(e) => if e == Rejection::AlreadyInGroup {
                double_spends(before, tx) && passes(tx, config.dust.limit)
            } else {
                is_verdict(tx, config.dust.limit, Err(e))
            },
            Ok(a) => {
                &&& is_verdict(tx, config.dust.limit, Ok(a.fee_rate))
                &&& !double_spends(before, tx)
                &&& a.bucket == bucket_of(a.fee_rate as nat, config.fee.range as nat)
                &&& placed(before, after, tx, a.bucket, config.group.max_size, now, a.closed)
            },
        },
    }
}

/// What makes a sweep try to close a group.
#[derive(Clone, Copy, Debug)]
pub enum Trigger {
    /// The group has reached the age `max_age` at the time `now`.
    Age { max_age: usize, now: i64 },
    /// The bucket of the group lies more than the drift margin above the
    /// market rate.
    Drift { market: i64 },
}

/// Whether a sweep tries to close the group.
pub open spec fn fires(trigger: Trigger, group: GroupView) -> bool {
    match trigger {
        Trigger::Age { max_age, now } => expired(group.timestamp, max_age, now),
        Trigger::Drift { market } => overpays(group.fee_rate, market),
    }
}

/// Whether a group is one of `before`, as it was or as a failed attempt to
/// publish it left it.
pub open spec fn stems_from(before: Seq<GroupView>, group: GroupView) -> bool {
    exists|m: int| 0 <= m < before.len() && descends(#[trigger] before[m], group)
}

/// One attempt of a sweep to close a group.
#[derive(Clone, Copy, Debug, PartialEq, Eq, Structural)]
pub struct Attempt {
    /// The bucket of the group.
    pub bucket: u64,
    /// Whether the group was published, and left the registry.
    pub published: bool,
}

/// What a sweep made of one group.
pub enum Fate {
    /// The group was not due and stays as it was.
    Kept,
    /// The group was due and the attempt to publish it failed: it stays,
    /// with these pairs.
    Left { pairs: Seq<(TxInView, TxOutView)> },
    /// The group was due and was published: it is gone.
    Gone,
}

/// Whether a fate can be that of the group in a sweep: a group is tried
/// exactly if it is due, and what is left of it is what an attempt to
/// publish it leaves.
pub open spec fn befits(trigger: Trigger, group: GroupView, fate: Fate) -> bool {
    match fate {
        Fate::Kept => !fires(trigger, group),
        Fate::Left { pairs } => fires(trigger, group) && is_closure(group.pairs, pairs, false),
        Fate::Gone => fires(trigger, group) && is_closure(group.pairs, group.pairs, true),
    }
}

/// The groups that are left when each group meets its fate, in the order
/// they had.
pub open spec fn outcome(before: Seq<GroupView>, fates: Seq<Fate>) -> Seq<GroupView>
    decreases before.len(),
{
    if before.len() == 0 || fates.len() == 0 {
        Seq::empty()
    } else {
        let rest = outcome(before.drop_last(), fates.drop_last());
        match fates.last() {
            Fate::Kept => rest.push(before.last()),
            Fate::Left { pairs } => rest.push(
                GroupView {
                    fee_rate: before.last().fee_rate,
                    timestamp: before.last().timestamp,
                    pairs,
                },
            ),
            Fate::Gone => rest,
        }
    }
}

/// The attempts that were made when each group met its fate, in the order of
/// the groups.
pub open spec fn attempts_of(before: Seq<GroupView>, fates: Seq<Fate>) -> Seq<Attempt>
    decreases before.len(),
{
    if before.len() == 0 || fates.len() == 0 {
        Seq::empty()
    } else {
        let rest = attempts_of(before.drop_last(), fates.drop_last());
        match fates.last() {
            Fate::Kept => rest,
            Fate::Left { pairs } => rest.push(
                Attempt { bucket: before.last().fee_rate, published: false },
            ),
            Fate::Gone => rest.push(Attempt { bucket: before.last().fee_rate, published: true }),
        }
    }
}

/// Whether the groups `before` become `after` in a sweep in which they meet
/// the given fates, with the given attempts.
pub open spec fn swept_as(
    before: Seq<GroupView>,
    fates: Seq<Fate>,
    trigger: Trigger,
    after: Seq<GroupView>,
    attempts: Seq<Attempt>,
) -> bool {
    &&& fates.len() == before.len()
    &&& forall|m: int| 0 <= m < before.len() ==> befits(trigger, before[m], #[trigger] fates[m])
    &&& after == outcome(before, fates)
    &&& attempts == attempts_of(before, fates)
}

/// How the groups change in a sweep, and what it reports.
///
/// The groups are gone through in order. One that is not due stays as it
/// was. For each one that is due there is one attempt to publish it, which
/// is reported with the group's bucket: a group that was published is gone,
/// one that was not stays where it was, as the attempt left it.
pub open spec fn swept(
    before: Seq<GroupView>,
    after: Seq<GroupView>,
    trigger: Trigger,
    attempts: Seq<Attempt>,
) -> bool {
    exists|fates: Seq<Fate>| #[trigger] swept_as(before, fates, trigger, after, attempts)
}

/// How the groups change in a sweep by fee rate that first asks the chain
/// for the market rate: without an estimate nothing changes and nothing is
/// tried; with one, the groups are swept against it.
pub open spec fn swept_by_fee(
    before: Seq<GroupView>,
    after: Seq<GroupView>,
    attempts: Seq<Attempt>,
) -> bool {
    (after == before && attempts.len() == 0) || exists|market: i64|
        #[trigger] swept(before, after, Trigger::Drift { market }, attempts)
}

/// How the groups change in one round of the sweeper: a sweep by age, and
/// on what it leaves a sweep by fee rate.
pub open spec fn swept_in_a_round(
    before: Seq<GroupView>,
    after: Seq<GroupView>,
    max_age: usize,
    now: i64,
    by_age: Seq<Attempt>,
    by_fee: Seq<Attempt>,
) -> bool {
    exists|aged: Seq<GroupView>|
        #[trigger] swept(before, aged, Trigger::Age { max_age, now }, by_age) && swept_by_fee(
            aged,
            after,
            by_fee,
        )
}

/// Meeting one more fate: what is left and what was tried grow by what the
/// last group brings.
pub proof fn outcome_step(before: Seq<GroupView>, fates: Seq<Fate>, group: GroupView, fate: Fate)
    requires
        fates.len() == before.len(),
    ensures
        outcome(before.push(group), fates.push(fate)) == match fate {
            Fate::Kept => outcome(before, fates).push(group),
            Fate::Left { pairs } => outcome(before, fates).push(
                GroupView { fee_rate: group.fee_rate, timestamp: group.timestamp, pairs },
            ),
            Fate::Gone => outcome(before, fates),
        },
        attempts_of(before.push(group), fates.push(fate)) == match fate {
            Fate::Kept => attempts_of(before, fates),
            Fate::Left { pairs } => attempts_of(before, fates).push(
                Attempt { bucket: group.fee_rate, published: false },
            ),
            Fate::Gone => attempts_of(before, fates).push(
                Attempt { bucket: group.fee_rate, published: true },
            ),
        },
{
    assert(before.push(group).drop_last() =~= before);
    assert(fates.push(fate).drop_last() =~= fates);
}

/// Every group that a sweep leaves was there before, as it was or as a
/// failed attempt left it; no more groups are left than there were, and no
/// more attempts made.
pub proof fn outcome_stems(before: Seq<GroupView>, fates: Seq<Fate>, trigger: Trigger)
    requires
        fates.len() == before.len(),
        forall|m: int| 0 <= m < before.len() ==> befits(trigger, before[m], #[trigger] fates[m]),
    ensures
        outcome(before, fates).len() <= before.len(),
        attempts_of(before, fates).len() <= before.len(),
        forall|j: int|
            0 <= j < outcome(before, fates).len() ==> stems_from(
                before,
                #[trigger] outcome(before, fates)[j],
            ),
    decreases before.len(),
{
    if before.len() > 0 {
        let head = before.drop_last();
        let first = fates.drop_last();
        assert forall|m: int| 0 <= m < head.len() implies befits(
            trigger,
            head[m],
            #[trigger] first[m],
        ) by {
            assert(head[m] == before[m] && first[m] == fates[m]);
        }
        outcome_stems(head, first, trigger);
        let rest = outcome(head, first);
        let all = outcome(before, fates);
        let last = before.len() - 1;
        assert(befits(trigger, before[last], fates[last]));
        assert forall|j: int| 0 <= j < all.len() implies stems_from(before, #[trigger] all[j]) by {
            if j < rest.len() {
                assert(all[j] == rest[j]);
                let m = choose|m: int| 0 <= m < head.len() && descends(#[trigger] head[m], rest[j]);
                assert(head[m] == before[m]);
                assert(descends(before[m], all[j]));
            } else {
                if fates[last] is Kept {
                    closure_may_fail(before[last].pairs);
                }
                assert(descends(before[last], all[j]));
            }
        }
    }
}

/// A sweep in which no group is due leaves the groups as they were, and
/// tries nothing.
pub proof fn sweep_without_due_groups(
    before: Seq<GroupView>,
    after: Seq<GroupView>,
    trigger: Trigger,
    attempts: Seq<Attempt>,
)
    requires
        swept(before, after, trigger, attempts),
        forall|m: int| 0 <= m < before.len() ==> !fires(trigger, #[trigger] before[m]),
    ensures
        after == before,
        attempts.len() == 0,
{
    let fates = choose|fates: Seq<Fate>| #[trigger] swept_as(before, fates, trigger, after, attempts);
    all_kept(before, fates, trigger);
}

proof fn all_kept(before: Seq<GroupView>, fates: Seq<Fate>, trigger: Trigger)
    requires
        fates.len() == before.len(),
        forall|m: int| 0 <= m < before.len() ==> befits(trigger, before[m], #[trigger] fates[m]),
        forall|m: int| 0 <= m < before.len() ==> !fires(trigger, #[trigger] before[m]),
    ensures
        outcome(before, fates) == before,
        attempts_of(before, fates).len() == 0,
    decreases before.len(),
{
    if before.len() > 0 {
        let head = before.drop_last();
        let first = fates.drop_last();
        assert forall|m: int| 0 <= m < head.len() implies befits(
            trigger,
            head[m],
            #[trigger] first[m],
        ) && !fires(trigger, #[trigger] head[m]) by {
            assert(head[m] == before[m] && first[m] == fates[m]);
        }
        all_kept(head, first, trigger);
        let last = before.len() - 1;
        assert(befits(trigger, before[last], fates[last]));
        assert(!fires(trigger, before[last]));
        assert(outcome(before, fates) =~= before);
    } else {
        assert(outcome(before, fates) =~= before);
    }
}

/// Whether a group in the given bucket stays when the groups meet their
/// fates.
pub open spec fn stays(before: Seq<GroupView>, fates: Seq<Fate>, key: u64) -> bool {
    exists|m: int|
        0 <= m < before.len() && !(#[trigger] fates[m] is Gone) && before[m].fee_rate == key
}

/// Whether an attempt is that of a group that was tried, with its bucket and
/// with what became of it.
pub open spec fn accounts_for(before: Seq<GroupView>, fates: Seq<Fate>, attempt: Attempt) -> bool {
    exists|m: int|
        0 <= m < before.len() && !(#[trigger] fates[m] is Kept) && before[m].fee_rate
            == attempt.bucket && (attempt.published <==> fates[m] is Gone)
}

proof fn fates_decide(before: Seq<GroupView>, fates: Seq<Fate>)
    requires
        fates.len() == before.len(),
    ensures
        forall|j: int|
            0 <= j < outcome(before, fates).len() ==> stays(
                before,
                fates,
                (#[trigger] outcome(before, fates)[j]).fee_rate,
            ),
        forall|a: int|
            0 <= a < attempts_of(before, fates).len() ==> accounts_for(
                before,
                fates,
                #[trigger] attempts_of(before, fates)[a],
            ),
        forall|m: int|
            0 <= m < before.len() && !(#[trigger] fates[m] is Gone) ==> has_key(
                outcome(before, fates),
                before[m].fee_rate,
            ),
    decreases before.len(),
{
    if before.len() > 0 {
        let head = before.drop_last();
        let first = fates.drop_last();
        fates_decide(head, first);
        let rest = outcome(head, first);
        let all = outcome(before, fates);
        let tried = attempts_of(head, first);
        let every = attempts_of(before, fates);
        let last = before.len() - 1;
        assert forall|j: int| 0 <= j < all.len() implies stays(
            before,
            fates,
            (#[trigger] all[j]).fee_rate,
        ) by {
            if j < rest.len() {
                assert(all[j] == rest[j]);
                let m = choose|m: int|
                    0 <= m < head.len() && !(#[trigger] first[m] is Gone) && head[m].fee_rate
                        == rest[j].fee_rate;
                assert(first[m] == fates[m] && head[m] == before[m]);
            } else {
                assert(!(fates[last] is Gone));
                assert(all[j].fee_rate == before[last].fee_rate);
            }
        }
        assert forall|a: int| 0 <= a < every.len() implies accounts_for(
            before,
            fates,
            #[trigger] every[a],
        ) by {
            if a < tried.len() {
                assert(every[a] == tried[a]);
                let m = choose|m: int|
                    0 <= m < head.len() && !(#[trigger] first[m] is Kept) && head[m].fee_rate
                        == tried[a].bucket && (tried[a].published <==> first[m] is Gone);
                assert(first[m] == fates[m] && head[m] == before[m]);
            } else {
                assert(!(fates[last] is Kept));
                assert(every[a].bucket == before[last].fee_rate);
            }
        }
        assert forall|m: int| 0 <= m < before.len() && !(#[trigger] fates[m] is Gone) implies has_key(
            all,
            before[m].fee_rate,
        ) by {
            if m < last {
                assert(first[m] == fates[m] && head[m] == before[m]);
                assert(!(first[m] is Gone));
                let j = choose|j: int|
                    0 <= j < rest.len() && (#[trigger] rest[j]).fee_rate == head[m].fee_rate;
                assert(all[j] == rest[j]);
            } else {
                assert(all[all.len() - 1].fee_rate == before[last].fee_rate);
            }
        }
    }
}

/// After a sweep a group that was published is gone from the registry, and
/// one that was tried without success is still there: an attempt is
/// reported as published exactly if no group is left in its bucket.
pub proof fn published_groups_are_gone(
    before: Seq<GroupView>,
    after: Seq<GroupView>,
    trigger: Trigger,
    attempts: Seq<Attempt>,
)
    requires
        distinct_keys(before),
        swept(before, after, trigger, attempts),
    ensures
        forall|a: int|
            0 <= a < attempts.len() ==> ((#[trigger] attempts[a]).published <==> !has_key(
                after,
                attempts[a].bucket,
            )),
{
    let fates = choose|fates: Seq<Fate>| #[trigger] swept_as(before, fates, trigger, after, attempts);
    fates_decide(before, fates);
    assert forall|a: int| 0 <= a < attempts.len() implies ((#[trigger] attempts[a]).published
        <==> !has_key(after, attempts[a].bucket)) by {
        let key = attempts[a].bucket;
        assert(accounts_for(before, fates, attempts[a]));
        let m = choose|m: int|
            0 <= m < before.len() && !(#[trigger] fates[m] is Kept) && before[m].fee_rate == key && (
            attempts[a].published <==> fates[m] is Gone);
        if attempts[a].published {
            if has_key(after, key) {
                let j = choose|j: int| 0 <= j < after.len() && (#[trigger] after[j]).fee_rate == key;
                assert(stays(before, fates, after[j].fee_rate));
                let other = choose|other: int|
                    0 <= other < before.len() && !(#[trigger] fates[other] is Gone)
                        && before[other].fee_rate == key;
                assert(other != m);
                if other < m {
                    assert(before[other].fee_rate != before[m].fee_rate);
                } else {
                    assert(before[m].fee_rate != before[other].fee_rate);
                }
            }
        } else {
            assert(!(fates[m] is Gone));
        }
    }
}

/// In a sweep exactly the groups that are due are tried: each of them has
/// an attempt under its bucket, and every attempt is that of a group that
/// was due.
pub proof fn the_due_are_tried(
    before: Seq<GroupView>,
    after: Seq<GroupView>,
    trigger: Trigger,
    attempts: Seq<Attempt>,
)
    requires
        swept(before, after, trigger, attempts),
    ensures
        forall|m: int|
            0 <= m < before.len() && fires(trigger, #[trigger] before[m]) ==> exists|a: int|
                0 <= a < attempts.len() && (#[trigger] attempts[a]).bucket == before[m].fee_rate,
        forall|a: int|
            0 <= a < attempts.len() ==> exists|m: int|
                0 <= m < before.len() && fires(trigger, #[trigger] before[m]) && before[m].fee_rate
                    == (#[trigger] attempts[a]).bucket,
{
    let fates = choose|fates: Seq<Fate>| #[trigger] swept_as(before, fates, trigger, after, attempts);
    tried_by_fate(before, fates, trigger);
}

proof fn tried_by_fate(before: Seq<GroupView>, fates: Seq<Fate>, trigger: Trigger)
    requires
        fates.len() == before.len(),
        forall|m: int| 0 <= m < before.len() ==> befits(trigger, before[m], #[trigger] fates[m]),
    ensures
        forall|m: int|
            0 <= m < before.len() && fires(trigger, #[trigger] before[m]) ==> exists|a: int|
                0 <= a < attempts_of(before, fates).len() && (#[trigger] attempts_of(
                    before,
                    fates,
                )[a]).bucket == before[m].fee_rate,
        forall|a: int|
            0 <= a < attempts_of(before, fates).len() ==> exists|m: int|
                0 <= m < before.len() && fires(trigger, #[trigger] before[m]) && before[m].fee_rate
                    == (#[trigger] attempts_of(before, fates)[a]).bucket,
    decreases before.len(),
{
    if before.len() > 0 {
        let head = before.drop_last();
        let first = fates.drop_last();
        assert forall|m: int| 0 <= m < head.len() implies befits(
            trigger,
            head[m],
            #[trigger] first[m],
        ) by {
            assert(head[m] == before[m] && first[m] == fates[m]);
        }
        tried_by_fate(head, first, trigger);
        let rest = attempts_of(head, first);
        let all = attempts_of(before, fates);
        let last = before.len() - 1;
        assert(befits(trigger, before[last], fates[last]));
        assert forall|m: int| 0 <= m < before.len() && fires(
            trigger,
            #[trigger] before[m],
        ) implies exists|a: int|
            0 <= a < all.len() && (#[trigger] all[a]).bucket == before[m].fee_rate by {
            if m < last {
                assert(head[m] == before[m]);
                assert(fires(trigger, head[m]));
                let a = choose|a: int|
                    0 <= a < rest.len() && (#[trigger] rest[a]).bucket == head[m].fee_rate;
                assert(all[a] == rest[a]);
            } else {
                assert(all[all.len() - 1].bucket == before[last].fee_rate);
            }
        }
        assert forall|a: int| 0 <= a < all.len() implies exists|m: int|
            0 <= m < before.len() && fires(trigger, #[trigger] before[m]) && before[m].fee_rate == (
            #[trigger] all[a]).bucket by {
            if a < rest.len() {
                assert(all[a] == rest[a]);
                let m = choose|m: int|
                    0 <= m < head.len() && fires(trigger, #[trigger] head[m]) && head[m].fee_rate
                        == rest[a].bucket;
                assert(head[m] == before[m]);
                assert(fires(trigger, before[m]));
            } else {
                assert(fires(trigger, before[last]));
            }
        }
    }
}

/// What a registry tells of one group.
#[derive(Clone, Copy, Debug, PartialEq, Eq, Structural)]
pub struct GroupInfo {
    pub fee_rate: u64,
    pub size: usize,
    pub max_size: usize,
    pub timestamp: i64,
}

/// Taking a group away leaves the buckets distinct and the groups disjoint.
proof fn removal_keeps_consistency(groups: Seq<GroupView>, at: int)
    requires
        distinct_keys(groups),
        disjoint(groups),
        0 <= at < groups.len(),
    ensures
        distinct_keys(groups.remove(at)),
        disjoint(groups.remove(at)),
{
    let rest = groups.remove(at);
    assert forall|i: int, j: int| 0 <= i < j < rest.len() implies (#[trigger] rest[i]).fee_rate != (
    #[trigger] rest[j]).fee_rate by {
        let a = if i < at { i } else { i + 1 };
        let b = if j < at { j } else { j + 1 };
        assert(rest[i] == groups[a] && rest[j] == groups[b]);
    }
    assert forall|i: int, j: int, outpoint: OutPointView|
        0 <= i < rest.len() && 0 <= j < rest.len() && i != j && #[trigger] spends(
            rest[i].pairs,
            outpoint,
        ) implies !#[trigger] spends(rest[j].pairs, outpoint) by {
        let a = if i < at { i } else { i + 1 };
        let b = if j < at { j } else { j + 1 };
        assert(rest[i] == groups[a] && rest[j] == groups[b]);
        assert(spends(groups[a].pairs, outpoint));
    }
}

/// Replacing a group by one in the same bucket that spends nothing which
/// another group spends leaves the buckets distinct and the groups disjoint.
proof fn replacement_keeps_consistency(groups: Seq<GroupView>, at: int, group: GroupView)
    requires
        distinct_keys(groups),
        disjoint(groups),
        0 <= at < groups.len(),
        group.fee_rate == groups[at].fee_rate,
        forall|j: int, outpoint: OutPointView|
            0 <= j < groups.len() && j != at && spends(group.pairs, outpoint) ==> !#[trigger] spends(
                groups[j].pairs,
                outpoint,
            ),
    ensures
        distinct_keys(groups.update(at, group)),
        disjoint(groups.update(at, group)),
{
    let next = groups.update(at, group);
    assert forall|i: int, j: int| 0 <= i < j < next.len() implies (#[trigger] next[i]).fee_rate != (
    #[trigger] next[j]).fee_rate by {
        assert(next[i].fee_rate == groups[i].fee_rate && next[j].fee_rate == groups[j].fee_rate);
    }
    assert forall|i: int, j: int, outpoint: OutPointView|
        0 <= i < next.len() && 0 <= j < next.len() && i != j && #[trigger] spends(
            next[i].pairs,
            outpoint,
        ) implies !#[trigger] spends(next[j].pairs, outpoint) by {
        if i == at {
            assert(next[j] == groups[j]);
            assert(spends(group.pairs, outpoint));
            assert(!spends(groups[j].pairs, outpoint));
        } else if j == at {
            assert(next[i] == groups[i]);
            assert(spends(groups[i].pairs, outpoint));
            if spends(group.pairs, outpoint) {
                assert(!spends(groups[i].pairs, outpoint));
            }
        } else {
            assert(next[i] == groups[i] && next[j] == groups[j]);
            assert(spends(groups[i].pairs, outpoint));
            assert(!spends(groups[j].pairs, outpoint));
        }
    }
}

/// A new, empty group in a bucket that was not in use leaves the buckets
/// distinct and the groups disjoint.
proof fn empty_group_keeps_consistency(groups: Seq<GroupView>, group: GroupView)
    requires
        distinct_keys(groups),
        disjoint(groups),
        !has_key(groups, group.fee_rate),
        group.pairs.len() == 0,
    ensures
        distinct_keys(groups.push(group)),
        disjoint(groups.push(group)),
{
    let next = groups.push(group);
    assert forall|i: int, j: int| 0 <= i < j < next.len() implies (#[trigger] next[i]).fee_rate != (
    #[trigger] next[j]).fee_rate by {
        assert(next[i] == groups[i]);
        if j < groups.len() {
            assert(next[j] == groups[j]);
        }
    }
    assert forall|i: int, j: int, outpoint: OutPointView|
        0 <= i < next.len() && 0 <= j < next.len() && i != j && #[trigger] spends(
            next[i].pairs,
            outpoint,
        ) implies !#[trigger] spends(next[j].pairs, outpoint) by {
        if i < groups.len() && j < groups.len() {
            assert(next[i] == groups[i] && next[j] == groups[j]);
            assert(spends(groups[i].pairs, outpoint));
            assert(!spends(groups[j].pairs, outpoint));
        } else if i == groups.len() {
            assert(next[i] == group);
            assert(!spends(group.pairs, outpoint));
        } else {
            assert(next[j] == group);
            assert(!spends(group.pairs, outpoint));
        }
    }
}

/// After a transaction was admitted no group holds more than `max_size`
/// pairs, if none did before, unless the group it went to was full already
/// and stays: then the group holds more. It stays when the chain does not
/// take what it published, or gives no answer for a pair; and it is only
/// back at `max_size` if it was one pair over and the chain found a pair
/// spent.
pub proof fn admission_keeps_capacity(
    before: Seq<GroupView>,
    after: Seq<GroupView>,
    tx: TransactionView,
    key: u64,
    max_size: usize,
    now: i64,
    closed: bool,
)
    requires
        distinct_keys(before),
        within_capacity(before, max_size),
        placed(before, after, tx, key, max_size, now, closed),
        ({
            let base = with_bucket(before, key, now);
            let joined = base[index_of(base, key)].pairs + pairs_of(tx);
            ||| closed
            ||| joined.len() <= max_size
            ||| joined.len() == max_size + 1 && after[index_of(base, key)].pairs != joined
        }),
    ensures
        within_capacity(after, max_size),
{
    let base = with_bucket(before, key, now);
    let at = index_of(base, key);
    let joined = base[at].pairs + pairs_of(tx);
    if !has_key(before, key) {
        assert(base[before.len() as int].fee_rate == key);
    }
    assert(0 <= at < base.len());
    assert forall|i: int| 0 <= i < base.len() && i != at implies (#[trigger] base[i]).pairs.len()
        <= max_size by {
        if i < before.len() {
            assert(base[i] == before[i]);
        }
    }
    assert forall|i: int| 0 <= i < after.len() implies (#[trigger] after[i]).pairs.len()
        <= max_size by {
        if closed {
            let a = if i < at { i } else { i + 1 };
            assert(after[i] == base[a]);
        } else if i != at {
            assert(after[i] == base[i]);
        } else {
            if joined.len() >= max_size {
                closure_drops_at_most_one(joined, after[at].pairs, false);
            }
            if after[at].pairs != joined {
                let k = choose|k: int|
                    0 <= k < joined.len() && after[at].pairs == #[trigger] joined.remove(k);
                assert(after[at].pairs.len() == joined.len() - 1);
            }
        }
    }
}

/// Whether no group holds two pairs that spend the same output.
pub open spec fn pairs_distinct(groups: Seq<GroupView>) -> bool {
    forall|g: int| 0 <= g < groups.len() ==> distinct_inputs((#[trigger] groups[g]).pairs)
}

/// After a transaction was admitted no group holds two pairs that spend the
/// same output, if none did before and the inputs of the transaction spend
/// different outputs. A transaction that spends one output twice is not held
/// back by any rule, and brings two such pairs.
pub proof fn admission_keeps_pairs_distinct(
    before: Seq<GroupView>,
    after: Seq<GroupView>,
    tx: TransactionView,
    key: u64,
    max_size: usize,
    now: i64,
    closed: bool,
)
    requires
        pairs_distinct(before),
        distinct_inputs(pairs_of(tx)),
        !double_spends(before, tx),
        placed(before, after, tx, key, max_size, now, closed),
    ensures
        pairs_distinct(after),
{
    let base = with_bucket(before, key, now);
    let at = index_of(base, key);
    let joined = base[at].pairs + pairs_of(tx);
    if !has_key(before, key) {
        assert(base[before.len() as int].fee_rate == key);
    }
    assert(0 <= at < base.len());
    assert forall|g: int| 0 <= g < base.len() implies distinct_inputs(
        (#[trigger] base[g]).pairs,
    ) by {
        if g < before.len() {
            assert(base[g] == before[g]);
        }
    }
    assert forall|g: int| 0 <= g < after.len() implies distinct_inputs(
        (#[trigger] after[g]).pairs,
    ) by {
        if closed {
            let a = if g < at { g } else { g + 1 };
            assert(after[g] == base[a]);
        } else if g != at {
            assert(after[g] == base[g]);
        } else {
            assert forall|k: int| 0 <= k < tx.input.len() implies !spends(
                base[at].pairs,
                (#[trigger] tx.input[k]).previous_output,
            ) by {
                if at < before.len() {
                    assert(base[at] == before[at]);
                    assert(!spends(before[at].pairs, tx.input[k].previous_output));
                }
            }
            joining_keeps_distinct(base[at].pairs, tx);
            if joined.len() >= max_size {
                closure_drops_at_most_one(joined, after[at].pairs, false);
            }
            dropping_keeps_distinct(joined, after[at].pairs);
        }
    }
}

/// A sweep leaves no group with two pairs that spend the same output, if
/// none had two before.
pub proof fn sweep_keeps_pairs_distinct(
    before: Seq<GroupView>,
    after: Seq<GroupView>,
    trigger: Trigger,
    attempts: Seq<Attempt>,
)
    requires
        pairs_distinct(before),
        swept(before, after, trigger, attempts),
    ensures
        pairs_distinct(after),
{
    let fates = choose|fates: Seq<Fate>| #[trigger] swept_as(before, fates, trigger, after, attempts);
    outcome_stems(before, fates, trigger);
    assert forall|g: int| 0 <= g < after.len() implies distinct_inputs(
        (#[trigger] after[g]).pairs,
    ) by {
        assert(stems_from(before, after[g]));
        let m = choose|m: int| 0 <= m < before.len() && descends(#[trigger] before[m], after[g]);
        closure_drops_at_most_one(before[m].pairs, after[g].pairs, false);
        dropping_keeps_distinct(before[m].pairs, after[g].pairs);
    }
}

/// A sweep leaves no group with more than `max_size` pairs, if none had more
/// before.
pub proof fn sweep_keeps_capacity(
    before: Seq<GroupView>,
    after: Seq<GroupView>,
    trigger: Trigger,
    attempts: Seq<Attempt>,
    max_size: usize,
)
    requires
        within_capacity(before, max_size),
        swept(before, after, trigger, attempts),
    ensures
        within_capacity(after, max_size),
{
    let fates = choose|fates: Seq<Fate>| #[trigger] swept_as(before, fates, trigger, after, attempts);
    outcome_stems(before, fates, trigger);
    assert forall|j: int| 0 <= j < after.len() implies (#[trigger] after[j]).pairs.len()
        <= max_size by {
        assert(stems_from(before, after[j]));
        let m = choose|m: int| 0 <= m < before.len() && descends(#[trigger] before[m], after[j]);
        closure_drops_at_most_one(before[m].pairs, after[j].pairs, false);
    }
}

/// The groups of a server, in the order in which their buckets came into
/// use.
pub struct Registry {
    groups: Vec<Group>,
}

impl View for Registry {
    type V = Seq<GroupView>;

    closed spec fn view(&self) -> Seq<GroupView> {
        Seq::new(self.groups@.len(), |i: int| self.groups@[i]@)
    }
}

impl Registry {
    /// Whether no two groups share a bucket, no output is spent in more
    /// than one group, and the codec can hold what each group publishes.
    pub open spec fn wf(&self) -> bool {
        distinct_keys(self@) && disjoint(self@) && all_writable(self@)
    }

    /// A registry without groups.
    pub fn new() -> (registry: Registry)
        ensures
            registry@ == Seq::<GroupView>::empty(),
            registry.wf(),
    {
        let registry = Registry { groups: Vec::new() };
        assert(registry@ =~= Seq::<GroupView>::empty());
        registry
    }

    /// The number of groups.
    pub fn len(&self) -> (n: usize)
        ensures
            n == self@.len(),
    {
        self.groups.len()
    }

    /// The group at a position.
    pub fn group(&self, at: usize) -> (group: &Group)
        requires
            at < self@.len(),
        ensures
            group@ == self@[at as int],
    {
        &self.groups[at]
    }

    /// The position of the group with the given bucket.
    pub fn find(&self, key: u64) -> (at: Option<usize>)
        ensures
            at is Some <==> has_key(self@, key),
            at matches Some(i) ==> i < self@.len() && self@[i as int].fee_rate == key,
    {
        let mut i: usize = 0;
        while i < self.groups.len()
            invariant
                i <= self.groups.len(),
                forall|j: int| 0 <= j < i ==> (#[trigger] self@[j]).fee_rate != key,
            decreases self.groups.len() - i,
        {
            if self.groups[i].key() == key {
                assert(self@[i as int].fee_rate == key);
                return Some(i);
            }
            i += 1;
        }
        None
    }

    /// Whether an input of the transaction is in a group already.
    pub fn check_double_spending_other_group(&self, tx: &Transaction) -> (found: bool)
        ensures
            found == double_spends(self@, tx@),
    {
        let mut k: usize = 0;
        while k < tx.input.len()
            invariant
                k <= tx.input.len(),
                forall|a: int, g: int|
                    0 <= a < k && 0 <= g < self@.len() ==> !spends(
                        (#[trigger] self@[g]).pairs,
                        (#[trigger] tx@.input[a]).previous_output,
                    ),
            decreases tx.input.len() - k,
        {
            let mut g: usize = 0;
            while g < self.groups.len()
                invariant
                    g <= self.groups.len(),
                    k < tx.input.len(),
                    forall|b: int|
                        0 <= b < g ==> !spends(
                            (#[trigger] self@[b]).pairs,
                            tx@.input[k as int].previous_output,
                        ),
                decreases self.groups.len() - g,
            {
                if self.groups[g].contains_txin(&tx.input[k]) {
                    assert(spends(self@[g as int].pairs, tx@.input[k as int].previous_output));
                    return true;
                }
                g += 1;
            }
            k += 1;
        }
        false
    }

    /// Tries to publish the group at a position, and takes it out of the
    /// registry if the chain took the transaction. Otherwise the group stays
    /// where it is, with the pairs it had or with one fewer.
    pub fn close_at<O: ChainOracle>(&mut self, oracle: &mut O, at: usize) -> (published: bool)
        requires
            old(self).wf(),
            at < old(self)@.len(),
        ensures
            final(self).wf(),
            published ==> final(self)@ == old(self)@.remove(at as int) && is_closure(
                old(self)@[at as int].pairs,
                old(self)@[at as int].pairs,
                true,
            ),
            !published ==> final(self)@.len() == old(self)@.len() && descends(
                old(self)@[at as int],
                final(self)@[at as int],
            ) && final(self)@ == old(self)@.update(at as int, final(self)@[at as int]),
            !published ==> final(self)@[at as int].pairs.len() <= old(self)@[at as int].pairs.len(),
    {
        let ghost before = self@;
        assert(self.groups@[at as int].pairs() == before[at as int].pairs);
        let published = self.groups[at].close_group(oracle);
        let ghost left = self@[at as int];
        assert(self@ =~= before.update(at as int, left));
        proof {
            dropping_adds_nothing(before[at as int].pairs, left.pairs);
            replacement_keeps_consistency(before, at as int, left);
        }
        if published {
            self.groups.remove(at);
            assert(self@ =~= before.remove(at as int));
            proof {
                assert(before.update(at as int, left) =~= before);
                removal_keeps_consistency(before, at as int);
            }
        }
        published
    }

    /// Puts an admitted transaction into the group of its bucket, making the
    /// group if there is none, and takes the group out of the registry if
    /// that filled it and the chain took what it published.
    pub fn place<O: ChainOracle>(
        &mut self,
        oracle: &mut O,
        tx: &Transaction,
        key: u64,
        max_size: usize,
        now: i64,
    ) -> (closed: bool)
        requires
            old(self).wf(),
            encodable(tx@),
            tx@.input.len() <= tx@.output.len(),
            !double_spends(old(self)@, tx@),
        ensures
            final(self).wf(),
            placed(old(self)@, final(self)@, tx@, key, max_size, now, closed),
    {
        let ghost before = self@;
        let ghost base = with_bucket(before, key, now);
        let at = match self.find(key) {
            Some(i) => i,
            None => {
                let group = Group::created_at(key, now);
                proof {
                    empty_group_keeps_consistency(before, group@);
                }
                self.groups.push(group);
                self.groups.len() - 1
            },
        };
        assert(self@ =~= base);
        assert(base[at as int].fee_rate == key);
        assert(index_of(base, key) == at);
        assert(!double_spends(base, tx@)) by {
            if double_spends(base, tx@) {
                let (k, g) = choose|k: int, g: int|
                    0 <= k < tx@.input.len() && 0 <= g < base.len() && spends(
                        (#[trigger] base[g]).pairs,
                        (#[trigger] tx@.input[k]).previous_output,
                    );
                if g < before.len() {
                    assert(base[g] == before[g]);
                    assert(spends(before[g].pairs, tx@.input[k].previous_output));
                }
            }
        }
        let ghost joined = base[at as int].pairs + pairs_of(tx@);
        let closed = self.groups[at].add_tx(oracle, tx, max_size);
        let ghost grown = self@[at as int];
        assert(self@ =~= base.update(at as int, grown));
        proof {
            dropping_adds_nothing(joined, grown.pairs);
            assert forall|j: int, outpoint: OutPointView|
                0 <= j < base.len() && j != at && spends(
                    grown.pairs,
                    outpoint,
                ) implies !#[trigger] spends(base[j].pairs, outpoint) by {
                joining_adds_inputs(base[at as int].pairs, tx@, outpoint);
                if !spends(base[at as int].pairs, outpoint) {
                    let k = choose|k: int|
                        0 <= k < tx@.input.len() && (#[trigger] tx@.input[k]).previous_output
                            == outpoint;
                    assert(!spends(base[j].pairs, tx@.input[k].previous_output));
                }
            }
            replacement_keeps_consistency(base, at as int, grown);
        }
        if closed {
            self.groups.remove(at);
            assert(self@ =~= base.update(at as int, grown).remove(at as int));
            assert(base.update(at as int, grown).remove(at as int) =~= base.remove(at as int));
            proof {
                removal_keeps_consistency(base.update(at as int, grown), at as int);
            }
        }
        closed
    }

    /// What becomes of a transaction that passed the rules with the given
    /// fee rate: if one of its inputs is in a group already it is rejected
    /// and nothing changes; otherwise it is placed in the bucket of its fee
    /// rate.
    pub fn take<O: ChainOracle>(
        &mut self,
        oracle: &mut O,
        config: &Config,
        tx: &Transaction,
        fee_rate: u64,
        now: i64,
    ) -> (r: Result<Admission, Rejection>)
        requires
            old(self).wf(),
            encodable(tx@),
            tx@.input.len() <= tx@.output.len(),
        ensures
            final(self).wf(),
            double_spends(old(self)@, tx@) ==> r == Err::<Admission, Rejection>(
                Rejection::AlreadyInGroup,
            ) && final(self)@ == old(self)@,
            !double_spends(old(self)@, tx@) ==> r is Ok && r->Ok_0.fee_rate == fee_rate
                && r->Ok_0.bucket == bucket_of(fee_rate as nat, config.fee.range as nat) && placed(
                old(self)@,
                final(self)@,
                tx@,
                r->Ok_0.bucket,
                config.group.max_size,
                now,
                r->Ok_0.closed,
            ),
    {
        if self.check_double_spending_other_group(tx) {
            return Err(Rejection::AlreadyInGroup);
        }
        let bucket = quantize(fee_rate, config.fee.range);
        let closed = self.place(oracle, tx, bucket, config.group.max_size, now);
        Ok(Admission { fee_rate, bucket, closed })
    }

    /// The whole way of a transaction into the registry, with the time given.
    ///
    /// The text is read and held to every rule; then no input of it may be
    /// in a group already; then it is placed in the bucket of its fee rate.
    /// A rejected transaction changes nothing.
    pub fn admit_at<O: ChainOracle>(
        &mut self,
        oracle: &mut O,
        config: &Config,
        tx_hex: &str,
        now: i64,
    ) -> (r: Result<Admission, Rejection>)
        requires
            old(self).wf(),
        ensures
            final(self).wf(),
            admission(old(self)@, final(self)@, tx_hex.spec_bytes(), *config, now, r),
    {
        let tx = match decode_transaction(tx_hex) {
            Ok(tx) => tx,
            Err(e) => {
                return Err(e);
            },
        };
        let fee_rate = match validate_transaction(oracle, &tx, config.dust.limit) {
            Ok(fee_rate) => fee_rate,
            Err(e) => {
                return Err(e);
            },
        };
        assert(is_verdict(tx@, config.dust.limit, Ok(fee_rate)));
        proof {
            let (known, priors, unspent) = choose|known: bool, priors: Seq<u64>, unspent: bool|
                Ok::<u64, Rejection>(fee_rate) == #[trigger] verdict(
                    tx@,
                    config.dust.limit,
                    known,
                    priors,
                    unspent,
                );
            admitted_meets_every_rule(tx@, config.dust.limit, known, priors, unspent);
        }
        self.take(oracle, config, &tx, fee_rate, now)
    }

    /// The whole way of a transaction into the registry, by this machine's
    /// clock.
    pub fn admit_now<O: ChainOracle>(
        &mut self,
        oracle: &mut O,
        config: &Config,
        tx_hex: &str,
    ) -> (r: Result<Admission, Rejection>)
        requires
            old(self).wf(),
        ensures
            final(self).wf(),
            exists|now: i64|
                admission(old(self)@, final(self)@, tx_hex.spec_bytes(), *config, now, r),
    {
        let now = unix_now();
        let r = self.admit_at(oracle, config, tx_hex, now);
        assert(admission(old(self)@, self@, tx_hex.spec_bytes(), *config, now, r));
        r
    }

    /// Whether a sweep tries to close a group.
    pub fn should_close(trigger: &Trigger, group: &Group) -> (b: bool)
        ensures
            b == fires(*trigger, group@),
    {
        match trigger {
            Trigger::Age { max_age, now } => has_expired(group.created(), *max_age, *now),
            Trigger::Drift { market } => exceeds_market(group.key(), *market),
        }
    }

    /// For each group in order, whether a sweep tries to close it.
    pub fn due(&self, trigger: &Trigger) -> (flags: Vec<bool>)
        ensures
            flags@.len() == self@.len(),
            forall|m: int| 0 <= m < self@.len() ==> #[trigger] flags@[m] == fires(*trigger, self@[m]),
    {
        let mut flags: Vec<bool> = Vec::new();
        let mut m: usize = 0;
        while m < self.groups.len()
            invariant
                m <= self.groups.len(),
                flags@.len() == m,
                forall|j: int| 0 <= j < m ==> #[trigger] flags@[j] == fires(*trigger, self@[j]),
            decreases self.groups.len() - m,
        {
            flags.push(Self::should_close(trigger, &self.groups[m]));
            m += 1;
        }
        flags
    }

    /// Goes through the groups once and tries to close each one that is due
    /// by the trigger. A group that the chain took leaves the registry. The
    /// result lists the attempts in order.
    pub fn sweep<O: ChainOracle>(&mut self, oracle: &mut O, trigger: Trigger) -> (attempts: Vec<
        Attempt,
    >)
        requires
            old(self).wf(),
        ensures
            final(self).wf(),
            swept(old(self)@, final(self)@, trigger, attempts@),
            final(self)@.len() <= old(self)@.len(),
    {
        let flags = self.due(&trigger);
        let ghost before = self@;
        let ghost mut fates: Seq<Fate> = Seq::empty();
        let mut attempts: Vec<Attempt> = Vec::new();
        let mut k: usize = 0;
        let mut i: usize = 0;
        assert(before.take(0) =~= Seq::<GroupView>::empty());
        assert(self@ =~= outcome(before.take(0), fates) + before.skip(0));
        while k < flags.len()
            invariant
                self.wf(),
                flags@.len() == before.len(),
                forall|m: int|
                    0 <= m < before.len() ==> #[trigger] flags@[m] == fires(trigger, before[m]),
                k <= before.len(),
                fates.len() == k,
                forall|m: int| 0 <= m < k ==> befits(trigger, before[m], #[trigger] fates[m]),
                i == outcome(before.take(k as int), fates).len(),
                i <= k,
                self@ == outcome(before.take(k as int), fates) + before.skip(k as int),
                attempts@ == attempts_of(before.take(k as int), fates),
            decreases flags.len() - k,
        {
            let ghost held = self@;
            let ghost done = outcome(before.take(k as int), fates);
            let ghost group = before[k as int];
            assert(held.len() == i + (before.len() - k));
            assert(self.groups@.len() == held.len());
            assert(held[i as int] == group);
            assert(before.take(k + 1) =~= before.take(k as int).push(group));
            if flags[k] {
                let bucket = self.groups[i].key();
                let published = self.close_at(oracle, i);
                attempts.push(Attempt { bucket, published });
                if published {
                    proof {
                        outcome_step(before.take(k as int), fates, group, Fate::Gone);
                        fates = fates.push(Fate::Gone);
                        assert(self@ =~= done + before.skip(k + 1));
                    }
                } else {
                    proof {
                        let left = self@[i as int];
                        let fate = Fate::Left { pairs: left.pairs };
                        outcome_step(before.take(k as int), fates, group, fate);
                        fates = fates.push(fate);
                        assert(left == GroupView {
                            fee_rate: group.fee_rate,
                            timestamp: group.timestamp,
                            pairs: left.pairs,
                        });
                        assert(self@ =~= done.push(left) + before.skip(k + 1));
                    }
                    i += 1;
                }
            } else {
                proof {
                    outcome_step(before.take(k as int), fates, group, Fate::Kept);
                    fates = fates.push(Fate::Kept);
                    assert(self@ =~= done.push(group) + before.skip(k + 1));
                }
                i += 1;
            }
            k += 1;
        }
        proof {
            assert(before.take(k as int) =~= before);
            assert(self@ =~= outcome(before, fates));
            outcome_stems(before, fates, trigger);
            assert(swept_as(before, fates, trigger, self@, attempts@));
        }
        attempts
    }

    /// Tries to close every group that has reached the age `max_age` at
    /// `now`.
    pub fn sweep_by_time<O: ChainOracle>(&mut self, oracle: &mut O, max_age: usize, now: i64) -> (attempts:
        Vec<Attempt>)
        requires
            old(self).wf(),
        ensures
            final(self).wf(),
            swept(old(self)@, final(self)@, Trigger::Age { max_age, now }, attempts@),
    {
        self.sweep(oracle, Trigger::Age { max_age, now })
    }

    /// Tries to close every group whose bucket lies more than the drift
    /// margin above the market rate.
    pub fn sweep_by_fee_drift<O: ChainOracle>(&mut self, oracle: &mut O, market: i64) -> (attempts:
        Vec<Attempt>)
        requires
            old(self).wf(),
        ensures
            final(self).wf(),
            swept(old(self)@, final(self)@, Trigger::Drift { market }, attempts@),
    {
        self.sweep(oracle, Trigger::Drift { market })
    }

    /// Tries to close every group that is `max_time` seconds old or older by
    /// this machine's clock.
    pub fn close_group_by_time<O: ChainOracle>(&mut self, oracle: &mut O, max_time: usize) -> (attempts:
        Vec<Attempt>)
        requires
            old(self).wf(),
        ensures
            final(self).wf(),
            exists|now: i64|
                swept(
                    old(self)@,
                    final(self)@,
                    Trigger::Age { max_age: max_time, now },
                    attempts@,
                ),
    {
        let now = unix_now();
        let attempts = self.sweep_by_time(oracle, max_time, now);
        assert(swept(old(self)@, self@, Trigger::Age { max_age: max_time, now }, attempts@));
        attempts
    }

    /// What a sweep does with the chain's answer on the market rate: with an
    /// estimate it tries to close every group that pays much more, without
    /// one it leaves the groups as they are and tries nothing.
    pub fn sweep_on_estimate<O: ChainOracle>(
        &mut self,
        oracle: &mut O,
        estimate: &Result<i64, OracleError>,
    ) -> (attempts: Vec<Attempt>)
        requires
            old(self).wf(),
        ensures
            final(self).wf(),
            match *estimate {
                Ok(market) => swept(
                    old(self)@,
                    final(self)@,
                    Trigger::Drift { market },
                    attempts@,
                ),
                Err(_) => final(self)@ == old(self)@ && attempts@.len() == 0,
            },
    {
        match estimate {
            Ok(market) => self.sweep_by_fee_drift(oracle, *market),
            Err(_) => Vec::new(),
        }
    }

    /// Asks the chain for the market rate and tries to close every group that
    /// pays much more. Without an answer nothing happens.
    pub fn close_group_by_fee<O: ChainOracle>(&mut self, oracle: &mut O) -> (attempts: Vec<Attempt>)
        requires
            old(self).wf(),
        ensures
            final(self).wf(),
            swept_by_fee(old(self)@, final(self)@, attempts@),
    {
        let estimate = oracle.estimate_fee_next_block();
        let attempts = self.sweep_on_estimate(oracle, &estimate);
        assert(estimate matches Ok(market) ==> swept(
            old(self)@,
            self@,
            Trigger::Drift { market },
            attempts@,
        ));
        attempts
    }

    /// One round of the sweeper at the time `now`: first the groups that are
    /// `max_age` old, then, if the chain estimates the market rate, those that
    /// pay much more. The result lists the attempts of the first sweep and
    /// those of the second.
    pub fn sweep_at<O: ChainOracle>(&mut self, oracle: &mut O, max_age: usize, now: i64) -> (attempts:
        (Vec<Attempt>, Vec<Attempt>))
        requires
            old(self).wf(),
        ensures
            final(self).wf(),
            swept_in_a_round(
                old(self)@,
                final(self)@,
                max_age,
                now,
                attempts.0@,
                attempts.1@,
            ),
    {
        let by_age = self.sweep_by_time(oracle, max_age, now);
        let ghost aged = self@;
        let estimate = oracle.estimate_fee_next_block();
        let by_fee = self.sweep_on_estimate(oracle, &estimate);
        assert(estimate matches Ok(market) ==> swept(
            aged,
            self@,
            Trigger::Drift { market },
            by_fee@,
        ));
        assert(swept_by_fee(aged, self@, by_fee@));
        assert(swept(old(self)@, aged, Trigger::Age { max_age, now }, by_age@));
        (by_age, by_fee)
    }

    /// What the registry holds, group by group in their order.
    pub fn snapshot(&self, max_size: usize) -> (list: Vec<GroupInfo>)
        ensures
            list@.len() == self@.len(),
            forall|i: int|
                0 <= i < self@.len() ==> #[trigger] list@[i] == (GroupInfo {
                    fee_rate: self@[i].fee_rate,
                    size: self@[i].pairs.len() as usize,
                    max_size,
                    timestamp: self@[i].timestamp,
                }),
    {
        let mut list: Vec<GroupInfo> = Vec::new();
        let mut i: usize = 0;
        while i < self.groups.len()
            invariant
                i <= self.groups.len(),
                list@.len() == i,
                forall|j: int|
                    0 <= j < i ==> #[trigger] list@[j] == (GroupInfo {
                        fee_rate: self@[j].fee_rate,
                        size: self@[j].pairs.len() as usize,
                        max_size,
                        timestamp: self@[j].timestamp,
                    }),
            decreases self.groups.len() - i,
        {
            let group = &self.groups[i];
            list.push(
                GroupInfo {
                    fee_rate: group.key(),
                    size: group.get_num_transactions(),
                    max_size,
                    timestamp: group.created(),
                },
            );
            i += 1;
        }
        list
    }
}

} // verus!
