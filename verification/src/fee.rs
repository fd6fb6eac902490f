//! Fee rates, their buckets, and the thresholds that the engine applies.
//!
//! A fee rate is a whole number of satoshis per 1000 virtual bytes.

use vstd::prelude::*;

verus! {

/// A transaction is admitted only if it pays more than this rate.
pub const MIN_FEE_RATE: u64 = 1010;

/// A group is closed early once its bucket lies more than this above the
/// market.
pub const DRIFT_MARGIN: u64 = 2000;

/// The sum of a sequence of amounts.
pub open spec fn total(values: Seq<u64>) -> nat
    decreases values.len(),
{
    if values.len() == 0 {
        0
    } else {
        total(values.drop_last()) + values.last() as nat
    }
}

/// The sum of the first `n + 1` amounts is the sum of the first `n` and the
/// next one.
pub proof fn total_step(values: Seq<u64>, n: int)
    requires
        0 <= n < values.len(),
    ensures
        total(values.take(n + 1)) == total(values.take(n)) + values[n],
{
    assert(values.take(n + 1).drop_last() =~= values.take(n));
}

/// No sum exceeds what its length allows.
pub proof fn total_bound(values: Seq<u64>)
    ensures
        total(values) <= values.len() * u64::MAX,
    decreases values.len(),
{
    if values.len() > 0 {
        total_bound(values.drop_last());
        assert((values.len() - 1) * u64::MAX + u64::MAX == values.len() * u64::MAX)
            by (nonlinear_arith);
    }
}

/// Whether a transaction that takes `total_in` and hands on `total_out`
/// pays more than [`MIN_FEE_RATE`] for its size.
pub open spec fn pays_minimum(total_in: nat, total_out: nat, vsize: nat) -> bool {
    vsize > 0 && 1000 * (total_in - total_out) > MIN_FEE_RATE * vsize
}

/// The fee rate of a transaction that takes `total_in` and hands on
/// `total_out`: the fee for 1000 virtual bytes, rounded down. A transaction
/// that pays nothing has rate 0, and a rate beyond `u64` is `u64::MAX`.
pub open spec fn fee_rate_of(total_in: nat, total_out: nat, vsize: nat) -> u64 {
    if total_in <= total_out || vsize == 0 {
        0
    } else if 1000 * (total_in - total_out) / (vsize as int) > u64::MAX {
        u64::MAX
    } else {
        (1000 * (total_in - total_out) / (vsize as int)) as u64
    }
}

/// The fee rate of a transaction, and whether it pays the minimum.
pub fn effective_fee_rate(total_in: u128, total_out: u128, vsize: usize) -> (r: (u64, bool))
    ensures
        r.0 == fee_rate_of(total_in as nat, total_out as nat, vsize as nat),
        r.1 == pays_minimum(total_in as nat, total_out as nat, vsize as nat),
{
    if total_in <= total_out || vsize == 0 {
        return (0, false);
    }
    let fee: u128 = total_in - total_out;
    let size: u128 = vsize as u128;
    assert(MIN_FEE_RATE * size <= u128::MAX) by (nonlinear_arith)
        requires
            size <= u64::MAX,
            MIN_FEE_RATE == 1010,
    ;
    let floor: u128 = MIN_FEE_RATE as u128 * size;
    match fee.checked_mul(1000) {
        Some(scaled) => {
            let q: u128 = scaled / size;
            let rate: u64 = if q > u64::MAX as u128 {
                u64::MAX
            } else {
                q as u64
            };
            (rate, scaled > floor)
        },
        None => {
            assert(1000 * fee / (size as int) > u64::MAX) by (nonlinear_arith)
                requires
                    1000 * fee > u128::MAX,
                    0 < size <= u64::MAX,
            ;
            (u64::MAX, true)
        },
    }
}

/// The bucket that a fee rate falls into: the largest multiple of the width
/// that is not above it. With width 0 every rate is a bucket of its own.
pub open spec fn bucket_of(rate: nat, width: nat) -> nat {
    if width == 0 {
        rate
    } else {
        (rate / width) * width
    }
}

/// Rounds a fee rate down to the lower edge of its bucket.
pub fn quantize(rate: u64, width: u64) -> (key: u64)
    ensures
        key == bucket_of(rate as nat, width as nat),
        bucket_of(key as nat, width as nat) == key,
{
    proof {
        bucket_of_idempotent(rate as nat, width as nat);
    }
    if width == 0 {
        rate
    } else {
        let q: u64 = rate / width;
        assert(q * width <= rate) by (nonlinear_arith)
            requires
                q == rate / width,
                width > 0,
        ;
        q * width
    }
}

/// Rounding a bucket gives the bucket again.
pub proof fn bucket_of_idempotent(rate: nat, width: nat)
    ensures
        bucket_of(bucket_of(rate, width), width) == bucket_of(rate, width),
{
    if width > 0 {
        let q = rate / width;
        assert((q * width) / width == q) by (nonlinear_arith)
            requires
                width > 0,
        ;
    }
}

/// Whether a bucket lies more than [`DRIFT_MARGIN`] above the market rate.
pub open spec fn overpays(bucket: u64, market: i64) -> bool {
    bucket > market + DRIFT_MARGIN
}

/// Whether a group in this bucket pays so much more than the market asks
/// that it is closed early.
pub fn exceeds_market(bucket: u64, market: i64) -> (b: bool)
    ensures
        b == overpays(bucket, market),
{
    bucket as i128 > market as i128 + DRIFT_MARGIN as i128
}

/// Whether a group made at `created` has reached the age `max_age` at `now`.
pub open spec fn expired(created: i64, max_age: usize, now: i64) -> bool {
    created + max_age <= now
}

/// Whether a group made at `created` is old enough at `now` to be closed.
pub fn has_expired(created: i64, max_age: usize, now: i64) -> (b: bool)
    ensures
        b == expired(created, max_age, now),
{
    created as i128 + max_age as i128 <= now as i128
}

} // verus!
