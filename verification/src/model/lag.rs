//! How far a consumer group is behind the end of a partition.

use vstd::prelude::*;

verus! {

/// What is unusual about a lag.
#[derive(Debug, Clone, Copy, PartialEq, Eq, Structural)]
pub enum LagFlag {
    Normal,
    NoCommit,
    Expired,
    Reset,
}

/// The lag of one partition. A group without a commit has no value.
#[derive(Debug, Clone, Copy, PartialEq, Eq, Structural)]
pub struct Lag {
    pub value: Option<i64>,
    pub flag: LagFlag,
}

/// Whether the distance that the lag is made of fits into 64 bits.
pub open spec fn lag_fits(low: i64, high: i64, committed: Option<i64>) -> bool {
    match committed {
        Some(offset) => {
            &&& offset < low && offset <= high ==> i64::MIN <= high - low <= i64::MAX
            &&& low <= offset <= high ==> high - offset <= i64::MAX
        },
        None => true,
    }
}

/// The lag of a commit between two watermarks: nothing without a commit, zero above
/// the high watermark, and otherwise the messages from the later of the commit and
/// the low watermark up to the high watermark.
pub open spec fn lag_of(low: int, high: int, committed: Option<int>) -> (Option<int>, LagFlag) {
    match committed {
        None => (None, LagFlag::NoCommit),
        Some(offset) => if offset > high {
            (Some(0), LagFlag::Reset)
        } else if offset < low {
            (Some(if high > low { high - low } else { 0 }), LagFlag::Expired)
        } else {
            (Some(high - offset), LagFlag::Normal)
        },
    }
}

/// An offset as a mathematical integer.
pub open spec fn offset_int(offset: Option<i64>) -> Option<int> {
    match offset {
        Some(n) => Some(n as int),
        None => None,
    }
}

/// Whether the distance that the lag is made of fits into 64 bits.
pub fn lag_can_be_computed(low: i64, high: i64, committed: Option<i64>) -> (fits: bool)
    ensures
        fits == lag_fits(low, high, committed),
{
    match committed {
        Some(offset) => {
            let kept: i128 = high as i128 - low as i128;
            let behind: i128 = high as i128 - offset as i128;
            if offset < low {
                offset > high || (kept >= i64::MIN as i128 && kept <= i64::MAX as i128)
            } else {
                offset > high || behind <= i64::MAX as i128
            }
        },
        None => true,
    }
}

pub fn compute_lag(low: i64, high: i64, committed: Option<i64>) -> (lag: Lag)
    requires
        lag_fits(low, high, committed),
    ensures
        (offset_int(lag.value), lag.flag) == lag_of(low as int, high as int, offset_int(committed)),
{
    match committed {
        None => Lag { value: None, flag: LagFlag::NoCommit },
        Some(offset) => {
            if offset > high {
                Lag { value: Some(0), flag: LagFlag::Reset }
            } else if offset < low {
                let kept: i64 = high - low;
                Lag { value: Some(if kept > 0 { kept } else { 0 }), flag: LagFlag::Expired }
            } else {
                Lag { value: Some(high - offset), flag: LagFlag::Normal }
            }
        },
    }
}

/// A lag is never negative, and there is one exactly where there is a commit.
pub proof fn lag_is_never_negative(low: int, high: int, committed: Option<int>)
    ensures
        lag_of(low, high, committed).0 is Some <==> committed is Some,
        lag_of(low, high, committed).0 matches Some(n) ==> n >= 0,
{
}

/// A later commit never has a larger lag.
pub proof fn lag_shrinks_as_commits_advance(low: int, high: int, earlier: int, later: int)
    requires
        low <= high,
        earlier <= later,
    ensures
        lag_of(low, high, Some(later)).0->0 <= lag_of(low, high, Some(earlier)).0->0,
{
}

/// A commit between the watermarks and its lag make up the high watermark.
pub proof fn a_commit_and_its_lag_reach_the_end(low: int, high: int, committed: int)
    requires
        low <= committed <= high,
    ensures
        lag_of(low, high, Some(committed)).0 matches Some(n) && committed + n == high,
        lag_of(low, high, Some(committed)).1 == LagFlag::Normal,
{
}

/// Between the watermarks, a lag shrinks by as many messages as the commit advances.
pub proof fn lags_differ_as_commits_do(low: int, high: int, earlier: int, later: int)
    requires
        low <= earlier <= later <= high,
    ensures
        lag_of(low, high, Some(earlier)).0->0 - lag_of(low, high, Some(later)).0->0 == later - earlier,
{
}

/// A commit below the low watermark lags as one at the low watermark does: by all the
/// messages that are left.
pub proof fn an_expired_commit_lags_by_what_is_left(low: int, high: int, committed: int)
    requires
        committed < low,
    ensures
        low <= high ==> lag_of(low, high, Some(committed)).0 == lag_of(low, high, Some(low)).0,
        low <= high ==> low + lag_of(low, high, Some(committed)).0->0 == high,
        committed <= high < low ==> lag_of(low, high, Some(committed)).0 == Some(0int),
        committed <= high ==> lag_of(low, high, Some(committed)).1 == LagFlag::Expired,
{
}

/// A commit beyond the high watermark lags by nothing, and is marked as one of a topic
/// that was made anew.
pub proof fn a_commit_beyond_the_end_has_no_lag(low: int, high: int, committed: int)
    requires
        high < committed,
    ensures
        lag_of(low, high, Some(committed)).0 == Some(0int),
        lag_of(low, high, Some(committed)).1 == LagFlag::Reset,
{
}

/// Where nothing was committed, no lag is known, and only there it is said so.
pub proof fn no_commit_is_told_apart(low: int, high: int, committed: Option<int>)
    ensures
        lag_of(low, high, committed).1 == LagFlag::NoCommit <==> committed is None,
        lag_of(low, high, committed).0 is None <==> committed is None,
{
}

/// A lag moves with its partition: watermarks and a commit that are all shifted by as
/// much leave it as it is.
pub proof fn lags_depend_on_distances_alone(low: int, high: int, committed: int, by: int)
    ensures
        lag_of(low + by, high + by, Some(committed + by)) == lag_of(low, high, Some(committed)),
{
}

/// What is computed as a lag: between the watermarks, the commit and the lag make up the high
/// watermark; below them the messages that are left count, and beyond them none.
pub proof fn computed_lags_reach_the_end(low: i64, high: i64, committed: i64, lag: Lag)
    requires
        call_ensures(compute_lag, (low, high, Some(committed)), lag),
    ensures
        low <= committed <= high ==> (lag.value matches Some(n) && committed + n == high) && lag.flag == LagFlag::Normal,
        committed < low <= high ==> (lag.value matches Some(n) && low + n == high) && lag.flag == LagFlag::Expired,
        committed <= high < low ==> lag.value == Some(0i64) && lag.flag == LagFlag::Expired,
        high < committed ==> lag.value == Some(0i64) && lag.flag == LagFlag::Reset,
{
}

/// Without a commit no lag is computed.
pub proof fn no_lag_is_computed_without_a_commit(low: i64, high: i64, lag: Lag)
    requires
        call_ensures(compute_lag, (low, high, None::<i64>), lag),
    ensures
        lag.value is None,
        lag.flag == LagFlag::NoCommit,
{
}

} // verus!
