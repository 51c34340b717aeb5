//! Choosing the size bucket that a file falls in.

use vstd::prelude::*;
use crate::template::{thresholds_view, Threshold, ThresholdView};
use crate::vocabulary::{multiplier, Comparator};

verus! {

/// The size in bytes that bucket `t` compares against.
pub open spec fn limit(t: ThresholdView) -> nat {
    t.amount * multiplier(t.unit)
}

/// Whether a file of `size` bytes falls in bucket `t`: a size equal to the
/// limit always does, whichever the comparator.
pub open spec fn bucket_holds(t: ThresholdView, size: nat) -> bool {
    ||| size == limit(t)
    ||| (size < limit(t) && t.comparator == Comparator::Less)
    ||| (size > limit(t) && t.comparator == Comparator::Greater)
}

/// The name of the first bucket, in written order, that `size` falls in.
pub open spec fn select_bucket(ts: Seq<ThresholdView>, size: nat) -> Option<Seq<char>>
    decreases ts.len(),
{
    if ts.len() == 0 {
        None
    } else if bucket_holds(ts[0], size) {
        Some(ts[0].name)
    } else {
        select_bucket(ts.drop_first(), size)
    }
}

/// Whether a file of `size` bytes falls in bucket `t`.
pub fn holds(t: &Threshold, size: u64) -> (r: bool)
    ensures
        r == bucket_holds(t@, size as nat),
{
    let m = t.unit.multiplier();
    proof {
        assert(t.amount * m <= u64::MAX * u64::MAX) by (nonlinear_arith)
            requires
                t.amount <= u64::MAX,
                m <= u64::MAX,
        ;
    }
    let lim: u128 = t.amount as u128 * m as u128;
    let s: u128 = size as u128;
    if s == lim {
        true
    } else if s < lim {
        t.comparator == Comparator::Less
    } else {
        t.comparator == Comparator::Greater
    }
}

/// The name of the first bucket that a file of `size` bytes falls in.
pub fn select_threshold(ts: &Vec<Threshold>, size: u64) -> (r: Option<String>)
    ensures
        match select_bucket(thresholds_view(ts@), size as nat) {
            Some(name) => r matches Some(s) && s@ == name,
            None => r is None,
        },
{
    let ghost tv = thresholds_view(ts@);
    let mut i: usize = 0;
    assert(tv.subrange(0, tv.len() as int) =~= tv);
    while i < ts.len()
        invariant
            tv == thresholds_view(ts@),
            i <= ts@.len(),
            select_bucket(tv, size as nat) == select_bucket(
                tv.subrange(i as int, tv.len() as int),
                size as nat,
            ),
        decreases ts@.len() - i,
    {
        let ghost sub = tv.subrange(i as int, tv.len() as int);
        assert(sub[0] == ts@[i as int]@);
        if holds(&ts[i], size) {
            return Some(ts[i].name.clone());
        }
        assert(sub.drop_first() =~= tv.subrange(i + 1, tv.len() as int));
        i = i + 1;
    }
    None
}

/// A bucket whose limit equals the size is chosen when it comes first,
/// whatever its comparator says.
pub proof fn lemma_equal_size_selects(ts: Seq<ThresholdView>, size: nat)
    requires
        ts.len() > 0,
        size == limit(ts[0]),
    ensures
        select_bucket(ts, size) == Some(ts[0].name),
{
}

/// Buckets are tried in order: the first that holds is chosen, whatever
/// later buckets say.
pub proof fn lemma_first_match_wins(ts: Seq<ThresholdView>, size: nat, i: int)
    requires
        0 <= i < ts.len(),
        bucket_holds(ts[i], size),
        forall|j: int| 0 <= j < i ==> !bucket_holds(#[trigger] ts[j], size),
    ensures
        select_bucket(ts, size) == Some(ts[i].name),
    decreases i,
{
    if i > 0 {
        let rest = ts.drop_first();
        assert forall|j: int| 0 <= j < i - 1 implies !bucket_holds(#[trigger] rest[j], size) by {
            assert(rest[j] == ts[j + 1]);
        }
        lemma_first_match_wins(rest, size, i - 1);
    }
}

} // verus!
