use vstd::prelude::*;

use crate::error::ReferralError;

verus! {

/// Most stakeholders a referralship can hold.
pub const MAX_SPLITS: usize = 8;

/// Sum of the first `n` weights.
pub open spec fn weight_prefix(w: Seq<u8>, n: int) -> int
    decreases n,
{
    if n <= 0 {
        0
    } else {
        weight_prefix(w, n - 1) + w[n - 1]
    }
}

/// Sum of all weights: the denominator of every stakeholder's share.
pub open spec fn weight_sum(w: Seq<u8>) -> int {
    weight_prefix(w, w.len() as int)
}

/// Why a referral agent percentage and a weight list cannot be split, if
/// they cannot; the checks are made in this order.
pub open spec fn split_error(referral_agent_split: u8, w: Seq<u8>) -> Option<ReferralError> {
    if referral_agent_split > 100 {
        Some(ReferralError::InvalidAgentSplit)
    } else if w.len() == 0 || w.len() > MAX_SPLITS {
        Some(ReferralError::InvalidSplitCount)
    } else if exists|i: int| 0 <= i < w.len() && w[i] == 0 {
        Some(ReferralError::InvalidWeight)
    } else {
        None
    }
}

/// The referral agent's cut: the percentage of the amount, rounded down.
pub open spec fn agent_amount_of(amount: u64, referral_agent_split: u8) -> int {
    amount * referral_agent_split / 100
}

/// What is left for the stakeholders once the agent is paid.
pub open spec fn pool_of(amount: u64, referral_agent_split: u8) -> int {
    amount - agent_amount_of(amount, referral_agent_split)
}

/// Stakeholder `i`'s proportional share of `pool`, rounded down.
pub open spec fn base_share(pool: int, w: Seq<u8>, i: int) -> int {
    pool * w[i] / weight_sum(w)
}

/// Sum of the rounded-down shares of the first `n` stakeholders.
pub open spec fn base_total(pool: int, w: Seq<u8>, n: int) -> int
    decreases n,
{
    if n <= 0 {
        0
    } else {
        base_total(pool, w, n - 1) + base_share(pool, w, n - 1)
    }
}

/// The units that rounding down leaves unassigned.
pub open spec fn leftover(pool: int, w: Seq<u8>) -> int {
    pool - base_total(pool, w, w.len() as int)
}

/// Stakeholder `i`'s final share: its rounded-down share, plus one unit of
/// the leftover for each of the first `leftover` stakeholders.
pub open spec fn share_of(pool: int, w: Seq<u8>, i: int) -> int {
    base_share(pool, w, i) + if i < leftover(pool, w) {
        1int
    } else {
        0int
    }
}

/// Sum of the final shares of the first `n` stakeholders.
pub open spec fn share_total(pool: int, w: Seq<u8>, n: int) -> int
    decreases n,
{
    if n <= 0 {
        0
    } else {
        share_total(pool, w, n - 1) + share_of(pool, w, n - 1)
    }
}

/// Sum of a sequence of amounts.
pub open spec fn total_of(s: Seq<u64>) -> int
    decreases s.len(),
{
    if s.len() == 0 {
        0
    } else {
        total_of(s.drop_last()) + s.last()
    }
}

/// How a payment is divided: the agent's cut, then one share per stakeholder
/// in declaration order.
#[derive(Debug)]
pub struct SplitOutcome {
    pub agent_amount: u64,
    pub shares: Vec<u64>,
}

impl SplitOutcome {
    /// This outcome is the split of `amount` under the agent percentage and
    /// the weights `w`.
    pub open spec fn is_split_of(&self, amount: u64, referral_agent_split: u8, w: Seq<u8>) -> bool {
        let pool = pool_of(amount, referral_agent_split);
        &&& self.agent_amount == agent_amount_of(amount, referral_agent_split)
        &&& self.shares@.len() == w.len()
        &&& forall|i: int| 0 <= i < w.len() ==> self.shares@[i] == share_of(pool, w, i)
    }
}

proof fn lemma_prefix_ge_entry(w: Seq<u8>, i: int, n: int)
    requires
        0 <= i < n <= w.len(),
    ensures
        weight_prefix(w, n) >= w[i],
    decreases n,
{
    lemma_prefix_bounds(w, n - 1);
    if n > i + 1 {
        lemma_prefix_ge_entry(w, i, n - 1);
    }
}

proof fn lemma_prefix_bounds(w: Seq<u8>, n: int)
    requires
        0 <= n <= w.len(),
    ensures
        0 <= weight_prefix(w, n) <= 255 * n,
    decreases n,
{
    if n > 0 {
        lemma_prefix_bounds(w, n - 1);
    }
}

proof fn lemma_share_bounded_by_pool(pool: int, wi: int, ws: int)
    by (nonlinear_arith)
    requires
        0 <= pool,
        0 <= wi <= ws,
        0 < ws,
    ensures
        0 <= pool * wi / ws <= pool,
{
    assert(pool * wi <= pool * ws);
}

proof fn lemma_agent_amount_bounded(amount: u64, referral_agent_split: u8)
    requires
        referral_agent_split <= 100,
    ensures
        0 <= agent_amount_of(amount, referral_agent_split) <= amount,
{
    let a = amount as int;
    let p = referral_agent_split as int;
    assert(0 <= a * p / 100 <= a) by (nonlinear_arith)
        requires
            0 <= a,
            0 <= p <= 100,
    {
        assert(a * p <= a * 100);
    }
}


proof fn lemma_floor_div(x: int, d: int)
    requires
        0 <= x,
        0 < d,
    ensures
        d * (x / d) <= x <= d * (x / d) + d - 1,
{
    vstd::arithmetic::div_mod::lemma_fundamental_div_mod(x, d);
    vstd::arithmetic::div_mod::lemma_mod_bound(x, d);
}

/// Rounding down loses less than one unit per stakeholder: scaled by the
/// weight sum, the first `n` rounded shares fall short of the exact
/// proportional amount by at most `n * (weight_sum - 1)`.
proof fn lemma_base_total_bounds(pool: int, w: Seq<u8>, n: int)
    requires
        0 <= pool,
        0 <= n <= w.len(),
        weight_sum(w) > 0,
    ensures
        0 <= base_total(pool, w, n),
        weight_sum(w) * base_total(pool, w, n) <= pool * weight_prefix(w, n),
        pool * weight_prefix(w, n) <= weight_sum(w) * base_total(pool, w, n) + n * (weight_sum(w) - 1),
    decreases n,
{
    if n > 0 {
        lemma_base_total_bounds(pool, w, n - 1);
        let ws = weight_sum(w);
        let x = w[n - 1] as int;
        let b = base_share(pool, w, n - 1);
        let bt = base_total(pool, w, n - 1);
        let wp = weight_prefix(w, n - 1);
        assert(0 <= pool * x) by (nonlinear_arith)
            requires
                0 <= pool,
                0 <= x,
        ;
        lemma_floor_div(pool * x, ws);
        assert(0 <= b) by (nonlinear_arith)
            requires
                0 <= pool * x,
                ws * b <= pool * x,
                pool * x <= ws * b + ws - 1,
                0 < ws,
        ;
        assert(pool * (wp + x) == pool * wp + pool * x) by (nonlinear_arith);
        assert(ws * (bt + b) == ws * bt + ws * b) by (nonlinear_arith);
        assert(n * (ws - 1) == (n - 1) * (ws - 1) + (ws - 1)) by (nonlinear_arith);
    }
}

/// The leftover after rounding down is at least zero and below the number
/// of stakeholders.
proof fn lemma_leftover_bounds(pool: int, w: Seq<u8>)
    requires
        0 <= pool,
        0 < w.len(),
        weight_sum(w) > 0,
    ensures
        0 <= leftover(pool, w) < w.len(),
{
    let n = w.len() as int;
    let ws = weight_sum(w);
    let bt = base_total(pool, w, n);
    lemma_base_total_bounds(pool, w, n);
    assert(0 <= pool - bt < n) by (nonlinear_arith)
        requires
            ws * bt <= pool * ws,
            pool * ws <= ws * bt + n * (ws - 1),
            0 < ws,
            0 < n,
    {
        assert(ws * (pool - bt) >= 0);
        assert(ws * (pool - bt) < ws * n);
    }
}

proof fn lemma_base_total_ge_entry(pool: int, w: Seq<u8>, i: int, n: int)
    requires
        0 <= pool,
        0 <= i < n <= w.len(),
        weight_sum(w) > 0,
    ensures
        base_total(pool, w, n) >= base_share(pool, w, i),
    decreases n,
{
    lemma_base_total_bounds(pool, w, n - 1);
    assert(0 <= pool * w[n - 1] / weight_sum(w)) by (nonlinear_arith)
        requires
            0 <= pool,
            0 < weight_sum(w),
    ;
    if n > i + 1 {
        lemma_base_total_ge_entry(pool, w, i, n - 1);
    }
}

/// The final shares of the first `n` stakeholders add up to their rounded
/// shares plus the leftover units they received.
proof fn lemma_share_total_prefix(pool: int, w: Seq<u8>, n: int)
    requires
        0 <= n <= w.len(),
        0 <= leftover(pool, w),
    ensures
        share_total(pool, w, n) == base_total(pool, w, n) + if n < leftover(pool, w) {
            n
        } else {
            leftover(pool, w)
        },
    decreases n,
{
    if n > 0 {
        lemma_share_total_prefix(pool, w, n - 1);
    }
}


/// Checks that an agent percentage and a weight list can be split: the
/// percentage is at most one hundred, there are one to eight weights, and
/// none is zero. On success, returns the sum of the weights.
pub fn check_split_inputs(referral_agent_split: u8, weights: &Vec<u8>) -> (r: Result<
    u64,
    ReferralError,
>)
    ensures
        match split_error(referral_agent_split, weights@) {
            Some(e) => r == Err::<u64, ReferralError>(e),
            None => r == Ok::<u64, ReferralError>(weight_sum(weights@) as u64) && weight_sum(
                weights@,
            ) > 0,
        },
{
    if referral_agent_split > 100 {
        return Err(ReferralError::InvalidAgentSplit);
    }
    let n = weights.len();
    if n == 0 || n > MAX_SPLITS {
        return Err(ReferralError::InvalidSplitCount);
    }
    let ghost w = weights@;
    let mut wsum: u64 = 0;
    let mut i: usize = 0;
    while i < n
        invariant
            w == weights@,
            referral_agent_split <= 100,
            n == w.len(),
            1 <= n <= MAX_SPLITS,
            i <= n,
            wsum == weight_prefix(w, i as int),
            forall|j: int| 0 <= j < i ==> w[j] > 0,
        decreases n - i,
    {
        let x = weights[i];
        if x == 0 {
            assert(w[i as int] == 0);
            return Err(ReferralError::InvalidWeight);
        }
        proof {
            lemma_prefix_bounds(w, i as int);
        }
        wsum = wsum + x as u64;
        i = i + 1;
    }
    assert(split_error(referral_agent_split, w) is None);
    proof {
        lemma_prefix_ge_entry(w, 0, n as int);
        lemma_prefix_bounds(w, n as int);
    }
    Ok(wsum)
}

/// Divides `amount` between the referral agent and the stakeholders whose
/// weights are `weights`: the agent takes `referral_agent_split` percent,
/// rounded down; each stakeholder takes its proportional part of the rest,
/// rounded down; the units that rounding leaves over go one each to the first
/// stakeholders in declaration order.
pub fn compute_split(amount: u64, referral_agent_split: u8, weights: &Vec<u8>) -> (r: Result<
    SplitOutcome,
    ReferralError,
>)
    ensures
        match split_error(referral_agent_split, weights@) {
            Some(e) => r == Err::<SplitOutcome, ReferralError>(e),
            None => r is Ok && r->Ok_0.is_split_of(amount, referral_agent_split, weights@),
        },
        r is Ok ==> r->Ok_0.agent_amount + total_of(r->Ok_0.shares@) == amount,
{
    let wsum = match check_split_inputs(referral_agent_split, weights) {
        Ok(x) => x,
        Err(e) => {
            return Err(e);
        },
    };
    let n = weights.len();
    let ghost w = weights@;
    assert(split_error(referral_agent_split, w) is None);
    proof {
        lemma_prefix_bounds(w, n as int);
        lemma_agent_amount_bounded(amount, referral_agent_split);
    }
    let ghost ws = weight_sum(w);
    assert(wsum == ws && ws > 0);

    assert((amount as u128) * (referral_agent_split as u128) <= u64::MAX * 100) by (nonlinear_arith)
        requires
            referral_agent_split <= 100,
    ;
    let agent = ((amount as u128) * (referral_agent_split as u128) / 100) as u64;
    let pool: u64 = amount - agent;
    assert(pool == pool_of(amount, referral_agent_split));

    let mut base: Vec<u64> = Vec::new();
    let mut total: u128 = 0;
    let mut i: usize = 0;
    while i < n
        invariant
            w == weights@,
            n == w.len(),
            1 <= n <= MAX_SPLITS,
            i <= n,
            wsum == ws,
            ws == weight_sum(w),
            ws > 0,
            base@.len() == i,
            forall|j: int| 0 <= j < i ==> base@[j] == base_share(pool as int, w, j),
            total == base_total(pool as int, w, i as int),
            total <= i * u64::MAX,
        decreases n - i,
    {
        let x = weights[i];
        proof {
            lemma_prefix_ge_entry(w, i as int, n as int);
            lemma_share_bounded_by_pool(pool as int, x as int, ws);
        }
        assert((pool as u128) * (x as u128) <= u64::MAX * 255) by (nonlinear_arith);
        let b = ((pool as u128) * (x as u128) / (wsum as u128)) as u64;
        base.push(b);
        total = total + b as u128;
        i = i + 1;
    }
    proof {
        lemma_leftover_bounds(pool as int, w);
    }
    let left = (pool as u128 - total) as u64;

    let mut shares: Vec<u64> = Vec::new();
    let mut i: usize = 0;
    while i < n
        invariant
            w == weights@,
            n == w.len(),
            i <= n,
            ws == weight_sum(w),
            ws > 0,
            base@.len() == n,
            forall|j: int| 0 <= j < n ==> base@[j] == base_share(pool as int, w, j),
            left == leftover(pool as int, w),
            0 <= left < n,
            shares@.len() == i,
            forall|j: int| 0 <= j < i ==> shares@[j] == share_of(pool as int, w, j),
            total_of(shares@) == share_total(pool as int, w, i as int),
        decreases n - i,
    {
        let s = if (i as u64) < left {
            proof {
                lemma_base_total_ge_entry(pool as int, w, i as int, n as int);
            }
            base[i] + 1
        } else {
            base[i]
        };
        let ghost before = shares@;
        shares.push(s);
        assert(shares@.drop_last() =~= before);
        i = i + 1;
    }
    proof {
        lemma_share_total_prefix(pool as int, w, n as int);
    }
    Ok(SplitOutcome { agent_amount: agent, shares })
}


proof fn lemma_total_of_prefix(s: Seq<u64>, pool: int, w: Seq<u8>, n: int)
    requires
        0 <= n <= s.len(),
        forall|i: int| 0 <= i < n ==> s[i] == share_of(pool, w, i),
    ensures
        total_of(s.take(n)) == share_total(pool, w, n),
    decreases n,
{
    if n > 0 {
        lemma_total_of_prefix(s, pool, w, n - 1);
        assert(s.take(n).drop_last() =~= s.take(n - 1));
    } else {
        assert(s.take(n) =~= Seq::<u64>::empty());
    }
}

/// Conservation: in any split of `amount`, the agent's cut and the
/// stakeholders' shares add up to the whole amount, exactly.
pub proof fn lemma_split_conserves(
    amount: u64,
    referral_agent_split: u8,
    w: Seq<u8>,
    o: SplitOutcome,
)
    requires
        split_error(referral_agent_split, w) is None,
        o.is_split_of(amount, referral_agent_split, w),
    ensures
        o.agent_amount + total_of(o.shares@) == amount,
{
    let pool = pool_of(amount, referral_agent_split);
    lemma_agent_amount_bounded(amount, referral_agent_split);
    lemma_prefix_ge_entry(w, 0, w.len() as int);
    lemma_leftover_bounds(pool, w);
    lemma_share_total_prefix(pool, w, w.len() as int);
    lemma_total_of_prefix(o.shares@, pool, w, w.len() as int);
    assert(o.shares@.take(w.len() as int) =~= o.shares@);
}

/// Non-negativity: neither the agent's cut nor any stakeholder's share is
/// below zero.
pub proof fn lemma_split_nonnegative(amount: u64, referral_agent_split: u8, w: Seq<u8>)
    requires
        split_error(referral_agent_split, w) is None,
    ensures
        agent_amount_of(amount, referral_agent_split) >= 0,
        forall|i: int|
            0 <= i < w.len() ==> share_of(pool_of(amount, referral_agent_split), w, i) >= 0,
{
    let pool = pool_of(amount, referral_agent_split);
    lemma_agent_amount_bounded(amount, referral_agent_split);
    lemma_prefix_ge_entry(w, 0, w.len() as int);
    assert forall|i: int| 0 <= i < w.len() implies share_of(pool, w, i) >= 0 by {
        lemma_prefix_ge_entry(w, i, w.len() as int);
        lemma_share_bounded_by_pool(pool, w[i] as int, weight_sum(w));
    }
}

/// Rounding fairness: every stakeholder's share lies within one unit of its
/// exact proportional entitlement `pool * w[i] / weight_sum(w)`; the bound is
/// stated multiplied through by the weight sum, so no fraction appears.
pub proof fn lemma_share_within_one_unit(amount: u64, referral_agent_split: u8, w: Seq<u8>, i: int)
    requires
        split_error(referral_agent_split, w) is None,
        0 <= i < w.len(),
    ensures
        ({
            let pool = pool_of(amount, referral_agent_split);
            let s = share_of(pool, w, i);
            &&& (s - 1) * weight_sum(w) <= pool * w[i]
            &&& pool * w[i] <= (s + 1) * weight_sum(w)
        }),
{
    let pool = pool_of(amount, referral_agent_split);
    let ws = weight_sum(w);
    let x = w[i] as int;
    let b = base_share(pool, w, i);
    let s = share_of(pool, w, i);
    lemma_agent_amount_bounded(amount, referral_agent_split);
    lemma_prefix_ge_entry(w, 0, w.len() as int);
    assert(0 <= pool * x) by (nonlinear_arith)
        requires
            0 <= pool,
            0 <= x,
    ;
    lemma_floor_div(pool * x, ws);
    assert(b <= s <= b + 1);
    assert((s - 1) * ws <= pool * x <= (s + 1) * ws) by (nonlinear_arith)
        requires
            ws * b <= pool * x,
            pool * x <= ws * b + ws - 1,
            b <= s <= b + 1,
            0 < ws,
    ;
}

/// Determinism: two outcomes that are both the split of one amount under
/// one agent percentage and one weight list are the same outcome.
pub proof fn lemma_split_deterministic(
    amount: u64,
    referral_agent_split: u8,
    w: Seq<u8>,
    a: SplitOutcome,
    b: SplitOutcome,
)
    requires
        a.is_split_of(amount, referral_agent_split, w),
        b.is_split_of(amount, referral_agent_split, w),
    ensures
        a.agent_amount == b.agent_amount,
        a.shares@ == b.shares@,
{
    let pool = pool_of(amount, referral_agent_split);
    assert forall|i: int| 0 <= i < w.len() implies a.shares@[i] == b.shares@[i] by {
        assert(a.shares@[i] == share_of(pool, w, i));
        assert(b.shares@[i] == share_of(pool, w, i));
    }
    assert(a.shares@ =~= b.shares@);
}

} // verus!
