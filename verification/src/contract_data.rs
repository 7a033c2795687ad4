//! The release schedule of a group, and the arithmetic that turns elapsed
//! time into a claimable amount for one group.

use vstd::prelude::*;
use vstd::arithmetic::div_mod::{
    lemma_div_is_ordered, lemma_div_is_ordered_by_denominator, lemma_div_pos_is_pos,
    lemma_fundamental_div_mod, lemma_mod_bound,
};
use vstd::arithmetic::mul::lemma_mul_inequality;

verus! {

/// The rule set governing how much of a group's allocation unlocks per
/// release period.
#[derive(Clone, Copy, Debug, PartialEq, Eq, Structural)]
pub struct ScheduleType {
    /// Total number of tokens released for this group.
    pub group_total_amount: u128,
    /// True when tokens are released by a fixed amount each period, false
    /// when they are released by a percentage of the group total each period.
    pub is_fixed_amount: bool,
    /// Unlock percentage for each period, based on the group total
    /// (`group_unlock_percent * release_ticks` must equal 100).
    pub group_unlock_percent: u8,
    /// Fixed unlock amount for each period
    /// (`period_unlock_amount * release_ticks` must equal `group_total_amount`).
    pub period_unlock_amount: u128,
    /// The duration of each release period, in seconds.
    pub release_period: u64,
    /// Total number of unlock periods.
    pub release_ticks: u64,
}

/// Seconds elapsed since activation; a clock reading before activation
/// counts as no elapsed time.
pub open spec fn spec_elapsed(activation: u64, now: u64) -> int {
    if now >= activation {
        now - activation
    } else {
        0
    }
}

impl ScheduleType {
    /// A schedule the ledger accepts: at least one tick, a positive period
    /// and total, and the fixed-amount or percentage consistency rule.  A
    /// percentage total also leaves headroom for the multiply-before-divide
    /// accrual arithmetic to stay within the machine word.
    pub open spec fn valid(self) -> bool {
        &&& self.release_ticks >= 1
        &&& self.release_period >= 1
        &&& self.group_total_amount >= 1
        &&& self.is_fixed_amount ==> (self.period_unlock_amount as int)
            * (self.release_ticks as int) == self.group_total_amount as int
        &&& !self.is_fixed_amount ==> (self.group_unlock_percent as int)
            * (self.release_ticks as int) == 100
        &&& !self.is_fixed_amount ==> self.group_total_amount <= u128::MAX / 100
    }

    /// Number of completed release periods after `elapsed` seconds, clamped
    /// to the schedule's tick count.
    pub open spec fn spec_periods(self, elapsed: int) -> int {
        let p = elapsed / (self.release_period as int);
        if p > self.release_ticks {
            self.release_ticks as int
        } else {
            p
        }
    }

    /// The cumulative amount one of `members` members of this group may
    /// claim after `elapsed` seconds.  Multiplications happen fully before
    /// any division; truncation happens once per group.  A group with no
    /// registered member contributes nothing.
    pub open spec fn spec_claimable(self, members: u64, elapsed: int) -> int {
        let p = self.spec_periods(elapsed);
        if p <= 0 || members == 0 {
            0
        } else if self.is_fixed_amount {
            (p * (self.period_unlock_amount as int)) / (members as int)
        } else {
            (p * (self.group_total_amount as int) * (self.group_unlock_percent as int))
                / 100 / (members as int)
        }
    }

    /// One member's share of the whole group allocation: the upper bound of
    /// `spec_claimable`, however far in the future the clock reads.
    pub open spec fn spec_share(self, members: u64) -> int {
        if members == 0 {
            0
        } else {
            (self.group_total_amount as int) / (members as int)
        }
    }

    /// The completed periods lie between zero and the tick count.
    proof fn lemma_periods_range(self, elapsed: int)
        requires
            self.valid(),
            elapsed >= 0,
        ensures
            0 <= self.spec_periods(elapsed) <= self.release_ticks,
    {
        lemma_div_pos_is_pos(elapsed, self.release_period as int);
    }

    /// A percentage schedule has at most 100 ticks and a positive percent.
    proof fn lemma_percent_facts(self)
        requires
            self.valid(),
            !self.is_fixed_amount,
        ensures
            1 <= self.group_unlock_percent <= 100,
            self.release_ticks <= 100,
    {
        let pc = self.group_unlock_percent as int;
        let ticks = self.release_ticks as int;
        assert(1 <= pc <= 100 && ticks <= 100) by (nonlinear_arith)
            requires
                pc * ticks == 100,
                pc >= 0,
                ticks >= 1,
        ;
    }

    /// What a member may claim is never negative and never exceeds the
    /// member's share of the group total.
    pub proof fn lemma_claimable_bounded(self, members: u64, elapsed: int)
        requires
            self.valid(),
            elapsed >= 0,
        ensures
            0 <= self.spec_claimable(members, elapsed),
            self.spec_claimable(members, elapsed) <= self.spec_share(members),
            self.spec_share(members) <= self.group_total_amount,
    {
        let total = self.group_total_amount as int;
        let m = members as int;
        let p = self.spec_periods(elapsed);
        self.lemma_periods_range(elapsed);
        if members >= 1 {
            lemma_div_pos_is_pos(total, m);
            lemma_div_is_ordered_by_denominator(total, 1, m);
        }
        if p <= 0 || members == 0 {
        } else if self.is_fixed_amount {
            let unlock = self.period_unlock_amount as int;
            lemma_mul_inequality(p, self.release_ticks as int, unlock);
            assert((self.release_ticks as int) * unlock == total) by (nonlinear_arith)
                requires
                    unlock * (self.release_ticks as int) == total,
            ;
            lemma_div_pos_is_pos(p * unlock, m);
            lemma_div_is_ordered(p * unlock, total, m);
        } else {
            let pc = self.group_unlock_percent as int;
            let ticks = self.release_ticks as int;
            let x = p * total * pc;
            assert(0 <= p * total * pc) by (nonlinear_arith)
                requires
                    p >= 0,
                    total >= 0,
                    pc >= 0,
            ;
            assert(p * total * pc <= ticks * total * pc) by (nonlinear_arith)
                requires
                    0 <= p <= ticks,
                    total >= 0,
                    pc >= 0,
            ;
            assert(ticks * total * pc == 100 * total) by (nonlinear_arith)
                requires
                    pc * ticks == 100,
            ;
            assert(x <= 100 * total);
            lemma_div_pos_is_pos(x, 100);
            lemma_div_is_ordered(x, 100 * total, 100);
            assert((100 * total) / 100 == total) by (nonlinear_arith)
                requires
                    total >= 1,
            ;
            lemma_div_pos_is_pos(x / 100, m);
            lemma_div_is_ordered(x / 100, total, m);
        }
    }

    /// The claimable amount is non-decreasing in the elapsed time.
    pub proof fn lemma_claimable_monotonic(self, members: u64, e1: int, e2: int)
        requires
            self.valid(),
            0 <= e1 <= e2,
        ensures
            self.spec_claimable(members, e1) <= self.spec_claimable(members, e2),
    {
        let per = self.release_period as int;
        let p1 = self.spec_periods(e1);
        let p2 = self.spec_periods(e2);
        lemma_div_is_ordered(e1, e2, per);
        self.lemma_periods_range(e1);
        self.lemma_periods_range(e2);
        assert(p1 <= p2);
        self.lemma_claimable_bounded(members, e1);
        self.lemma_claimable_bounded(members, e2);
        let m = members as int;
        if p1 <= 0 || members == 0 {
        } else if self.is_fixed_amount {
            let unlock = self.period_unlock_amount as int;
            lemma_mul_inequality(p1, p2, unlock);
            lemma_div_is_ordered(p1 * unlock, p2 * unlock, m);
        } else {
            let total = self.group_total_amount as int;
            let pc = self.group_unlock_percent as int;
            assert(p1 * total * pc <= p2 * total * pc) by (nonlinear_arith)
                requires
                    0 <= p1 <= p2,
                    total >= 1,
                    pc >= 0,
            ;
            lemma_div_is_ordered(p1 * total * pc, p2 * total * pc, 100);
            lemma_div_is_ordered(p1 * total * pc / 100, p2 * total * pc / 100, m);
        }
    }

    /// The intermediate products of the accrual arithmetic fit the machine
    /// word, so the executable computation cannot overflow.
    proof fn lemma_products_fit(self, elapsed: int)
        requires
            self.valid(),
            elapsed >= 0,
        ensures
            self.is_fixed_amount ==> self.spec_periods(elapsed)
                * (self.period_unlock_amount as int) <= u128::MAX,
            !self.is_fixed_amount ==> self.spec_periods(elapsed)
                * (self.group_total_amount as int) <= u128::MAX,
            !self.is_fixed_amount ==> self.spec_periods(elapsed)
                * (self.group_total_amount as int)
                * (self.group_unlock_percent as int) <= u128::MAX,
    {
        let p = self.spec_periods(elapsed);
        let ticks = self.release_ticks as int;
        let total = self.group_total_amount as int;
        self.lemma_periods_range(elapsed);
        if self.is_fixed_amount {
            let unlock = self.period_unlock_amount as int;
            lemma_mul_inequality(p, ticks, unlock);
            assert(ticks * unlock == total) by (nonlinear_arith)
                requires
                    unlock * ticks == total,
            ;
        } else {
            let pc = self.group_unlock_percent as int;
            self.lemma_percent_facts();
            let cap = u128::MAX as int;
            lemma_fundamental_div_mod(cap, 100);
            lemma_mod_bound(cap, 100);
            assert(100 * (cap / 100) <= cap);
            assert(p * total <= 100 * total) by (nonlinear_arith)
                requires
                    0 <= p <= 100,
                    total >= 0,
            ;
            assert(p * total * pc <= ticks * total * pc) by (nonlinear_arith)
                requires
                    0 <= p <= ticks,
                    total >= 0,
                    pc >= 0,
            ;
            assert(ticks * total * pc == 100 * total) by (nonlinear_arith)
                requires
                    pc * ticks == 100,
            ;
            assert(100 * total <= 100 * (cap / 100)) by (nonlinear_arith)
                requires
                    total <= cap / 100,
            ;
        }
    }
}

/// The cumulative amount one of `members` members of schedule `s` may claim
/// after `elapsed` seconds.
pub fn group_claimable(s: &ScheduleType, members: u64, elapsed: u64) -> (r: u128)
    requires
        s.valid(),
    ensures
        r as int == s.spec_claimable(members, elapsed as int),
{
    let periods_passed: u64 = elapsed / s.release_period;
    let periods: u64 = if periods_passed > s.release_ticks {
        s.release_ticks
    } else {
        periods_passed
    };
    if periods == 0 || members == 0 {
        return 0;
    }
    proof {
        assert(periods as int == s.spec_periods(elapsed as int));
        s.lemma_products_fit(elapsed as int);
        s.lemma_claimable_bounded(members, elapsed as int);
    }
    if s.is_fixed_amount {
        ((periods as u128) * s.period_unlock_amount) / (members as u128)
    } else {
        ((periods as u128) * s.group_total_amount * (s.group_unlock_percent as u128))
            / 100 / (members as u128)
    }
}

/// The sum of the `group_total_amount` of every schedule in an entry
/// sequence: what the token total supply must equal.
pub open spec fn total_amounts(s: Seq<(Vec<u8>, ScheduleType)>) -> int
    decreases s.len(),
{
    if s.len() == 0 {
        0
    } else {
        total_amounts(s.drop_last()) + s.last().1.group_total_amount
    }
}

/// The sum of the group totals is never negative.
pub proof fn lemma_total_amounts_nonneg(s: Seq<(Vec<u8>, ScheduleType)>)
    ensures
        total_amounts(s) >= 0,
    decreases s.len(),
{
    if s.len() > 0 {
        lemma_total_amounts_nonneg(s.drop_last());
    }
}

/// Appending an entry adds its group total to the sum.
pub proof fn lemma_total_amounts_push(s: Seq<(Vec<u8>, ScheduleType)>, e: (Vec<u8>, ScheduleType))
    ensures
        total_amounts(s.push(e)) == total_amounts(s) + e.1.group_total_amount,
{
    assert(s.push(e).drop_last() =~= s);
}

/// Removing an entry subtracts its group total from the sum.
pub proof fn lemma_total_amounts_remove(s: Seq<(Vec<u8>, ScheduleType)>, i: int)
    requires
        0 <= i < s.len(),
    ensures
        total_amounts(s) == total_amounts(s.remove(i)) + s[i].1.group_total_amount,
    decreases s.len(),
{
    if i == s.len() - 1 {
        assert(s.remove(i) =~= s.drop_last());
    } else {
        let t = s.drop_last();
        lemma_total_amounts_remove(t, i);
        assert(s.remove(i).drop_last() =~= t.remove(i));
        assert(s.remove(i).last() == s.last());
    }
}

} // verus!
