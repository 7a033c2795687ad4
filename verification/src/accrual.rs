//! The accrual engine: how much an address may claim at a point in time,
//! the claim settlement itself, and the laws the computation obeys.

use vstd::prelude::*;

use crate::bytemap::{
    clone_bytes, lemma_lookup_remove_other, lemma_lookup_some_index, lemma_unique_keys_remove,
    lookup, unique_keys,
};
use crate::contract_data::{
    group_claimable, lemma_total_amounts_nonneg, lemma_total_amounts_remove, spec_elapsed,
    total_amounts, ScheduleType,
};
use crate::errors::Error;
use crate::token_release::{group_views, nodup_keys, TokenRelease};

verus! {

/// What group `g` contributes to an address's claimable amount at time
/// `now`, looking the schedule up in `entries`: nothing for a removed group
/// or one with no members, else the schedule's accrual for one member.
pub open spec fn group_contribution(
    st: TokenRelease,
    entries: Seq<(Vec<u8>, ScheduleType)>,
    g: Seq<u8>,
    now: u64,
) -> int {
    match lookup(entries, g) {
        None => 0,
        Some(s) => s.spec_claimable(st.members_of(g), spec_elapsed(st.activation_timestamp, now)),
    }
}

/// The sum of the contributions of the groups in `groups` at time `now`.
pub open spec fn claimable_over(
    st: TokenRelease,
    entries: Seq<(Vec<u8>, ScheduleType)>,
    groups: Seq<Seq<u8>>,
    now: u64,
) -> int
    decreases groups.len(),
{
    if groups.len() == 0 {
        0
    } else {
        claimable_over(st, entries, groups.drop_last(), now)
            + group_contribution(st, entries, groups.last(), now)
    }
}

/// One member's share of each group in `groups`, summed: the bound that the
/// claimable amount can never pass, however far in the future.
pub open spec fn entitlement_over(
    st: TokenRelease,
    entries: Seq<(Vec<u8>, ScheduleType)>,
    groups: Seq<Seq<u8>>,
) -> int
    decreases groups.len(),
{
    if groups.len() == 0 {
        0
    } else {
        entitlement_over(st, entries, groups.drop_last()) + match lookup(entries, groups.last()) {
            None => 0,
            Some(s) => s.spec_share(st.members_of(groups.last())),
        }
    }
}

/// Two entry sequences that agree on every group of `groups` yield the same
/// claimable sum.
proof fn lemma_claimable_entries_agree(
    st: TokenRelease,
    e1: Seq<(Vec<u8>, ScheduleType)>,
    e2: Seq<(Vec<u8>, ScheduleType)>,
    groups: Seq<Seq<u8>>,
    now: u64,
)
    requires
        forall|g: Seq<u8>| groups.contains(g) ==> lookup(e1, g) == lookup(e2, g),
    ensures
        claimable_over(st, e1, groups, now) == claimable_over(st, e2, groups, now),
    decreases groups.len(),
{
    if groups.len() > 0 {
        let tail = groups.drop_last();
        assert forall|g: Seq<u8>| tail.contains(g) implies lookup(e1, g) == lookup(e2, g) by {
            let k = choose|k: int| 0 <= k < tail.len() && tail[k] == g;
            assert(groups[k] == g);
            assert(groups.contains(g));
        }
        lemma_claimable_entries_agree(st, e1, e2, tail, now);
        assert(groups.contains(groups.last()));
    }
}

/// The claimable sum over duplicate-free groups is non-negative and never
/// exceeds the sum of all the live groups' totals.
proof fn lemma_claimable_le_total(
    st: TokenRelease,
    entries: Seq<(Vec<u8>, ScheduleType)>,
    groups: Seq<Seq<u8>>,
    now: u64,
)
    requires
        unique_keys(entries),
        nodup_keys(groups),
        forall|i: int| 0 <= i < entries.len() ==> (#[trigger] entries[i]).1.valid(),
    ensures
        0 <= claimable_over(st, entries, groups, now) <= total_amounts(entries),
    decreases groups.len(),
{
    if groups.len() == 0 {
        lemma_total_amounts_nonneg(entries);
    } else {
        let g = groups.last();
        let tail = groups.drop_last();
        assert(nodup_keys(tail));
        if lookup(entries, g) is None {
            lemma_claimable_le_total(st, entries, tail, now);
        } else {
            let i = lemma_lookup_some_index(entries, g);
            let s = entries[i].1;
            let elapsed = spec_elapsed(st.activation_timestamp, now);
            s.lemma_claimable_bounded(st.members_of(g), elapsed);
            assert(group_contribution(st, entries, g, now) <= s.group_total_amount);
            assert(0 <= group_contribution(st, entries, g, now));
            let rest = entries.remove(i);
            lemma_unique_keys_remove(entries, i);
            assert forall|j: int| 0 <= j < rest.len() implies (#[trigger] rest[j]).1.valid() by {
                if j < i {
                    assert(rest[j] == entries[j]);
                } else {
                    assert(rest[j] == entries[j + 1]);
                }
            }
            assert forall|g2: Seq<u8>| tail.contains(g2) implies
                lookup(entries, g2) == lookup(rest, g2) by {
                let k = choose|k: int| 0 <= k < tail.len() && tail[k] == g2;
                assert(groups[k] == g2);
                assert(g2 != g);
                lemma_lookup_remove_other(entries, i, g2);
            }
            lemma_claimable_entries_agree(st, entries, rest, tail, now);
            lemma_claimable_le_total(st, rest, tail, now);
            lemma_total_amounts_remove(entries, i);
        }
    }
}

/// The claimable sum is pointwise below the entitlement sum.
proof fn lemma_claimable_over_le_entitlement(
    st: TokenRelease,
    entries: Seq<(Vec<u8>, ScheduleType)>,
    groups: Seq<Seq<u8>>,
    now: u64,
)
    requires
        forall|i: int| 0 <= i < entries.len() ==> (#[trigger] entries[i]).1.valid(),
        unique_keys(entries),
    ensures
        claimable_over(st, entries, groups, now) <= entitlement_over(st, entries, groups),
    decreases groups.len(),
{
    if groups.len() > 0 {
        let g = groups.last();
        lemma_claimable_over_le_entitlement(st, entries, groups.drop_last(), now);
        if lookup(entries, g) is Some {
            let i = lemma_lookup_some_index(entries, g);
            let s = entries[i].1;
            s.lemma_claimable_bounded(st.members_of(g), spec_elapsed(st.activation_timestamp, now));
        }
    }
}

/// The claimable sum is pointwise non-decreasing in the clock reading.
proof fn lemma_claimable_over_monotonic(
    st: TokenRelease,
    entries: Seq<(Vec<u8>, ScheduleType)>,
    groups: Seq<Seq<u8>>,
    t1: u64,
    t2: u64,
)
    requires
        forall|i: int| 0 <= i < entries.len() ==> (#[trigger] entries[i]).1.valid(),
        unique_keys(entries),
        t1 <= t2,
    ensures
        claimable_over(st, entries, groups, t1) <= claimable_over(st, entries, groups, t2),
    decreases groups.len(),
{
    if groups.len() > 0 {
        let g = groups.last();
        lemma_claimable_over_monotonic(st, entries, groups.drop_last(), t1, t2);
        if lookup(entries, g) is Some {
            let i = lemma_lookup_some_index(entries, g);
            let s = entries[i].1;
            s.lemma_claimable_monotonic(
                st.members_of(g),
                spec_elapsed(st.activation_timestamp, t1),
                spec_elapsed(st.activation_timestamp, t2),
            );
        }
    }
}

impl TokenRelease {
    /// The cumulative amount address `a` is entitled to at time `now`,
    /// before subtracting what it has already claimed: the sum, over the
    /// groups the address belongs to, of the group's accrual for one member.
    pub open spec fn spec_claimable(self, a: Seq<u8>, now: u64) -> int {
        claimable_over(self, self.group_schedule.entries@, self.groups_of(a), now)
    }

    /// The most address `a` can ever claim: the sum of one member's share of
    /// each group it belongs to.
    pub open spec fn spec_max_entitlement(self, a: Seq<u8>) -> int {
        entitlement_over(self, self.group_schedule.entries@, self.groups_of(a))
    }

    /// Law: the claimable amount is non-decreasing as the clock advances,
    /// for a fixed address and state.
    pub proof fn lemma_claimable_monotonic(self, a: Seq<u8>, t1: u64, t2: u64)
        requires
            self.wf(),
            t1 <= t2,
        ensures
            self.spec_claimable(a, t1) <= self.spec_claimable(a, t2),
    {
        lemma_claimable_over_monotonic(self, self.group_schedule.entries@, self.groups_of(a),
            t1, t2);
    }

    /// Law: the claimable amount never exceeds the sum of each group's
    /// total divided by its member count, however far in the future the
    /// clock reads.
    pub proof fn lemma_claimable_bounded(self, a: Seq<u8>, now: u64)
        requires
            self.wf(),
        ensures
            0 <= self.spec_claimable(a, now),
            self.spec_claimable(a, now) <= self.spec_max_entitlement(a),
    {
        self.lemma_groups_of_nodup(a);
        lemma_claimable_le_total(self, self.group_schedule.entries@, self.groups_of(a), now);
        lemma_claimable_over_le_entitlement(self, self.group_schedule.entries@,
            self.groups_of(a), now);
    }

    /// Law: the claimable amount of any address never exceeds the token
    /// total supply.
    pub proof fn lemma_claimable_le_supply(self, a: Seq<u8>, now: u64)
        requires
            self.wf(),
        ensures
            0 <= self.spec_claimable(a, now) <= self.token_total_supply,
    {
        self.lemma_groups_of_nodup(a);
        lemma_claimable_le_total(self, self.group_schedule.entries@, self.groups_of(a), now);
    }

    /// The claimable amount does not depend on the claimed balances: two
    /// states that agree on schedules, counters, memberships and activation
    /// agree on it.
    pub proof fn lemma_claimable_ignores_balances(self, other: TokenRelease, a: Seq<u8>, now: u64)
        requires
            self.group_schedule == other.group_schedule,
            self.users_in_group == other.users_in_group,
            self.user_groups == other.user_groups,
            self.activation_timestamp == other.activation_timestamp,
        ensures
            self.spec_claimable(a, now) == other.spec_claimable(a, now),
    {
        Self::lemma_claimable_over_state_agree(self, other, self.group_schedule.entries@,
            self.groups_of(a), now);
        assert(self.groups_of(a) == other.groups_of(a));
    }

    /// Two states with the same counters and activation give the same
    /// claimable sum over any groups and entries.
    proof fn lemma_claimable_over_state_agree(
        s1: TokenRelease,
        s2: TokenRelease,
        entries: Seq<(Vec<u8>, ScheduleType)>,
        groups: Seq<Seq<u8>>,
        now: u64,
    )
        requires
            s1.users_in_group == s2.users_in_group,
            s1.activation_timestamp == s2.activation_timestamp,
        ensures
            claimable_over(s1, entries, groups, now) == claimable_over(s2, entries, groups, now),
        decreases groups.len(),
    {
        if groups.len() > 0 {
            Self::lemma_claimable_over_state_agree(s1, s2, entries, groups.drop_last(), now);
            assert(s1.members_of(groups.last()) == s2.members_of(groups.last()));
        }
    }

    /// Law: after a claim settles at some time, nothing more is claimable
    /// at that same time, so an immediate second claim fails.
    pub proof fn lemma_nothing_after_claim(self, post: TokenRelease, a: Seq<u8>, now: u64)
        requires
            self.group_schedule == post.group_schedule,
            self.users_in_group == post.users_in_group,
            self.user_groups == post.user_groups,
            self.activation_timestamp == post.activation_timestamp,
            post.balance_of(a) == self.spec_claimable(a, now),
        ensures
            post.spec_claimable(a, now) <= post.balance_of(a),
    {
        self.lemma_claimable_ignores_balances(post, a, now);
    }

    /// Computes the total claimable amount of an address at time `now`, for
    /// all of the address's groups.  A group that was removed, or whose
    /// member counter record is gone, contributes nothing.
    pub fn calculate_claimable_tokens(&self, address: &Vec<u8>, now: u64) -> (r: u128)
        requires
            self.wf(),
        ensures
            r as int == self.spec_claimable(address@, now),
    {
        let list: &Vec<Vec<u8>> = match self.user_groups.get(address) {
            Some(l) => l,
            None => {
                return 0;
            },
        };
        let ghost gs = group_views(list@);
        proof {
            assert(gs =~= self.groups_of(address@));
            self.lemma_groups_of_nodup(address@);
            assert(gs.subrange(0, 0) =~= Seq::<Seq<u8>>::empty());
        }
        let mut total: u128 = 0;
        let mut i: usize = 0;
        while i < list.len()
            invariant
                i <= list@.len(),
                self.wf(),
                gs == group_views(list@),
                nodup_keys(gs),
                gs.len() == list@.len(),
                total as int == claimable_over(*self, self.group_schedule.entries@,
                    gs.subrange(0, i as int), now),
            decreases list@.len() - i,
        {
            let ghost g = gs[i as int];
            let contribution: u128 = match self.group_schedule.get(&list[i]) {
                Some(s) => {
                    let members: u64 = match self.users_in_group.get(&list[i]) {
                        Some(n) => *n,
                        None => 0,
                    };
                    let elapsed: u64 = if now >= self.activation_timestamp {
                        now - self.activation_timestamp
                    } else {
                        0
                    };
                    proof {
                        let j = lemma_lookup_some_index(self.group_schedule.entries@, g);
                        assert(s.valid());
                        assert(elapsed as int == spec_elapsed(self.activation_timestamp, now));
                    }
                    group_claimable(s, members, elapsed)
                },
                None => 0,
            };
            proof {
                assert(contribution as int
                    == group_contribution(*self, self.group_schedule.entries@, g, now));
                let sub1 = gs.subrange(0, i as int + 1);
                assert(sub1.drop_last() =~= gs.subrange(0, i as int));
                assert(sub1.last() == g);
                assert(nodup_keys(sub1));
                lemma_claimable_le_total(*self, self.group_schedule.entries@, sub1, now);
                lemma_claimable_le_total(*self, self.group_schedule.entries@,
                    gs.subrange(0, i as int), now);
                assert(total as int + contribution as int <= self.token_total_supply);
            }
            total = total + contribution;
            i += 1;
        }
        proof {
            assert(gs.subrange(0, list@.len() as int) =~= gs);
        }
        total
    }

    /// How many more tokens the caller could claim right now: the claimable
    /// amount minus the balance already claimed, floored at zero.
    pub fn verify_claimable_tokens(&self, caller: &Vec<u8>, now: u64) -> (r: u128)
        requires
            self.wf(),
        ensures
            r as int == if self.spec_claimable(caller@, now) > self.balance_of(caller@) {
                self.spec_claimable(caller@, now) - self.balance_of(caller@)
            } else {
                0
            },
    {
        let total_claimable = self.calculate_claimable_tokens(caller, now);
        let current_balance = self.get_claimed_balance(caller);
        if total_claimable > current_balance {
            total_claimable - current_balance
        } else {
            0
        }
    }

    /// Settles a claim of the caller at time `now`.  Only after the setup
    /// period.  On success it returns the amount the host must transfer to
    /// the caller, and the caller's claimed balance rises to the claimable
    /// amount; the balance never decreases.  Fails with `NothingToClaim`
    /// when the claimable amount does not exceed the balance already
    /// claimed.
    pub fn claim_tokens(&mut self, caller: &Vec<u8>, now: u64) -> (r: Result<u128, Error>)
        requires
            old(self).wf(),
        ensures
            final(self).wf(),
            r is Ok <==> !old(self).setup_period_status
                && old(self).spec_claimable(caller@, now) > old(self).balance_of(caller@),
            match r {
                Ok(delta) => {
                    &&& delta as int == old(self).spec_claimable(caller@, now)
                        - old(self).balance_of(caller@)
                    &&& delta > 0
                    &&& final(self).balance_of(caller@) == old(self).spec_claimable(caller@, now)
                    &&& final(self).balance_of(caller@) >= old(self).balance_of(caller@)
                    &&& forall|a: Seq<u8>| a != caller@
                        ==> #[trigger] final(self).claimed_balance.spec_get(a)
                            == old(self).claimed_balance.spec_get(a)
                    &&& final(self).owner == old(self).owner
                    &&& final(self).token_identifier == old(self).token_identifier
                    &&& final(self).activation_timestamp == old(self).activation_timestamp
                    &&& final(self).setup_period_status == old(self).setup_period_status
                    &&& final(self).token_total_supply == old(self).token_total_supply
                    &&& final(self).group_schedule == old(self).group_schedule
                    &&& final(self).users_in_group == old(self).users_in_group
                    &&& final(self).user_groups == old(self).user_groups
                    &&& final(self).address_change_request == old(self).address_change_request
                },
                Err(e) => {
                    &&& *final(self) == *old(self)
                    &&& e == if old(self).setup_period_status {
                        Error::PreconditionFailed
                    } else {
                        Error::NothingToClaim
                    }
                },
            },
    {
        match self.require_setup_period_ended() {
            Err(e) => {
                return Err(e);
            },
            Ok(()) => {},
        }
        let total_claimable = self.calculate_claimable_tokens(caller, now);
        let current_balance = self.get_claimed_balance(caller);
        if total_claimable <= current_balance {
            return Err(Error::NothingToClaim);
        }
        let delta = total_claimable - current_balance;
        self.claimed_balance.insert(clone_bytes(caller), total_claimable);
        Ok(delta)
    }
}

} // verus!
