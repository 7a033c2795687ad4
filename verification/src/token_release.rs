//! The vesting ledger state and its administrative and user operations.
//!
//! The host environment supplies the clock reading, the verified caller
//! identity and the role flags as plain values, performs the actual token
//! mint and transfer, and keeps the state durable between calls.  Every
//! operation here either succeeds and commits, or fails and leaves the state
//! untouched.

use vstd::prelude::*;

use crate::bytemap::{
    bytes_eq, clone_bytes, lemma_lookup_some_index, ByteMap,
};
use crate::contract_data::{
    lemma_total_amounts_nonneg, lemma_total_amounts_push, lemma_total_amounts_remove,
    total_amounts, ScheduleType,
};
use crate::errors::Error;
use crate::identifier::{is_valid_token_identifier, valid_token_identifier};

verus! {

/// The views of a list of group identifiers.
pub open spec fn group_views(l: Seq<Vec<u8>>) -> Seq<Seq<u8>> {
    l.map_values(|g: Vec<u8>| g@)
}

/// No group identifier occurs twice in the list.
pub open spec fn nodup_groups(l: Seq<Vec<u8>>) -> bool {
    forall|i: int, j: int| 0 <= i < j < l.len() ==> l[i]@ != l[j]@
}

/// No key occurs twice in the sequence.
pub open spec fn nodup_keys(s: Seq<Seq<u8>>) -> bool {
    forall|i: int, j: int| 0 <= i < j < s.len() ==> s[i] != s[j]
}

/// A counter decremented towards zero, staying at zero for a group whose
/// counter record was already deleted.
pub open spec fn spec_dec(c: u64) -> u64 {
    if c > 0 {
        (c - 1) as u64
    } else {
        0
    }
}

/// The whole state of the vesting ledger.
pub struct TokenRelease {
    /// The administrator: the identity that deployed the ledger.
    pub owner: Vec<u8>,
    /// The identifier of the vested token, set once at initialization.
    pub token_identifier: Vec<u8>,
    /// The clock origin for all schedule arithmetic, set once at
    /// initialization.
    pub activation_timestamp: u64,
    /// True while the setup period is open; transitions once to false.
    pub setup_period_status: bool,
    /// The sum of every live group's total amount.
    pub token_total_supply: u128,
    /// The release schedule of each live group.
    pub group_schedule: ByteMap<ScheduleType>,
    /// The number of current members of each group.
    pub users_in_group: ByteMap<u64>,
    /// The ordered list of groups each address belongs to.
    pub user_groups: ByteMap<Vec<Vec<u8>>>,
    /// The cumulative tokens already transferred to each address.
    pub claimed_balance: ByteMap<u128>,
    /// The pending new address requested by each address, if any.
    pub address_change_request: ByteMap<Vec<u8>>,
}

impl TokenRelease {
    /// The state invariant: storage maps are well formed, every stored
    /// schedule is valid, the token total supply equals the sum of the live
    /// groups' totals, and no membership list repeats a group.
    pub open spec fn wf(self) -> bool {
        &&& self.group_schedule.wf()
        &&& self.users_in_group.wf()
        &&& self.user_groups.wf()
        &&& self.claimed_balance.wf()
        &&& self.address_change_request.wf()
        &&& forall|i: int| 0 <= i < self.group_schedule.entries@.len()
            ==> (#[trigger] self.group_schedule.entries@[i]).1.valid()
        &&& self.token_total_supply as int == total_amounts(self.group_schedule.entries@)
        &&& forall|i: int| 0 <= i < self.user_groups.entries@.len()
            ==> nodup_groups((#[trigger] self.user_groups.entries@[i]).1@)
    }

    /// The schedule of group `g`, if the group is live.
    pub open spec fn spec_schedule(self, g: Seq<u8>) -> Option<ScheduleType> {
        self.group_schedule.spec_get(g)
    }

    /// The current member count of group `g`; a missing counter record
    /// counts as zero.
    pub open spec fn members_of(self, g: Seq<u8>) -> u64 {
        match self.users_in_group.spec_get(g) {
            Some(n) => n,
            None => 0,
        }
    }

    /// The groups address `a` belongs to, in insertion order.
    pub open spec fn groups_of(self, a: Seq<u8>) -> Seq<Seq<u8>> {
        match self.user_groups.spec_get(a) {
            Some(l) => group_views(l@),
            None => Seq::empty(),
        }
    }

    /// Whether address `a` belongs to group `g`.
    pub open spec fn is_member(self, a: Seq<u8>, g: Seq<u8>) -> bool {
        self.groups_of(a).contains(g)
    }

    /// The cumulative tokens already claimed by address `a`; a missing
    /// record counts as zero.
    pub open spec fn balance_of(self, a: Seq<u8>) -> int {
        match self.claimed_balance.spec_get(a) {
            Some(b) => b as int,
            None => 0,
        }
    }

    /// The pending address-change target of address `a`, if any.
    pub open spec fn request_of(self, a: Seq<u8>) -> Option<Seq<u8>> {
        match self.address_change_request.spec_get(a) {
            Some(n) => Some(n@),
            None => None,
        }
    }

    /// Whether address `a` already holds a membership or balance record, so
    /// that an address change may not transplant onto it.
    pub open spec fn spec_occupied(self, a: Seq<u8>) -> bool {
        self.user_groups.spec_get(a) is Some || self.claimed_balance.spec_get(a) is Some
    }

    /// Every stored schedule is valid; in particular a fixed-amount schedule
    /// satisfies `period_unlock_amount * release_ticks == group_total_amount`
    /// and a percentage schedule `group_unlock_percent * release_ticks == 100`.
    pub proof fn lemma_stored_schedule_valid(self, g: Seq<u8>, s: ScheduleType)
        requires
            self.wf(),
            self.spec_schedule(g) == Some(s),
        ensures
            s.valid(),
            s.is_fixed_amount ==> (s.period_unlock_amount as int) * (s.release_ticks as int)
                == s.group_total_amount as int,
            !s.is_fixed_amount ==> (s.group_unlock_percent as int) * (s.release_ticks as int)
                == 100,
    {
        let i = lemma_lookup_some_index(self.group_schedule.entries@, g);
    }

    /// The token total supply equals the sum of the live groups' total
    /// amounts, in every well-formed state.
    pub proof fn lemma_supply_is_group_sum(self)
        requires
            self.wf(),
        ensures
            self.token_total_supply as int == total_amounts(self.group_schedule.entries@),
            self.token_total_supply >= 0,
    {
    }

    /// The group list of any address never repeats a group.
    pub proof fn lemma_groups_of_nodup(self, a: Seq<u8>)
        requires
            self.wf(),
        ensures
            nodup_keys(self.groups_of(a)),
    {
        if self.user_groups.spec_get(a) is Some {
            let i = lemma_lookup_some_index(self.user_groups.entries@, a);
        }
    }

    /// Initializes the ledger with the setup period open.  Fails only on a
    /// malformed token identifier.  The caller that initializes becomes the
    /// owner; the host's clock reading becomes the activation timestamp.
    pub fn init(owner: Vec<u8>, token_identifier: Vec<u8>, activation_timestamp: u64)
        -> (r: Result<TokenRelease, Error>)
        ensures
            r is Ok <==> valid_token_identifier(token_identifier@),
            match r {
                Ok(st) => {
                    &&& st.wf()
                    &&& st.owner@ == owner@
                    &&& st.token_identifier@ == token_identifier@
                    &&& st.activation_timestamp == activation_timestamp
                    &&& st.setup_period_status
                    &&& st.token_total_supply == 0
                    &&& forall|g: Seq<u8>| st.spec_schedule(g) is None
                    &&& forall|g: Seq<u8>| #[trigger] st.members_of(g) == 0
                    &&& forall|a: Seq<u8>| #[trigger] st.groups_of(a) == Seq::<Seq<u8>>::empty()
                    &&& forall|a: Seq<u8>| #[trigger] st.balance_of(a) == 0
                    &&& forall|a: Seq<u8>| st.request_of(a) is None
                },
                Err(e) => e == Error::InvalidInput,
            },
    {
        if !is_valid_token_identifier(&token_identifier) {
            return Err(Error::InvalidInput);
        }
        let st = TokenRelease {
            owner,
            token_identifier,
            activation_timestamp,
            setup_period_status: true,
            token_total_supply: 0,
            group_schedule: ByteMap::new(),
            users_in_group: ByteMap::new(),
            user_groups: ByteMap::new(),
            claimed_balance: ByteMap::new(),
            address_change_request: ByteMap::new(),
        };
        Ok(st)
    }

    /// The single authorization guard of every administrative operation.
    pub fn require_caller_is_owner(&self, caller: &Vec<u8>) -> (r: Result<(), Error>)
        ensures
            r is Ok <==> caller@ == self.owner@,
            r is Err ==> r == Err::<(), Error>(Error::PermissionDenied),
    {
        if bytes_eq(caller, &self.owner) {
            Ok(())
        } else {
            Err(Error::PermissionDenied)
        }
    }

    /// Fails unless the setup period is still open.
    pub fn require_setup_period_live(&self) -> (r: Result<(), Error>)
        ensures
            r is Ok <==> self.setup_period_status,
            r is Err ==> r == Err::<(), Error>(Error::PreconditionFailed),
    {
        if self.setup_period_status {
            Ok(())
        } else {
            Err(Error::PreconditionFailed)
        }
    }

    /// Fails unless the setup period has ended.
    pub fn require_setup_period_ended(&self) -> (r: Result<(), Error>)
        ensures
            r is Ok <==> !self.setup_period_status,
            r is Err ==> r == Err::<(), Error>(Error::PreconditionFailed),
    {
        if self.setup_period_status {
            Err(Error::PreconditionFailed)
        } else {
            Ok(())
        }
    }

    /// Fails unless the host reports both the local mint and the local burn
    /// role as set on the token.
    pub fn require_local_burn_and_mint_roles_set(
        &self,
        mint_role_set: bool,
        burn_role_set: bool,
    ) -> (r: Result<(), Error>)
        ensures
            r is Ok <==> mint_role_set && burn_role_set,
            r is Err ==> r == Err::<(), Error>(Error::AuthorizationMissing),
    {
        if mint_role_set && burn_role_set {
            Ok(())
        } else {
            Err(Error::AuthorizationMissing)
        }
    }

    /// Ends the setup period: a one-way transition.  On success it returns
    /// the amount of tokens the host must mint, exactly once; a second call
    /// fails, so the supply is never minted twice.  Fails when the caller is
    /// not the owner, when the setup period has already ended, or when the
    /// mint or burn role is missing.
    pub fn end_setup_period(
        &mut self,
        caller: &Vec<u8>,
        mint_role_set: bool,
        burn_role_set: bool,
    ) -> (r: Result<u128, Error>)
        ensures
            r is Ok <==> caller@ == old(self).owner@ && old(self).setup_period_status
                && mint_role_set && burn_role_set,
            match r {
                Ok(amount) => {
                    &&& amount == old(self).token_total_supply
                    &&& !final(self).setup_period_status
                    &&& final(self).owner == old(self).owner
                    &&& final(self).token_identifier == old(self).token_identifier
                    &&& final(self).activation_timestamp == old(self).activation_timestamp
                    &&& final(self).token_total_supply == old(self).token_total_supply
                    &&& final(self).group_schedule == old(self).group_schedule
                    &&& final(self).users_in_group == old(self).users_in_group
                    &&& final(self).user_groups == old(self).user_groups
                    &&& final(self).claimed_balance == old(self).claimed_balance
                    &&& final(self).address_change_request == old(self).address_change_request
                    &&& old(self).wf() ==> final(self).wf()
                },
                Err(e) => {
                    &&& *final(self) == *old(self)
                    &&& e == if caller@ != old(self).owner@ {
                        Error::PermissionDenied
                    } else if !old(self).setup_period_status {
                        Error::PreconditionFailed
                    } else {
                        Error::AuthorizationMissing
                    }
                },
            },
    {
        match self.require_caller_is_owner(caller) {
            Err(e) => {
                return Err(e);
            },
            Ok(()) => {},
        }
        match self.require_setup_period_live() {
            Err(e) => {
                return Err(e);
            },
            Ok(()) => {},
        }
        match self.require_local_burn_and_mint_roles_set(mint_role_set, burn_role_set) {
            Err(e) => {
                return Err(e);
            },
            Ok(()) => {},
        }
        self.setup_period_status = false;
        Ok(self.token_total_supply)
    }

    /// Registers a request to move the caller's membership and claimed
    /// balance to `new_address`, overwriting any prior request of the same
    /// caller.  Allowed only after the setup period has ended.
    pub fn request_address_change(&mut self, caller: &Vec<u8>, new_address: Vec<u8>)
        -> (r: Result<(), Error>)
        requires
            old(self).wf(),
        ensures
            final(self).wf(),
            r is Ok <==> !old(self).setup_period_status,
            match r {
                Ok(_) => {
                    &&& final(self).request_of(caller@) == Some(new_address@)
                    &&& forall|a: Seq<u8>| a != caller@
                        ==> #[trigger] final(self).request_of(a) == old(self).request_of(a)
                    &&& final(self).owner == old(self).owner
                    &&& final(self).token_identifier == old(self).token_identifier
                    &&& final(self).activation_timestamp == old(self).activation_timestamp
                    &&& final(self).setup_period_status == old(self).setup_period_status
                    &&& final(self).token_total_supply == old(self).token_total_supply
                    &&& final(self).group_schedule == old(self).group_schedule
                    &&& final(self).users_in_group == old(self).users_in_group
                    &&& final(self).user_groups == old(self).user_groups
                    &&& final(self).claimed_balance == old(self).claimed_balance
                },
                Err(e) => *final(self) == *old(self) && e == Error::PreconditionFailed,
            },
    {
        match self.require_setup_period_ended() {
            Err(e) => {
                return Err(e);
            },
            Ok(()) => {},
        }
        self.address_change_request.insert(clone_bytes(caller), new_address);
        Ok(())
    }

    /// Defines a new group with its release schedule.  Owner-only, and only
    /// while the setup period is open.  Fails on a duplicate group, on a
    /// schedule with no tick, no period or no total, on a broken
    /// fixed-amount or percentage consistency rule, and when the new total
    /// would push the token total supply past the machine word.  On success
    /// the group's total is added to the token total supply.
    pub fn add_group(
        &mut self,
        caller: &Vec<u8>,
        group_identifier: Vec<u8>,
        group_total_amount: u128,
        is_fixed_amount: bool,
        group_unlock_percent: u8,
        period_unlock_amount: u128,
        release_period: u64,
        release_ticks: u64,
    ) -> (r: Result<(), Error>)
        requires
            old(self).wf(),
        ensures
            final(self).wf(),
            r is Ok <==> {
                let sched = ScheduleType {
                    group_total_amount,
                    is_fixed_amount,
                    group_unlock_percent,
                    period_unlock_amount,
                    release_period,
                    release_ticks,
                };
                &&& caller@ == old(self).owner@
                &&& old(self).setup_period_status
                &&& old(self).spec_schedule(group_identifier@) is None
                &&& sched.valid()
                &&& old(self).token_total_supply + group_total_amount <= u128::MAX
            },
            match r {
                Ok(_) => {
                    &&& final(self).spec_schedule(group_identifier@) == Some(ScheduleType {
                        group_total_amount,
                        is_fixed_amount,
                        group_unlock_percent,
                        period_unlock_amount,
                        release_period,
                        release_ticks,
                    })
                    &&& forall|g: Seq<u8>| g != group_identifier@
                        ==> #[trigger] final(self).spec_schedule(g) == old(self).spec_schedule(g)
                    &&& final(self).token_total_supply
                        == old(self).token_total_supply + group_total_amount
                    &&& final(self).owner == old(self).owner
                    &&& final(self).token_identifier == old(self).token_identifier
                    &&& final(self).activation_timestamp == old(self).activation_timestamp
                    &&& final(self).setup_period_status == old(self).setup_period_status
                    &&& final(self).users_in_group == old(self).users_in_group
                    &&& final(self).user_groups == old(self).user_groups
                    &&& final(self).claimed_balance == old(self).claimed_balance
                    &&& final(self).address_change_request == old(self).address_change_request
                },
                Err(e) => {
                    &&& *final(self) == *old(self)
                    &&& e == if caller@ != old(self).owner@ {
                        Error::PermissionDenied
                    } else if !old(self).setup_period_status
                        || old(self).spec_schedule(group_identifier@) is Some {
                        Error::PreconditionFailed
                    } else {
                        Error::InvalidInput
                    }
                },
            },
    {
        match self.require_caller_is_owner(caller) {
            Err(e) => {
                return Err(e);
            },
            Ok(()) => {},
        }
        match self.require_setup_period_live() {
            Err(e) => {
                return Err(e);
            },
            Ok(()) => {},
        }
        if self.group_schedule.contains_key(&group_identifier) {
            return Err(Error::PreconditionFailed);
        }
        let new_group = ScheduleType {
            group_total_amount,
            is_fixed_amount,
            group_unlock_percent,
            period_unlock_amount,
            release_period,
            release_ticks,
        };
        if release_ticks == 0 || release_period == 0 || group_total_amount == 0 {
            return Err(Error::InvalidInput);
        }
        if is_fixed_amount {
            let consistent = match period_unlock_amount.checked_mul(release_ticks as u128) {
                Some(x) => x == group_total_amount,
                None => false,
            };
            if !consistent {
                return Err(Error::InvalidInput);
            }
        } else {
            let consistent = match (group_unlock_percent as u64).checked_mul(release_ticks) {
                Some(x) => x == 100,
                None => false,
            };
            if !consistent || group_total_amount > u128::MAX / 100 {
                return Err(Error::InvalidInput);
            }
        }
        proof {
            assert(new_group.valid());
        }
        let new_supply = match self.token_total_supply.checked_add(group_total_amount) {
            Some(s) => s,
            None => {
                return Err(Error::InvalidInput);
            },
        };
        let ghost entries0 = self.group_schedule.entries@;
        self.token_total_supply = new_supply;
        self.group_schedule.insert(group_identifier, new_group);
        proof {
            lemma_total_amounts_push(entries0, (self.group_schedule.entries@.last().0, new_group));
            assert(entries0.push(self.group_schedule.entries@.last())
                =~= self.group_schedule.entries@);
            assert forall|i: int| 0 <= i < self.group_schedule.entries@.len() implies
                (#[trigger] self.group_schedule.entries@[i]).1.valid() by {
                if i < entries0.len() {
                    assert(self.group_schedule.entries@[i] == entries0[i]);
                }
            }
        }
        Ok(())
    }

    /// Removes a live group.  Owner-only, and only while the setup period is
    /// open.  The group's total is subtracted from the token total supply,
    /// and the schedule and the group's member counter are deleted.  An
    /// address still referencing the removed group keeps a dangling
    /// reference that accrues nothing; remove the address first.
    pub fn remove_group(&mut self, caller: &Vec<u8>, group_identifier: &Vec<u8>)
        -> (r: Result<(), Error>)
        requires
            old(self).wf(),
        ensures
            final(self).wf(),
            r is Ok <==> caller@ == old(self).owner@ && old(self).setup_period_status
                && old(self).spec_schedule(group_identifier@) is Some,
            match r {
                Ok(_) => {
                    &&& final(self).spec_schedule(group_identifier@) is None
                    &&& forall|g: Seq<u8>| g != group_identifier@
                        ==> #[trigger] final(self).spec_schedule(g) == old(self).spec_schedule(g)
                    &&& final(self).members_of(group_identifier@) == 0
                    &&& final(self).users_in_group.spec_get(group_identifier@) is None
                    &&& forall|g: Seq<u8>| g != group_identifier@
                        ==> #[trigger] final(self).members_of(g) == old(self).members_of(g)
                    &&& match old(self).spec_schedule(group_identifier@) {
                        Some(s) => final(self).token_total_supply
                            == old(self).token_total_supply - s.group_total_amount,
                        None => false,
                    }
                    &&& final(self).owner == old(self).owner
                    &&& final(self).token_identifier == old(self).token_identifier
                    &&& final(self).activation_timestamp == old(self).activation_timestamp
                    &&& final(self).setup_period_status == old(self).setup_period_status
                    &&& final(self).user_groups == old(self).user_groups
                    &&& final(self).claimed_balance == old(self).claimed_balance
                    &&& final(self).address_change_request == old(self).address_change_request
                },
                Err(e) => {
                    &&& *final(self) == *old(self)
                    &&& e == if caller@ != old(self).owner@ {
                        Error::PermissionDenied
                    } else {
                        Error::PreconditionFailed
                    }
                },
            },
    {
        match self.require_caller_is_owner(caller) {
            Err(e) => {
                return Err(e);
            },
            Ok(()) => {},
        }
        match self.require_setup_period_live() {
            Err(e) => {
                return Err(e);
            },
            Ok(()) => {},
        }
        let group = match self.group_schedule.get(group_identifier) {
            Some(s) => *s,
            None => {
                return Err(Error::PreconditionFailed);
            },
        };
        proof {
            let entries0 = self.group_schedule.entries@;
            let i = lemma_lookup_some_index(entries0, group_identifier@);
            lemma_total_amounts_remove(entries0, i);
            lemma_total_amounts_nonneg(entries0.remove(i));
            assert(self.token_total_supply >= group.group_total_amount);
        }
        let ghost entries0 = self.group_schedule.entries@;
        self.token_total_supply = self.token_total_supply - group.group_total_amount;
        self.group_schedule.remove_key(group_identifier);
        self.users_in_group.remove_key(group_identifier);
        proof {
            let i = choose|i: int| 0 <= i < entries0.len()
                && entries0[i].0@ == group_identifier@
                && self.group_schedule.entries@ == entries0.remove(i);
            crate::bytemap::lemma_lookup_at_index(entries0, i);
            lemma_total_amounts_remove(entries0, i);
            assert forall|j: int| 0 <= j < self.group_schedule.entries@.len() implies
                (#[trigger] self.group_schedule.entries@[j]).1.valid() by {
                if j < i {
                    assert(self.group_schedule.entries@[j] == entries0[j]);
                } else {
                    assert(self.group_schedule.entries@[j] == entries0[j + 1]);
                }
            }
        }
        Ok(())
    }

    /// Adjusts a group's member counter by one.  A decrement of a counter
    /// already at zero (possible only for a dangling reference to a removed
    /// group) leaves it at zero.
    fn update_users_in_group(&mut self, group_identifier: &Vec<u8>, user_is_added: bool)
        requires
            old(self).users_in_group.wf(),
            user_is_added ==> old(self).members_of(group_identifier@) < u64::MAX,
        ensures
            final(self).users_in_group.wf(),
            final(self).members_of(group_identifier@) == if user_is_added {
                (old(self).members_of(group_identifier@) + 1) as u64
            } else {
                spec_dec(old(self).members_of(group_identifier@))
            },
            forall|g: Seq<u8>| g != group_identifier@
                ==> #[trigger] final(self).members_of(g) == old(self).members_of(g),
            final(self).owner == old(self).owner,
            final(self).token_identifier == old(self).token_identifier,
            final(self).activation_timestamp == old(self).activation_timestamp,
            final(self).setup_period_status == old(self).setup_period_status,
            final(self).token_total_supply == old(self).token_total_supply,
            final(self).group_schedule == old(self).group_schedule,
            final(self).user_groups == old(self).user_groups,
            final(self).claimed_balance == old(self).claimed_balance,
            final(self).address_change_request == old(self).address_change_request,
    {
        let current: u64 = match self.users_in_group.get(group_identifier) {
            Some(n) => *n,
            None => 0,
        };
        let updated: u64 = if user_is_added {
            current + 1
        } else if current > 0 {
            current - 1
        } else {
            0
        };
        self.users_in_group.insert(clone_bytes(group_identifier), updated);
    }

    /// Assigns an address to a live group.  Owner-only, and only while the
    /// setup period is open.  Adding an address already in the group is a
    /// no-op, not an error; a first-time addition appends the group to the
    /// address's list and increments the group's member counter.
    pub fn add_user_group(&mut self, caller: &Vec<u8>, address: &Vec<u8>, group_identifier: Vec<u8>)
        -> (r: Result<(), Error>)
        requires
            old(self).wf(),
            old(self).members_of(group_identifier@) < u64::MAX,
        ensures
            final(self).wf(),
            r is Ok <==> caller@ == old(self).owner@ && old(self).setup_period_status
                && old(self).spec_schedule(group_identifier@) is Some,
            r is Ok ==> final(self).is_member(address@, group_identifier@),
            match r {
                Ok(_) => if old(self).is_member(address@, group_identifier@) {
                    *final(self) == *old(self)
                } else {
                    &&& final(self).groups_of(address@)
                        == old(self).groups_of(address@).push(group_identifier@)
                    &&& forall|a: Seq<u8>| a != address@
                        ==> #[trigger] final(self).groups_of(a) == old(self).groups_of(a)
                    &&& forall|a: Seq<u8>| a != address@
                        ==> #[trigger] final(self).user_groups.spec_get(a)
                            == old(self).user_groups.spec_get(a)
                    &&& final(self).members_of(group_identifier@)
                        == old(self).members_of(group_identifier@) + 1
                    &&& forall|g: Seq<u8>| g != group_identifier@
                        ==> #[trigger] final(self).members_of(g) == old(self).members_of(g)
                    &&& final(self).owner == old(self).owner
                    &&& final(self).token_identifier == old(self).token_identifier
                    &&& final(self).activation_timestamp == old(self).activation_timestamp
                    &&& final(self).setup_period_status == old(self).setup_period_status
                    &&& final(self).token_total_supply == old(self).token_total_supply
                    &&& final(self).group_schedule == old(self).group_schedule
                    &&& final(self).claimed_balance == old(self).claimed_balance
                    &&& final(self).address_change_request == old(self).address_change_request
                },
                Err(e) => {
                    &&& *final(self) == *old(self)
                    &&& e == if caller@ != old(self).owner@ {
                        Error::PermissionDenied
                    } else {
                        Error::PreconditionFailed
                    }
                },
            },
    {
        match self.require_caller_is_owner(caller) {
            Err(e) => {
                return Err(e);
            },
            Ok(()) => {},
        }
        match self.require_setup_period_live() {
            Err(e) => {
                return Err(e);
            },
            Ok(()) => {},
        }
        if !self.group_schedule.contains_key(&group_identifier) {
            return Err(Error::PreconditionFailed);
        }
        let already_member = match self.user_groups.get(address) {
            Some(l) => contains_group(l, &group_identifier),
            None => false,
        };
        if already_member {
            return Ok(());
        }
        let ghost gidv = group_identifier@;
        let ghost gvec = group_identifier;
        self.update_users_in_group(&group_identifier, true);
        let ghost mid = *self;
        let mut list: Vec<Vec<u8>> = match self.user_groups.take(address) {
            Some(l) => l,
            None => Vec::new(),
        };
        let ghost mid2 = *self;
        let ghost list0 = list@;
        proof {
            if mid.user_groups.spec_get(address@) is Some {
                let i = lemma_lookup_some_index(mid.user_groups.entries@, address@);
                assert(nodup_groups(list0));
            }
            assert(group_views(list0) =~= old(self).groups_of(address@));
        }
        list.push(group_identifier);
        self.user_groups.insert(clone_bytes(address), list);
        proof {
            let entries1 = mid.user_groups.entries@;
            let entries1b = mid2.user_groups.entries@;
            let entries2 = self.user_groups.entries@;
            assert(entries2 == entries1b.push((entries2.last().0, entries2.last().1)));
            assert(list@ == list0.push(gvec));
            assert(group_views(list0.push(gvec)) =~= group_views(list0).push(gidv));
            assert(self.groups_of(address@) =~= old(self).groups_of(address@).push(gidv));
            assert(!group_views(list0).contains(gidv));
            assert forall|i: int, j: int| 0 <= i < j < list0.push(gvec).len() implies
                list0.push(gvec)[i]@ != list0.push(gvec)[j]@ by {
                if j == list0.len() {
                    assert(group_views(list0)[i] == list0[i]@);
                    assert(list0[i]@ != gidv);
                }
            }
            assert(nodup_groups(list0.push(gvec)));
            assert forall|j: int| 0 <= j < entries2.len() implies
                nodup_groups((#[trigger] entries2[j]).1@) by {
                if j < entries2.len() - 1 {
                    assert(entries2[j] == entries1b[j]);
                    if mid.user_groups.spec_get(address@) is Some {
                        let i = choose|i: int| 0 <= i < entries1.len()
                            && entries1[i].0@ == address@
                            && entries1b == entries1.remove(i);
                        if j < i {
                            assert(entries1b[j] == entries1[j]);
                        } else {
                            assert(entries1b[j] == entries1[j + 1]);
                        }
                    } else {
                        assert(entries1b[j] == entries1[j]);
                    }
                } else {
                    assert(entries2[j].1 == list);
                }
            }
            assert forall|a: Seq<u8>| a != address@ implies
                #[trigger] self.user_groups.spec_get(a) == old(self).user_groups.spec_get(a) by {
                assert(mid2.user_groups.spec_get(a) == mid.user_groups.spec_get(a));
            }
            assert forall|g: Seq<u8>| g != gidv implies
                #[trigger] self.members_of(g) == old(self).members_of(g) by {
                assert(mid.members_of(g) == old(self).members_of(g));
                assert(self.users_in_group == mid.users_in_group);
            }
            assert forall|a: Seq<u8>| a != address@ implies
                #[trigger] self.groups_of(a) == old(self).groups_of(a) by {
                assert(self.user_groups.spec_get(a) == old(self).user_groups.spec_get(a));
            }
            assert(self.groups_of(address@)[list0.len() as int] == gidv);
            assert(self.is_member(address@, gidv));
        }
        Ok(())
    }

    /// Removes an address wholesale.  Owner-only, and only while the setup
    /// period is open.  Every group the address belonged to has its member
    /// counter decremented, then the address's memberships and claimed
    /// balance are cleared.
    pub fn remove_user(&mut self, caller: &Vec<u8>, address: &Vec<u8>) -> (r: Result<(), Error>)
        requires
            old(self).wf(),
        ensures
            final(self).wf(),
            r is Ok <==> caller@ == old(self).owner@ && old(self).setup_period_status
                && old(self).user_groups.spec_get(address@) is Some,
            match r {
                Ok(_) => {
                    &&& final(self).user_groups.spec_get(address@) is None
                    &&& forall|a: Seq<u8>| a != address@
                        ==> #[trigger] final(self).user_groups.spec_get(a)
                            == old(self).user_groups.spec_get(a)
                    &&& final(self).claimed_balance.spec_get(address@) is None
                    &&& forall|a: Seq<u8>| a != address@
                        ==> #[trigger] final(self).claimed_balance.spec_get(a)
                            == old(self).claimed_balance.spec_get(a)
                    &&& forall|g: Seq<u8>| #[trigger] final(self).members_of(g)
                        == if old(self).groups_of(address@).contains(g) {
                            spec_dec(old(self).members_of(g))
                        } else {
                            old(self).members_of(g)
                        }
                    &&& final(self).owner == old(self).owner
                    &&& final(self).token_identifier == old(self).token_identifier
                    &&& final(self).activation_timestamp == old(self).activation_timestamp
                    &&& final(self).setup_period_status == old(self).setup_period_status
                    &&& final(self).token_total_supply == old(self).token_total_supply
                    &&& final(self).group_schedule == old(self).group_schedule
                    &&& final(self).address_change_request == old(self).address_change_request
                },
                Err(e) => {
                    &&& *final(self) == *old(self)
                    &&& e == if caller@ != old(self).owner@ {
                        Error::PermissionDenied
                    } else {
                        Error::PreconditionFailed
                    }
                },
            },
    {
        match self.require_caller_is_owner(caller) {
            Err(e) => {
                return Err(e);
            },
            Ok(()) => {},
        }
        match self.require_setup_period_live() {
            Err(e) => {
                return Err(e);
            },
            Ok(()) => {},
        }
        let list: Vec<Vec<u8>> = match self.user_groups.take(address) {
            Some(l) => l,
            None => {
                return Err(Error::PreconditionFailed);
            },
        };
        let ghost mid = *self;
        let ghost gs = group_views(list@);
        proof {
            let i = lemma_lookup_some_index(old(self).user_groups.entries@, address@);
            assert(nodup_groups(list@));
            assert(gs =~= old(self).groups_of(address@));
            assert(gs.subrange(0, 0) =~= Seq::<Seq<u8>>::empty());
        }
        let mut idx: usize = 0;
        while idx < list.len()
            invariant
                idx <= list.len(),
                gs == group_views(list@),
                nodup_groups(list@),
                self.users_in_group.wf(),
                forall|g: Seq<u8>| #[trigger] self.members_of(g)
                    == if gs.subrange(0, idx as int).contains(g) {
                        spec_dec(mid.members_of(g))
                    } else {
                        mid.members_of(g)
                    },
                self.owner == mid.owner,
                self.token_identifier == mid.token_identifier,
                self.activation_timestamp == mid.activation_timestamp,
                self.setup_period_status == mid.setup_period_status,
                self.token_total_supply == mid.token_total_supply,
                self.group_schedule == mid.group_schedule,
                self.user_groups == mid.user_groups,
                self.claimed_balance == mid.claimed_balance,
                self.address_change_request == mid.address_change_request,
            decreases list.len() - idx,
        {
            let ghost pre = *self;
            self.update_users_in_group(&list[idx], false);
            proof {
                let g = list@[idx as int]@;
                assert(gs[idx as int] == g);
                assert forall|k: int| 0 <= k < idx implies gs[k] != g by {
                    assert(gs[k] == list@[k]@);
                }
                assert(!gs.subrange(0, idx as int).contains(g));
                assert(gs.subrange(0, idx as int + 1)
                    =~= gs.subrange(0, idx as int).push(g));
                assert forall|g2: Seq<u8>| #[trigger] self.members_of(g2)
                    == if gs.subrange(0, idx as int + 1).contains(g2) {
                        spec_dec(mid.members_of(g2))
                    } else {
                        mid.members_of(g2)
                    } by {
                    let pre_sub = gs.subrange(0, idx as int);
                    let new_sub = gs.subrange(0, idx as int + 1);
                    if g2 == g {
                        assert(pre.members_of(g) == mid.members_of(g));
                        assert(self.members_of(g) == spec_dec(pre.members_of(g)));
                        assert(new_sub[idx as int] == g);
                        assert(new_sub.contains(g));
                    } else {
                        assert(self.members_of(g2) == pre.members_of(g2));
                        if new_sub.contains(g2) {
                            let k = choose|k: int| 0 <= k < new_sub.len() && new_sub[k] == g2;
                            assert(k < idx as int);
                            assert(pre_sub[k] == g2);
                            assert(pre_sub.contains(g2));
                        }
                        if pre_sub.contains(g2) {
                            let k = choose|k: int| 0 <= k < pre_sub.len() && pre_sub[k] == g2;
                            assert(new_sub[k] == g2);
                            assert(new_sub.contains(g2));
                        }
                    }
                }
            }
            idx += 1;
        }
        proof {
            assert(gs.subrange(0, list@.len() as int) =~= gs);
        }
        let ghost mid2 = *self;
        self.claimed_balance.remove_key(address);
        proof {
            assert forall|g: Seq<u8>| #[trigger] self.members_of(g)
                == if old(self).groups_of(address@).contains(g) {
                    spec_dec(old(self).members_of(g))
                } else {
                    old(self).members_of(g)
                } by {
                assert(self.users_in_group == mid2.users_in_group);
                assert(self.members_of(g) == mid2.members_of(g));
                assert(mid.users_in_group == old(self).users_in_group);
                assert(mid.members_of(g) == old(self).members_of(g));
            }
            let entries0 = old(self).user_groups.entries@;
            let i = choose|i: int| 0 <= i < entries0.len() && entries0[i].0@ == address@
                && mid.user_groups.entries@ == entries0.remove(i);
            assert forall|j: int| 0 <= j < self.user_groups.entries@.len() implies
                nodup_groups((#[trigger] self.user_groups.entries@[j]).1@) by {
                if j < i {
                    assert(self.user_groups.entries@[j] == entries0[j]);
                } else {
                    assert(self.user_groups.entries@[j] == entries0[j + 1]);
                }
            }
        }
        Ok(())
    }

    /// Applies the pending address change of `user_address`: the membership
    /// list and claimed balance move to the requested new address, and the
    /// old address's records and the request are cleared.  Owner-only, after
    /// the setup period.  Fails when no request is pending, or when the new
    /// address already holds a membership or balance record of its own.
    pub fn approve_address_change(&mut self, caller: &Vec<u8>, user_address: &Vec<u8>)
        -> (r: Result<(), Error>)
        requires
            old(self).wf(),
        ensures
            final(self).wf(),
            r is Ok <==> caller@ == old(self).owner@ && !old(self).setup_period_status
                && match old(self).request_of(user_address@) {
                    Some(n) => !old(self).spec_occupied(n),
                    None => false,
                },
            match r {
                Ok(_) => match old(self).request_of(user_address@) {
                    Some(n) => {
                        &&& final(self).user_groups.spec_get(n)
                            == old(self).user_groups.spec_get(user_address@)
                        &&& final(self).claimed_balance.spec_get(n)
                            == old(self).claimed_balance.spec_get(user_address@)
                        &&& n != user_address@ ==> final(self).user_groups.spec_get(user_address@)
                            is None
                        &&& n != user_address@ ==> final(self).claimed_balance.spec_get(
                            user_address@) is None
                        &&& forall|a: Seq<u8>| a != user_address@ && a != n
                            ==> #[trigger] final(self).user_groups.spec_get(a)
                                == old(self).user_groups.spec_get(a)
                        &&& forall|a: Seq<u8>| a != user_address@ && a != n
                            ==> #[trigger] final(self).claimed_balance.spec_get(a)
                                == old(self).claimed_balance.spec_get(a)
                        &&& final(self).request_of(user_address@) is None
                        &&& forall|a: Seq<u8>| a != user_address@
                            ==> #[trigger] final(self).request_of(a) == old(self).request_of(a)
                        &&& final(self).owner == old(self).owner
                        &&& final(self).token_identifier == old(self).token_identifier
                        &&& final(self).activation_timestamp == old(self).activation_timestamp
                        &&& final(self).setup_period_status == old(self).setup_period_status
                        &&& final(self).token_total_supply == old(self).token_total_supply
                        &&& final(self).group_schedule == old(self).group_schedule
                        &&& final(self).users_in_group == old(self).users_in_group
                    },
                    None => false,
                },
                Err(e) => {
                    &&& *final(self) == *old(self)
                    &&& e == if caller@ != old(self).owner@ {
                        Error::PermissionDenied
                    } else {
                        Error::PreconditionFailed
                    }
                },
            },
    {
        match self.require_caller_is_owner(caller) {
            Err(e) => {
                return Err(e);
            },
            Ok(()) => {},
        }
        match self.require_setup_period_ended() {
            Err(e) => {
                return Err(e);
            },
            Ok(()) => {},
        }
        let new_address: Vec<u8> = match self.address_change_request.get(user_address) {
            Some(v) => clone_bytes(v),
            None => {
                return Err(Error::PreconditionFailed);
            },
        };
        if self.user_groups.contains_key(&new_address)
            || self.claimed_balance.contains_key(&new_address) {
            return Err(Error::PreconditionFailed);
        }
        let ghost st0 = *self;
        match self.user_groups.take(user_address) {
            Some(l) => {
                proof {
                    let i = lemma_lookup_some_index(st0.user_groups.entries@, user_address@);
                    assert(nodup_groups(l@));
                }
                let ghost mid = *self;
                self.user_groups.insert(clone_bytes(&new_address), l);
                proof {
                    let entries0 = st0.user_groups.entries@;
                    let entries1 = mid.user_groups.entries@;
                    let entries2 = self.user_groups.entries@;
                    let i = choose|i: int| 0 <= i < entries0.len()
                        && entries0[i].0@ == user_address@
                        && entries1 == entries0.remove(i);
                    assert forall|j: int| 0 <= j < entries2.len() implies
                        nodup_groups((#[trigger] entries2[j]).1@) by {
                        if j < entries2.len() - 1 {
                            assert(entries2[j] == entries1[j]);
                            if j < i {
                                assert(entries1[j] == entries0[j]);
                            } else {
                                assert(entries1[j] == entries0[j + 1]);
                            }
                        }
                    }
                }
            },
            None => {},
        }
        match self.claimed_balance.take(user_address) {
            Some(b) => {
                self.claimed_balance.insert(clone_bytes(&new_address), b);
            },
            None => {},
        }
        self.address_change_request.remove_key(user_address);
        Ok(())
    }

    /// Law: a `request_address_change` followed by an `approve_address_change`
    /// yields a target address whose membership and claimed balance equal the
    /// source address's values before the change, while the source address is
    /// left with none.  `s1` is the state after the request succeeded in
    /// `s0`, and `s2` the state after the approval succeeded in `s1`, as the
    /// two operations' contracts describe them.
    pub proof fn lemma_address_change_round_trip(
        s0: TokenRelease,
        s1: TokenRelease,
        s2: TokenRelease,
        user: Seq<u8>,
        target: Seq<u8>,
    )
        requires
            s1.request_of(user) == Some(target),
            s1.user_groups == s0.user_groups,
            s1.claimed_balance == s0.claimed_balance,
            s2.user_groups.spec_get(target) == s1.user_groups.spec_get(user),
            s2.claimed_balance.spec_get(target) == s1.claimed_balance.spec_get(user),
            target != user ==> s2.user_groups.spec_get(user) is None,
            target != user ==> s2.claimed_balance.spec_get(user) is None,
            s2.request_of(user) is None,
        ensures
            s2.groups_of(target) == s0.groups_of(user),
            s2.balance_of(target) == s0.balance_of(user),
            target != user ==> s2.groups_of(user) == Seq::<Seq<u8>>::empty(),
            target != user ==> s2.balance_of(user) == 0,
    {
    }

    /// The identifier of the vested token.
    pub fn get_token_identifier(&self) -> (r: &Vec<u8>)
        ensures
            r@ == self.token_identifier@,
    {
        &self.token_identifier
    }

    /// The sum of every live group's total amount.
    pub fn get_token_total_supply(&self) -> (r: u128)
        ensures
            r == self.token_total_supply,
    {
        self.token_total_supply
    }

    /// Whether the setup period is still open.
    pub fn get_setup_period_status(&self) -> (r: bool)
        ensures
            r == self.setup_period_status,
    {
        self.setup_period_status
    }

    /// The clock origin for all schedule arithmetic.
    pub fn get_activation_timestamp(&self) -> (r: u64)
        ensures
            r == self.activation_timestamp,
    {
        self.activation_timestamp
    }

    /// The current member count of a group.
    pub fn get_users_in_group(&self, group_identifier: &Vec<u8>) -> (r: u64)
        requires
            self.wf(),
        ensures
            r == self.members_of(group_identifier@),
    {
        match self.users_in_group.get(group_identifier) {
            Some(n) => *n,
            None => 0,
        }
    }

    /// The cumulative tokens already claimed by an address.
    pub fn get_claimed_balance(&self, address: &Vec<u8>) -> (r: u128)
        requires
            self.wf(),
        ensures
            r as int == self.balance_of(address@),
    {
        match self.claimed_balance.get(address) {
            Some(b) => *b,
            None => 0,
        }
    }

    /// Whether an address belongs to a group.
    pub fn has_group(&self, address: &Vec<u8>, group_identifier: &Vec<u8>) -> (r: bool)
        requires
            self.wf(),
        ensures
            r == self.is_member(address@, group_identifier@),
    {
        match self.user_groups.get(address) {
            Some(l) => contains_group(l, group_identifier),
            None => {
                proof {
                    assert(!self.groups_of(address@).contains(group_identifier@));
                }
                false
            },
        }
    }

    /// The pending address-change target registered by the caller, if any.
    pub fn verify_address_change(&self, caller: &Vec<u8>) -> (r: Option<Vec<u8>>)
        requires
            self.wf(),
        ensures
            match r {
                Some(v) => self.request_of(caller@) == Some(v@),
                None => self.request_of(caller@) is None,
            },
    {
        match self.address_change_request.get(caller) {
            Some(v) => Some(clone_bytes(v)),
            None => None,
        }
    }
}

/// Whether the list of group identifiers holds `g`.
pub fn contains_group(l: &Vec<Vec<u8>>, g: &Vec<u8>) -> (r: bool)
    ensures
        r == group_views(l@).contains(g@),
{
    let mut i: usize = 0;
    while i < l.len()
        invariant
            i <= l@.len(),
            forall|j: int| 0 <= j < i ==> l@[j]@ != g@,
        decreases l@.len() - i,
    {
        if bytes_eq(&l[i], g) {
            proof {
                assert(group_views(l@)[i as int] == g@);
            }
            return true;
        }
        i += 1;
    }
    proof {
        assert forall|j: int| 0 <= j < group_views(l@).len() implies
            group_views(l@)[j] != g@ by {
        }
    }
    false
}

} // verus!
