use token_release::{Error, TokenRelease};

fn bv(s: &[u8]) -> Vec<u8> {
    s.to_vec()
}

fn owner() -> Vec<u8> {
    bv(b"owner-address")
}

fn token() -> Vec<u8> {
    bv(b"TOKEN-abc123")
}

fn ledger(activation: u64) -> TokenRelease {
    TokenRelease::init(owner(), token(), activation).unwrap()
}

fn add_fixed_group(
    st: &mut TokenRelease,
    id: &[u8],
    total: u128,
    unlock: u128,
    period: u64,
    ticks: u64,
) -> Result<(), Error> {
    st.add_group(&owner(), bv(id), total, true, 0, unlock, period, ticks)
}

fn add_percent_group(
    st: &mut TokenRelease,
    id: &[u8],
    total: u128,
    percent: u8,
    period: u64,
    ticks: u64,
) -> Result<(), Error> {
    st.add_group(&owner(), bv(id), total, false, percent, 0, period, ticks)
}

#[test]
fn init_rejects_malformed_token_identifier() {
    assert_eq!(
        TokenRelease::init(owner(), bv(b"bad"), 0).err(),
        Some(Error::InvalidInput)
    );
    assert_eq!(
        TokenRelease::init(owner(), bv(b"lower-abc123"), 0).err(),
        Some(Error::InvalidInput)
    );
    assert_eq!(
        TokenRelease::init(owner(), bv(b"TOKEN-ABC123"), 0).err(),
        Some(Error::InvalidInput)
    );
    assert!(TokenRelease::init(owner(), bv(b"TOK-0a1b2c"), 0).is_ok());
}

#[test]
fn init_starts_with_setup_open_and_no_supply() {
    let st = ledger(7);
    assert!(st.get_setup_period_status());
    assert_eq!(st.get_token_total_supply(), 0);
    assert_eq!(st.get_activation_timestamp(), 7);
    assert_eq!(st.get_token_identifier().as_slice(), b"TOKEN-abc123");
}

#[test]
fn add_group_rejects_inconsistent_schedules() {
    let mut st = ledger(0);
    // zero ticks
    assert_eq!(
        add_fixed_group(&mut st, b"g", 1000, 100, 86400, 0),
        Err(Error::InvalidInput)
    );
    // zero total
    assert_eq!(
        add_fixed_group(&mut st, b"g", 0, 100, 86400, 10),
        Err(Error::InvalidInput)
    );
    // zero period
    assert_eq!(
        add_fixed_group(&mut st, b"g", 1000, 100, 0, 10),
        Err(Error::InvalidInput)
    );
    // fixed amount: 100 * 10 != 999
    assert_eq!(
        add_fixed_group(&mut st, b"g", 999, 100, 86400, 10),
        Err(Error::InvalidInput)
    );
    // percentage: 25 * 3 != 100
    assert_eq!(
        add_percent_group(&mut st, b"g", 500, 25, 86400, 3),
        Err(Error::InvalidInput)
    );
    assert_eq!(st.get_token_total_supply(), 0);
}

#[test]
fn add_group_requires_owner_and_open_setup() {
    let mut st = ledger(0);
    assert_eq!(
        st.add_group(&bv(b"mallory"), bv(b"g"), 1000, true, 0, 100, 86400, 10),
        Err(Error::PermissionDenied)
    );
    assert_eq!(add_fixed_group(&mut st, b"g", 1000, 100, 86400, 10), Ok(()));
    assert_eq!(
        add_fixed_group(&mut st, b"g", 1000, 100, 86400, 10),
        Err(Error::PreconditionFailed)
    );
    st.end_setup_period(&owner(), true, true).unwrap();
    assert_eq!(
        add_fixed_group(&mut st, b"h", 1000, 100, 86400, 10),
        Err(Error::PreconditionFailed)
    );
}

#[test]
fn supply_tracks_group_additions_and_removals() {
    let mut st = ledger(0);
    assert_eq!(add_fixed_group(&mut st, b"a", 1000, 100, 86400, 10), Ok(()));
    assert_eq!(add_percent_group(&mut st, b"b", 500, 25, 86400, 4), Ok(()));
    assert_eq!(add_fixed_group(&mut st, b"c", 60, 20, 100, 3), Ok(()));
    assert_eq!(st.get_token_total_supply(), 1560);
    assert_eq!(st.remove_group(&owner(), &bv(b"b")), Ok(()));
    assert_eq!(st.get_token_total_supply(), 1060);
    assert_eq!(
        st.remove_group(&owner(), &bv(b"b")),
        Err(Error::PreconditionFailed)
    );
    assert_eq!(st.remove_group(&owner(), &bv(b"a")), Ok(()));
    assert_eq!(st.remove_group(&owner(), &bv(b"c")), Ok(()));
    assert_eq!(st.get_token_total_supply(), 0);
}

#[test]
fn add_user_group_is_idempotent() {
    let mut st = ledger(0);
    add_fixed_group(&mut st, b"g", 1000, 100, 100, 10).unwrap();
    let alice = bv(b"alice");
    assert_eq!(st.add_user_group(&owner(), &alice, bv(b"g")), Ok(()));
    assert_eq!(st.get_users_in_group(&bv(b"g")), 1);
    assert_eq!(st.add_user_group(&owner(), &alice, bv(b"g")), Ok(()));
    assert_eq!(st.get_users_in_group(&bv(b"g")), 1);
    assert!(st.has_group(&alice, &bv(b"g")));
    // the second call changed nothing observable
    assert_eq!(st.calculate_claimable_tokens(&alice, 1000), 1000);
}

#[test]
fn add_user_group_requires_live_group() {
    let mut st = ledger(0);
    assert_eq!(
        st.add_user_group(&owner(), &bv(b"alice"), bv(b"nope")),
        Err(Error::PreconditionFailed)
    );
    assert_eq!(
        st.add_user_group(&bv(b"mallory"), &bv(b"alice"), bv(b"nope")),
        Err(Error::PermissionDenied)
    );
}

#[test]
fn fixed_schedule_accrues_and_clamps() {
    // group of 1000 tokens, 100 per day over 10 days, one member
    let mut st = ledger(0);
    add_fixed_group(&mut st, b"G1", 1000, 100, 86400, 10).unwrap();
    let alice = bv(b"alice");
    st.add_user_group(&owner(), &alice, bv(b"G1")).unwrap();
    assert_eq!(st.calculate_claimable_tokens(&alice, 0), 0);
    assert_eq!(st.calculate_claimable_tokens(&alice, 86399), 0);
    assert_eq!(st.calculate_claimable_tokens(&alice, 86400), 100);
    assert_eq!(st.calculate_claimable_tokens(&alice, 864000), 1000);
    // far past the last tick the amount stays clamped at the full allocation
    assert_eq!(st.calculate_claimable_tokens(&alice, 2000000), 1000);
}

#[test]
fn percentage_schedule_accrues_multiply_before_divide() {
    // 500 tokens, 25% per period over 4 periods, one member
    let mut st = ledger(0);
    add_percent_group(&mut st, b"P", 500, 25, 100, 4).unwrap();
    let bob = bv(b"bob");
    st.add_user_group(&owner(), &bob, bv(b"P")).unwrap();
    // two elapsed periods: 2 * 500 * 25 / 100 = 250
    assert_eq!(st.calculate_claimable_tokens(&bob, 200), 250);
    // clamped at 4 periods: 4 * 500 * 25 / 100 = 500
    assert_eq!(st.calculate_claimable_tokens(&bob, 4000), 500);
}

#[test]
fn second_member_splits_future_periods() {
    let mut st = ledger(0);
    add_fixed_group(&mut st, b"G", 1000, 100, 100, 10).unwrap();
    let alice = bv(b"alice");
    let bob = bv(b"bob");
    st.add_user_group(&owner(), &alice, bv(b"G")).unwrap();
    // alone, three periods in, alice would get 300
    assert_eq!(st.calculate_claimable_tokens(&alice, 300), 300);
    // bob joins mid-schedule: the per-period amount now splits two ways
    st.add_user_group(&owner(), &bob, bv(b"G")).unwrap();
    assert_eq!(st.calculate_claimable_tokens(&alice, 300), 150);
    assert_eq!(st.calculate_claimable_tokens(&bob, 300), 150);
    st.end_setup_period(&owner(), true, true).unwrap();
    assert_eq!(st.claim_tokens(&alice, 500), Ok(250));
    assert_eq!(st.claim_tokens(&bob, 500), Ok(250));
    // cumulative totals stay per-address: more time, more tokens
    assert_eq!(st.claim_tokens(&alice, 1000), Ok(250));
}

#[test]
fn claim_twice_without_time_fails() {
    let mut st = ledger(0);
    add_fixed_group(&mut st, b"G", 1000, 100, 100, 10).unwrap();
    let alice = bv(b"alice");
    st.add_user_group(&owner(), &alice, bv(b"G")).unwrap();
    st.end_setup_period(&owner(), true, true).unwrap();
    assert_eq!(st.claim_tokens(&alice, 300), Ok(300));
    assert_eq!(st.get_claimed_balance(&alice), 300);
    assert_eq!(st.claim_tokens(&alice, 300), Err(Error::NothingToClaim));
    assert_eq!(st.get_claimed_balance(&alice), 300);
}

#[test]
fn claim_requires_ended_setup_and_something_to_claim() {
    let mut st = ledger(0);
    add_fixed_group(&mut st, b"G", 1000, 100, 100, 10).unwrap();
    let alice = bv(b"alice");
    st.add_user_group(&owner(), &alice, bv(b"G")).unwrap();
    assert_eq!(
        st.claim_tokens(&alice, 300),
        Err(Error::PreconditionFailed)
    );
    st.end_setup_period(&owner(), true, true).unwrap();
    // before the first period has passed there is nothing to claim
    assert_eq!(st.claim_tokens(&alice, 50), Err(Error::NothingToClaim));
    // an address with no memberships accrues nothing
    assert_eq!(
        st.claim_tokens(&bv(b"stranger"), 5000),
        Err(Error::NothingToClaim)
    );
}

#[test]
fn verify_claimable_tokens_reports_the_delta() {
    let mut st = ledger(0);
    add_fixed_group(&mut st, b"G", 1000, 100, 100, 10).unwrap();
    let alice = bv(b"alice");
    st.add_user_group(&owner(), &alice, bv(b"G")).unwrap();
    st.end_setup_period(&owner(), true, true).unwrap();
    assert_eq!(st.verify_claimable_tokens(&alice, 300), 300);
    st.claim_tokens(&alice, 300).unwrap();
    assert_eq!(st.verify_claimable_tokens(&alice, 300), 0);
    assert_eq!(st.verify_claimable_tokens(&alice, 400), 100);
}

#[test]
fn end_setup_period_mints_once() {
    let mut st = ledger(0);
    add_fixed_group(&mut st, b"G", 1000, 100, 100, 10).unwrap();
    assert_eq!(
        st.end_setup_period(&bv(b"mallory"), true, true),
        Err(Error::PermissionDenied)
    );
    assert_eq!(
        st.end_setup_period(&owner(), false, true),
        Err(Error::AuthorizationMissing)
    );
    assert_eq!(
        st.end_setup_period(&owner(), true, false),
        Err(Error::AuthorizationMissing)
    );
    assert!(st.get_setup_period_status());
    // the one successful call returns the whole supply to mint
    assert_eq!(st.end_setup_period(&owner(), true, true), Ok(1000));
    assert!(!st.get_setup_period_status());
    // a second call fails: the supply is never minted twice
    assert_eq!(
        st.end_setup_period(&owner(), true, true),
        Err(Error::PreconditionFailed)
    );
}

#[test]
fn remove_user_clears_memberships_and_balance() {
    let mut st = ledger(0);
    add_fixed_group(&mut st, b"G", 1000, 100, 100, 10).unwrap();
    let alice = bv(b"alice");
    let bob = bv(b"bob");
    st.add_user_group(&owner(), &alice, bv(b"G")).unwrap();
    st.add_user_group(&owner(), &bob, bv(b"G")).unwrap();
    assert_eq!(st.get_users_in_group(&bv(b"G")), 2);
    assert_eq!(st.remove_user(&owner(), &alice), Ok(()));
    assert_eq!(st.get_users_in_group(&bv(b"G")), 1);
    assert!(!st.has_group(&alice, &bv(b"G")));
    assert_eq!(st.get_claimed_balance(&alice), 0);
    assert_eq!(st.calculate_claimable_tokens(&alice, 1000), 0);
    // bob's share grows back to the full per-period amount
    assert_eq!(st.calculate_claimable_tokens(&bob, 100), 100);
    assert_eq!(
        st.remove_user(&owner(), &alice),
        Err(Error::PreconditionFailed)
    );
}

#[test]
fn removed_group_contributes_nothing() {
    let mut st = ledger(0);
    add_fixed_group(&mut st, b"G", 1000, 100, 100, 10).unwrap();
    add_fixed_group(&mut st, b"H", 300, 100, 100, 3).unwrap();
    let alice = bv(b"alice");
    st.add_user_group(&owner(), &alice, bv(b"G")).unwrap();
    st.add_user_group(&owner(), &alice, bv(b"H")).unwrap();
    assert_eq!(st.calculate_claimable_tokens(&alice, 200), 400);
    st.remove_group(&owner(), &bv(b"H")).unwrap();
    // the dangling reference to the removed group accrues nothing
    assert_eq!(st.calculate_claimable_tokens(&alice, 200), 200);
    assert_eq!(st.get_token_total_supply(), 1000);
}

#[test]
fn address_change_round_trip_transplants_state() {
    let mut st = ledger(0);
    add_fixed_group(&mut st, b"G", 1000, 100, 100, 10).unwrap();
    let alice = bv(b"alice");
    let carol = bv(b"carol");
    st.add_user_group(&owner(), &alice, bv(b"G")).unwrap();
    st.end_setup_period(&owner(), true, true).unwrap();
    st.claim_tokens(&alice, 300).unwrap();
    assert_eq!(
        st.request_address_change(&alice, bv(b"carol")),
        Ok(())
    );
    assert_eq!(
        st.verify_address_change(&alice).as_deref(),
        Some(b"carol".as_slice())
    );
    assert_eq!(st.approve_address_change(&owner(), &alice), Ok(()));
    // carol holds alice's membership and claimed balance; alice has none
    assert!(st.has_group(&carol, &bv(b"G")));
    assert_eq!(st.get_claimed_balance(&carol), 300);
    assert!(!st.has_group(&alice, &bv(b"G")));
    assert_eq!(st.get_claimed_balance(&alice), 0);
    assert!(st.verify_address_change(&alice).is_none());
    // accrual continues for the new address where the old one left off
    assert_eq!(st.claim_tokens(&carol, 500), Ok(200));
}

#[test]
fn address_change_needs_request_and_fresh_target() {
    let mut st = ledger(0);
    add_fixed_group(&mut st, b"G", 1000, 100, 100, 10).unwrap();
    let alice = bv(b"alice");
    let bob = bv(b"bob");
    st.add_user_group(&owner(), &alice, bv(b"G")).unwrap();
    st.add_user_group(&owner(), &bob, bv(b"G")).unwrap();
    // requests are allowed only after the setup period
    assert_eq!(
        st.request_address_change(&alice, bv(b"bob")),
        Err(Error::PreconditionFailed)
    );
    st.end_setup_period(&owner(), true, true).unwrap();
    assert_eq!(
        st.approve_address_change(&owner(), &alice),
        Err(Error::PreconditionFailed)
    );
    st.request_address_change(&alice, bv(b"bob")).unwrap();
    // bob already holds records of his own: the transplant is refused
    assert_eq!(
        st.approve_address_change(&owner(), &alice),
        Err(Error::PreconditionFailed)
    );
    assert_eq!(
        st.approve_address_change(&bv(b"mallory"), &alice),
        Err(Error::PermissionDenied)
    );
    // a later request overwrites the earlier one
    st.request_address_change(&alice, bv(b"carol")).unwrap();
    assert_eq!(st.approve_address_change(&owner(), &alice), Ok(()));
    assert!(st.has_group(&bv(b"carol"), &bv(b"G")));
}

#[test]
fn claimable_is_monotonic_and_bounded_in_time() {
    let mut st = ledger(0);
    add_fixed_group(&mut st, b"G", 1000, 100, 100, 10).unwrap();
    add_percent_group(&mut st, b"P", 500, 25, 300, 4).unwrap();
    let alice = bv(b"alice");
    let bob = bv(b"bob");
    st.add_user_group(&owner(), &alice, bv(b"G")).unwrap();
    st.add_user_group(&owner(), &bob, bv(b"G")).unwrap();
    st.add_user_group(&owner(), &alice, bv(b"P")).unwrap();
    let mut last: u128 = 0;
    let mut now: u64 = 0;
    while now <= 3000 {
        let cur = st.calculate_claimable_tokens(&alice, now);
        assert!(cur >= last);
        last = cur;
        now += 50;
    }
    // bounded by total/members summed over the groups: 1000/2 + 500/1
    assert_eq!(st.calculate_claimable_tokens(&alice, u64::MAX), 1000);
    assert_eq!(st.calculate_claimable_tokens(&bob, u64::MAX), 500);
}

#[test]
fn clock_before_activation_counts_as_zero() {
    let mut st = ledger(5000);
    add_fixed_group(&mut st, b"G", 1000, 100, 100, 10).unwrap();
    let alice = bv(b"alice");
    st.add_user_group(&owner(), &alice, bv(b"G")).unwrap();
    assert_eq!(st.calculate_claimable_tokens(&alice, 400), 0);
    assert_eq!(st.calculate_claimable_tokens(&alice, 5099), 0);
    assert_eq!(st.calculate_claimable_tokens(&alice, 5100), 100);
}

#[test]
fn truncation_happens_once_per_group() {
    // 7 tokens per period do not divide evenly between 2 members
    let mut st = ledger(0);
    add_fixed_group(&mut st, b"G", 70, 7, 100, 10).unwrap();
    let alice = bv(b"alice");
    let bob = bv(b"bob");
    st.add_user_group(&owner(), &alice, bv(b"G")).unwrap();
    st.add_user_group(&owner(), &bob, bv(b"G")).unwrap();
    // 3 periods: 3 * 7 / 2 = 10 (multiply fully, then divide once)
    assert_eq!(st.calculate_claimable_tokens(&alice, 300), 10);
}

#[test]
fn huge_fixed_group_accrues_without_overflow() {
    // a group total near the top of the machine word
    let unlock: u128 = (u128::MAX - 1) / 2;
    let total: u128 = unlock * 2;
    let mut st = ledger(0);
    assert_eq!(add_fixed_group(&mut st, b"BIG", total, unlock, 100, 2), Ok(()));
    let alice = bv(b"alice");
    st.add_user_group(&owner(), &alice, bv(b"BIG")).unwrap();
    assert_eq!(st.calculate_claimable_tokens(&alice, 100), unlock);
    assert_eq!(st.calculate_claimable_tokens(&alice, u64::MAX), total);
}

#[test]
fn percentage_group_total_is_capped_for_headroom() {
    let cap: u128 = u128::MAX / 100;
    let mut st = ledger(0);
    // at the cap the schedule is accepted and accrues exactly
    assert_eq!(add_percent_group(&mut st, b"P", cap, 100, 100, 1), Ok(()));
    let alice = bv(b"alice");
    st.add_user_group(&owner(), &alice, bv(b"P")).unwrap();
    assert_eq!(st.calculate_claimable_tokens(&alice, 100), cap);
    // one past the cap the schedule is rejected
    assert_eq!(
        add_percent_group(&mut st, b"Q", cap + 1, 50, 100, 2),
        Err(Error::InvalidInput)
    );
}

#[test]
fn supply_overflow_is_rejected() {
    let big: u128 = u128::MAX - 1;
    let mut st = ledger(0);
    assert_eq!(add_fixed_group(&mut st, b"A", big, big, 100, 1), Ok(()));
    // a second group would push the supply past the machine word
    assert_eq!(
        add_fixed_group(&mut st, b"B", 100, 100, 100, 1),
        Err(Error::InvalidInput)
    );
    assert_eq!(st.get_token_total_supply(), big);
}
