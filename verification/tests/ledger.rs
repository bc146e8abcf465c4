use pixel_board::account::{
    Account, AccountVersionAvocado, Berry, DEFAULT_AVOCADO_BALANCE, MIN_AMOUNT_FOR_DISCOUNT,
    ONE_NEAR, PIXEL_COST, PIXEL_TOKEN_PRICE, PIXEL_TOKEN_PRICE_WITH_DISCOUNT,
};
use pixel_board::board::{SetPixelRequest, BOARD_HEIGHT};
use pixel_board::errors::PlaceError;
use pixel_board::fungible_token_metadata::FungibleTokenMetadataProvider;
use pixel_board::token::VaultId;
use pixel_board::{Place, RESERVED_FOR_STORAGE, STORAGE_SAFETY_MARGIN};

fn s(x: &str) -> String {
    x.to_string()
}

fn req(x: u32, y: u32, color: u32) -> SetPixelRequest {
    SetPixelRequest { x, y, color }
}

#[test]
fn test_new() {
    let contract = Place::new(s("place.meta"), 3_600_000_000_000);
    assert_eq!(contract.get_pixel_cost(), PIXEL_COST);
    assert_eq!(contract.get_line_versions(), vec![0u32; BOARD_HEIGHT as usize]);
}

#[test]
fn draw_three_pixels() {
    let t: u64 = 1_000;
    let mut place = Place::new(s("place.meta"), t);
    let alice = s("alice");
    let pixels = vec![req(0, 0, 0xff0000), req(1, 1, 0x00ff00), req(2, 2, 0x0000ff)];
    let reward = place.draw(&alice, &pixels, t, 0).unwrap();
    assert!(reward.is_none());
    assert_eq!(place.get_account_balance(&alice, t).unwrap(), 22 * PIXEL_COST);
    assert_eq!(place.get_account_num_pixels(&alice), 3);
    assert_eq!(place.get_account_num_pixels(&s("place.meta")), 2_497);
    let versions = place.get_line_versions();
    for y in 0..BOARD_HEIGHT as usize {
        assert_eq!(versions[y], if y < 3 { 1 } else { 0 });
    }
    let rows = place.get_lines(vec![0]).unwrap();
    assert_eq!(rows[0].0[0].color, 0xff0000);
    assert_eq!(rows[0].0[0].owner_id, 1);
    assert_eq!(rows[0].0[1].color, 0xffffff);
}

#[test]
fn draw_out_of_bounds_changes_nothing() {
    let t: u64 = 1_000;
    let mut place = Place::new(s("place.meta"), t);
    let alice = s("alice");
    let r = place.draw(&alice, &vec![req(50, 0, 1)], t, 0);
    assert_eq!(r, Err(PlaceError::ValidationFailure));
    assert_eq!(place.get_line_versions(), vec![0u32; BOARD_HEIGHT as usize]);
    assert_eq!(place.get_account_num_pixels(&s("place.meta")), 2_500);
    assert_eq!(place.get_num_accounts(), 1);
}

#[test]
fn draw_color_out_of_range_fails() {
    let t: u64 = 1_000;
    let mut place = Place::new(s("place.meta"), t);
    let r = place.draw(&s("alice"), &vec![req(0, 0, 0x1_00_00_00)], t, 0);
    assert_eq!(r, Err(PlaceError::ValidationFailure));
}

#[test]
fn draw_empty_batch_is_noop() {
    let t: u64 = 1_000;
    let mut place = Place::new(s("place.meta"), t);
    assert_eq!(place.draw(&s("alice"), &vec![], t, 0), Ok(None));
    assert_eq!(place.get_num_accounts(), 1);
}

#[test]
fn transfer_with_zero_balance_fails() {
    let t: u64 = 1_000;
    let mut place = Place::new(s("place.meta"), t);
    let alice = s("alice");
    let bob = s("bob");
    place.register_account(&alice, t).unwrap();
    place.register_account(&bob, t).unwrap();
    let r = place.transfer_raw(&alice, 1, &bob, 1, t);
    assert_eq!(r, Err(PlaceError::InsufficientBalance));
    assert_eq!(place.get_balance(&alice, t).unwrap(), 0);
    assert_eq!(place.get_balance(&bob, t).unwrap(), 0);
}

#[test]
fn transfer_requires_attached_value() {
    let t: u64 = 1_000;
    let mut place = Place::new(s("place.meta"), t);
    let r = place.transfer_raw(&s("alice"), 0, &s("bob"), 1, t);
    assert_eq!(r, Err(PlaceError::ValidationFailure));
}

#[test]
fn transfer_to_self_fails() {
    let t: u64 = 1_000;
    let mut place = Place::new(s("place.meta"), t);
    let r = place.transfer_raw(&s("alice"), 1, &s("alice"), 1, t);
    assert_eq!(r, Err(PlaceError::ValidationFailure));
}

/// Draws three pixels for alice and lets her farm bananas for one
/// nanosecond: 3 pixels * 1 ns * the per-pixel rate.
fn setup_with_bananas() -> (Place, String, String, u64, u128) {
    let t0: u64 = 1_000;
    let mut place = Place::new(s("place.meta"), t0);
    let alice = s("alice");
    let bob = s("bob");
    let pixels = vec![req(0, 0, 1), req(1, 0, 2), req(2, 0, 3)];
    place.draw(&alice, &pixels, t0, 0).unwrap();
    place.select_farming_preference(&alice, Berry::Banana, t0).unwrap();
    let t1 = t0 + 1;
    place.register_account(&bob, t1).unwrap();
    let farmed: u128 = 3 * (PIXEL_COST / 86_400_000_000_000);
    (place, alice, bob, t1, farmed)
}

#[test]
fn escrow_partial_withdraw_then_resolve() {
    let (mut place, alice, bob, t1, farmed) = setup_with_bananas();
    let note = place
        .transfer_with_vault(&alice, 1, 100_000_000_000_000, &bob, 100, s("hello"), t1)
        .unwrap();
    assert_eq!(note.vault_id.0, 0);
    assert_eq!(note.amount, 100);
    assert_eq!(place.get_balance(&alice, t1).unwrap(), farmed - 100);
    // the receiver takes 40 out of the vault
    place.withdraw_from_vault(&bob, VaultId(0), &bob, 40, t1).unwrap();
    assert_eq!(place.get_balance(&bob, t1).unwrap(), 40);
    // resolution refunds the remaining 60 to the sender
    let refund = place.resolve_vault(&s("place.meta"), VaultId(0), &alice, t1).unwrap();
    assert_eq!(refund, 60);
    assert_eq!(place.get_balance(&alice, t1).unwrap(), farmed - 40);
    assert_eq!(place.get_balance(&bob, t1).unwrap(), 40);
    // the vault is gone: a second resolution fails rather than refunding twice
    let again = place.resolve_vault(&s("place.meta"), VaultId(0), &alice, t1);
    assert_eq!(again, Err(PlaceError::VaultNotFound));
    // everything farmed is still accounted for
    assert_eq!(place.get_total_supply(), farmed);
}

#[test]
fn escrow_misuse_is_rejected() {
    let (mut place, alice, bob, t1, _farmed) = setup_with_bananas();
    place
        .transfer_with_vault(&alice, 1, 100_000_000_000_000, &bob, 100, s(""), t1)
        .unwrap();
    // only the registered receiver may withdraw
    let r = place.withdraw_from_vault(&alice, VaultId(0), &alice, 10, t1);
    assert_eq!(r, Err(PlaceError::NotVaultOwner));
    // no more than the remaining balance may be withdrawn
    let r = place.withdraw_from_vault(&bob, VaultId(0), &bob, 101, t1);
    assert_eq!(r, Err(PlaceError::InsufficientVaultBalance));
    // an unknown vault is reported as such
    let r = place.withdraw_from_vault(&bob, VaultId(7), &bob, 1, t1);
    assert_eq!(r, Err(PlaceError::VaultNotFound));
    // resolution is reserved to the ledger's own identity
    let r = place.resolve_vault(&alice, VaultId(0), &alice, t1);
    assert_eq!(r, Err(PlaceError::ValidationFailure));
}

#[test]
fn escrow_needs_compute_budget() {
    let (mut place, alice, bob, t1, _farmed) = setup_with_bananas();
    let r = place.transfer_with_vault(&alice, 1, 1_000, &bob, 100, s(""), t1);
    assert_eq!(r.err(), Some(PlaceError::InsufficientComputeBudget));
}

#[test]
fn untouched_escrow_is_fully_refunded() {
    let (mut place, alice, bob, t1, farmed) = setup_with_bananas();
    place
        .transfer_with_vault(&alice, 1, 100_000_000_000_000, &bob, 100, s(""), t1)
        .unwrap();
    let refund = place.resolve_vault(&s("place.meta"), VaultId(0), &alice, t1).unwrap();
    assert_eq!(refund, 100);
    assert_eq!(place.get_balance(&alice, t1).unwrap(), farmed);
    assert_eq!(place.get_balance(&bob, t1).unwrap(), 0);
}

#[test]
fn touch_twice_is_idempotent() {
    let t: u64 = 100;
    let mut account = Account::new(s("a"), 0, t);
    let day: u64 = 86_400_000_000_000;
    let (berry, farmed) = account.touch(t + day).unwrap();
    assert_eq!(berry, Berry::Avocado);
    // one bonus pixel, one day, at the per-nanosecond rate
    assert_eq!(farmed, day as u128 * (PIXEL_COST / day as u128));
    let (_, farmed_again) = account.touch(t + day).unwrap();
    assert_eq!(farmed_again, 0);
    assert_eq!(account.balances[0], DEFAULT_AVOCADO_BALANCE + farmed);
}

#[test]
fn legacy_record_upgrades_on_read() {
    let t: u64 = 1_000;
    let mut place = Place::new(s("place.meta"), t);
    let record = AccountVersionAvocado {
        account_id: s("old.user"),
        account_index: 1,
        balance: 7 * PIXEL_COST,
        num_pixels: 0,
        claim_timestamp: 500,
    };
    let direct = Account::from_legacy(record.clone());
    assert_eq!(direct.balances, vec![7 * PIXEL_COST, 0]);
    assert_eq!(direct.farming_preference, Berry::Avocado);
    place.insert_legacy_account(record).unwrap();
    let shown = place.get_account(&s("old.user"), 500).unwrap().unwrap();
    assert_eq!(shown.avocado_balance, 7 * PIXEL_COST);
    assert_eq!(shown.banana_balance, 0);
    assert_eq!(shown.farming_preference, Berry::Avocado);
    assert_eq!(shown.account_index, 1);
    assert_eq!(place.get_account_id_by_index(1), Some(s("old.user")));
}

#[test]
fn buy_tokens_at_both_rates() {
    let t: u64 = 1_000;
    let mut place = Place::new(s("place.meta"), t);
    let alice = s("alice");
    let amount = place.buy_tokens(&alice, ONE_NEAR, t).unwrap();
    assert_eq!(amount, ONE_NEAR / PIXEL_TOKEN_PRICE);
    let big = place.buy_tokens(&alice, MIN_AMOUNT_FOR_DISCOUNT, t).unwrap();
    assert_eq!(big, MIN_AMOUNT_FOR_DISCOUNT / PIXEL_TOKEN_PRICE_WITH_DISCOUNT);
    assert_eq!(
        place.get_account_balance(&alice, t).unwrap(),
        DEFAULT_AVOCADO_BALANCE + amount + big
    );
}

#[test]
fn balance_query_before_accrual_clock_fails() {
    let t: u64 = 1_000;
    let mut place = Place::new(s("place.meta"), t);
    let alice = s("alice");
    place.register_account(&alice, t).unwrap();
    let r = place.get_account_balance(&alice, t - 1);
    assert_eq!(r, Err(PlaceError::ArithmeticUnderflow));
}

#[test]
fn balance_overflow_is_reported() {
    let t: u64 = 1_000;
    let mut place = Place::new(s("place.meta"), t);
    let record = AccountVersionAvocado {
        account_id: s("rich"),
        account_index: 1,
        balance: u128::MAX - DEFAULT_AVOCADO_BALANCE,
        num_pixels: 0,
        claim_timestamp: t,
    };
    place.insert_legacy_account(record).unwrap();
    let r = place.buy_tokens(&s("rich"), ONE_NEAR, t);
    assert_eq!(r, Err(PlaceError::ArithmeticOverflow));
}

#[test]
fn insufficient_avocado_draw_fails() {
    let t: u64 = 1_000;
    let mut place = Place::new(s("place.meta"), t);
    // 26 pixels cost more than the default balance of 25 pixel costs
    let mut pixels = Vec::new();
    for x in 0..26 {
        pixels.push(req(x, 0, 1));
    }
    let r = place.draw(&s("alice"), &pixels, t, 0);
    assert_eq!(r, Err(PlaceError::InsufficientBalance));
}

#[test]
fn reward_distribution_when_due() {
    let t0: u64 = 1_600_000_000_000_000_000;
    let mut place = Place::new(s("place.meta"), t0);
    let t1 = t0 + 24 * 60 * 60 * 1_000_000_000;
    assert_eq!(place.maybe_distribute(t1 - 1, 0), None);
    let value = RESERVED_FOR_STORAGE + STORAGE_SAFETY_MARGIN + 10;
    assert_eq!(place.maybe_distribute(t1, value), Some(5));
    assert_eq!(place.get_last_reward_timestamp(), t1);
    // not due again until another full period has passed
    assert_eq!(place.maybe_distribute(t1 + 1, value), None);
    assert_eq!(place.get_expected_reward(value), 5);
    assert_eq!(place.get_expected_reward(0), 0);
}

#[test]
fn metadata_is_static() {
    let m = <Place as FungibleTokenMetadataProvider>::ft_metadata();
    assert_eq!(m.name, "Banana");
    assert_eq!(m.symbol, "BANANA");
    assert_eq!(m.version, "0.1.0");
    assert_eq!(m.decimals, 18);
}

#[test]
fn get_lines_rejects_bad_row() {
    let t: u64 = 1_000;
    let place = Place::new(s("place.meta"), t);
    assert_eq!(place.get_lines(vec![0, 50]).err(), Some(PlaceError::ValidationFailure));
}

#[test]
fn timestamps_are_recorded() {
    let t: u64 = 12_345;
    let place = Place::new(s("place.meta"), t);
    assert_eq!(place.get_initialization_timestamp(), t);
    assert_eq!(place.get_last_reward_timestamp(), t);
    assert_eq!(place.get_num_accounts(), 1);
}
