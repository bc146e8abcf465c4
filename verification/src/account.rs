use vstd::prelude::*;

use crate::errors::PlaceError;
use crate::{
    lemma_sum_balances_agree, lemma_sum_balances_update, same_accounts, same_board, same_counters, same_times,
    same_vaults, slot_view, sum_balances, Place,
};

verus! {

/// Compact reference to an account: its position in the account table.
pub type AccountIndex = u32;

/// Cost of painting one pixel, in the smallest unit of the utility currency.
pub const PIXEL_COST: u128 = 1_000_000_000_000_000_000;
/// One whole unit of the attached payment currency.
pub const ONE_NEAR: u128 = 1_000_000_000_000_000_000_000_000;
/// Payment units per token unit at the regular exchange rate.
pub const PIXEL_TOKEN_PRICE: u128 = ONE_NEAR / PIXEL_COST / 250;
/// Payments of at least this much get the reduced rate.
pub const MIN_AMOUNT_FOR_DISCOUNT: u128 = 5 * ONE_NEAR;
/// Payment units per token unit at the reduced rate.
pub const PIXEL_TOKEN_PRICE_WITH_DISCOUNT: u128 = PIXEL_TOKEN_PRICE * 5 / 6;
/// Utility balance minted for every freshly created account.
pub const DEFAULT_AVOCADO_BALANCE: u128 = 25 * PIXEL_COST;
/// Tradeable balance of a freshly created account.
pub const DEFAULT_BANANA_BALANCE: u128 = 0;
/// Reward accrual rate: one pixel's cost per owned pixel per day.
pub const REWARD_PER_PIXEL_PER_NANOSEC: u128 = PIXEL_COST / (24 * 60 * 60 * 1_000_000_000);

/// The two balance denominations: a utility currency spent to draw pixels
/// ("Avocado") and a tradeable reward currency ("Banana").
#[derive(Clone, Copy, Debug, PartialEq, Eq, Structural)]
pub enum Berry {
    Avocado,
    Banana,
}

/// Slot of a berry kind in an account's two-slot balance vector.
pub open spec fn berry_index(berry: Berry) -> int {
    match berry {
        Berry::Avocado => 0,
        Berry::Banana => 1,
    }
}

impl Berry {
    /// Executable counterpart of [`berry_index`].
    pub fn index(self) -> (r: usize)
        ensures
            r == berry_index(self),
    {
        match self {
            Berry::Avocado => 0,
            Berry::Banana => 1,
        }
    }
}

/// Mathematical model of an account record.
pub struct AccountV {
    pub account_id: Seq<char>,
    pub account_index: AccountIndex,
    pub balances: Seq<u128>,
    pub num_pixels: u32,
    pub claim_timestamp: u64,
    pub farming_preference: Berry,
}

impl AccountV {
    /// A well-formed account has exactly one balance slot per berry kind.
    pub open spec fn wf(self) -> bool {
        self.balances.len() == 2
    }

    /// The balance held in the slot of `berry`.
    pub open spec fn balance(self, berry: Berry) -> u128 {
        self.balances[berry_index(berry)]
    }
}

/// The extra pixel counted while farming the utility currency.
pub open spec fn farm_bonus(berry: Berry) -> int {
    if berry == Berry::Avocado {
        1
    } else {
        0
    }
}

/// Reward accrued by `account` between its last accrual and `now`:
/// `(num_pixels + bonus) * elapsed * rate`. Meaningful when `now` is not
/// before the account's last accrual timestamp.
pub open spec fn farmed_amount(account: AccountV, now: u64) -> int {
    (account.num_pixels + farm_bonus(account.farming_preference)) * (now - account.claim_timestamp)
        * REWARD_PER_PIXEL_PER_NANOSEC
}

/// Whether accruing on `account` at `now` stays within the machine bounds:
/// time must not run backwards and the credited slot must not overflow.
pub open spec fn touch_fits(account: AccountV, now: u64) -> bool {
    &&& now >= account.claim_timestamp
    &&& account.balance(account.farming_preference) + farmed_amount(account, now) <= u128::MAX
}

/// The account after accrual at `now`: the farmed amount is added to the
/// slot of the farming preference and the accrual clock advances to `now`.
pub open spec fn touched(account: AccountV, now: u64) -> AccountV {
    AccountV {
        balances: account.balances.update(
            berry_index(account.farming_preference),
            (account.balance(account.farming_preference) + farmed_amount(account, now)) as u128,
        ),
        claim_timestamp: now,
        ..account
    }
}

/// The account after `amount` was credited to the slot of `berry`.
pub open spec fn credited(account: AccountV, berry: Berry, amount: u128) -> AccountV {
    AccountV {
        balances: account.balances.update(
            berry_index(berry),
            (account.balance(berry) + amount) as u128,
        ),
        ..account
    }
}

/// The account after `amount` was debited from the slot of `berry`.
pub open spec fn debited(account: AccountV, berry: Berry, amount: u128) -> AccountV {
    AccountV {
        balances: account.balances.update(
            berry_index(berry),
            (account.balance(berry) - amount) as u128,
        ),
        ..account
    }
}

/// Tokens bought for a payment of `near_amount`: the reduced rate applies
/// from [`MIN_AMOUNT_FOR_DISCOUNT`] upward.
pub open spec fn tokens_for_deposit(near_amount: u128) -> u128 {
    if near_amount >= MIN_AMOUNT_FOR_DISCOUNT {
        (near_amount / PIXEL_TOKEN_PRICE_WITH_DISCOUNT) as u128
    } else {
        (near_amount / PIXEL_TOKEN_PRICE) as u128
    }
}

/// An account record: identity, stable index, one balance per berry kind,
/// the count of board cells it currently owns, the accrual clock, and the
/// berry kind it is farming.
pub struct Account {
    pub account_id: String,
    pub account_index: AccountIndex,
    pub balances: Vec<u128>,
    pub num_pixels: u32,
    pub claim_timestamp: u64,
    pub farming_preference: Berry,
}

impl View for Account {
    type V = AccountV;

    open spec fn view(&self) -> AccountV {
        AccountV {
            account_id: self.account_id@,
            account_index: self.account_index,
            balances: self.balances@,
            num_pixels: self.num_pixels,
            claim_timestamp: self.claim_timestamp,
            farming_preference: self.farming_preference,
        }
    }
}

impl Clone for Account {
    fn clone(&self) -> (r: Self)
        ensures
            r@ == self@,
    {
        Account {
            account_id: self.account_id.clone(),
            account_index: self.account_index,
            balances: self.balances.clone(),
            num_pixels: self.num_pixels,
            claim_timestamp: self.claim_timestamp,
            farming_preference: self.farming_preference,
        }
    }
}

impl Account {
    /// A freshly created account: default balances, no pixels, accrual
    /// clock set to `now`, farming the utility currency.
    pub fn new(account_id: String, account_index: AccountIndex, now: u64) -> (r: Account)
        ensures
            r@ == (AccountV {
                account_id: account_id@,
                account_index: account_index,
                balances: seq![DEFAULT_AVOCADO_BALANCE, DEFAULT_BANANA_BALANCE],
                num_pixels: 0,
                claim_timestamp: now,
                farming_preference: Berry::Avocado,
            }),
            r@.wf(),
    {
        let mut balances: Vec<u128> = Vec::new();
        balances.push(DEFAULT_AVOCADO_BALANCE);
        balances.push(DEFAULT_BANANA_BALANCE);
        proof {
            assert(balances@ =~= seq![DEFAULT_AVOCADO_BALANCE, DEFAULT_BANANA_BALANCE]);
        }
        let r = Account {
            account_id,
            account_index,
            balances,
            num_pixels: 0,
            claim_timestamp: now,
            farming_preference: Berry::Avocado,
        };
        r
    }

    /// Applies lazy reward accrual: credits the farmed amount to the slot
    /// of the farming preference and advances the accrual clock to `now`.
    /// Returns which berry kind accrued and how much; zero is a valid,
    /// no-op result when no time has elapsed.
    pub fn touch(&mut self, now: u64) -> (r: Result<(Berry, u128), PlaceError>)
        requires
            old(self)@.wf(),
        ensures
            final(self)@.wf(),
            match r {
                Ok((berry, farmed)) => {
                    &&& touch_fits(old(self)@, now)
                    &&& berry == old(self).farming_preference
                    &&& farmed == farmed_amount(old(self)@, now)
                    &&& final(self)@ == touched(old(self)@, now)
                },
                Err(e) => {
                    &&& !touch_fits(old(self)@, now)
                    &&& *final(self) == *old(self)
                    &&& (e == PlaceError::ArithmeticUnderflow || e == PlaceError::ArithmeticOverflow)
                    &&& (e == PlaceError::ArithmeticUnderflow <==> now < old(self)@.claim_timestamp)
                    &&& (e == PlaceError::ArithmeticOverflow <==> (now >= old(self)@.claim_timestamp
                        && old(self)@.balance(old(self)@.farming_preference) + farmed_amount(
                            old(self)@,
                            now,
                        ) > u128::MAX))
                },
            },
    {
        if now < self.claim_timestamp {
            return Err(PlaceError::ArithmeticUnderflow);
        }
        let time_diff: u64 = now - self.claim_timestamp;
        let farm_bonus: u128 = if self.farming_preference == Berry::Avocado {
            1
        } else {
            0
        };
        let pixels: u128 = self.num_pixels as u128 + farm_bonus;
        assert(pixels * (time_diff as u128) <= 0x1_0000_0000u128 * 0xffff_ffff_ffff_ffffu128)
            by (nonlinear_arith)
            requires
                pixels <= 0x1_0000_0000u128,
                time_diff <= 0xffff_ffff_ffff_ffffu64,
        ;
        let owned_time: u128 = pixels * (time_diff as u128);
        assert(owned_time * REWARD_PER_PIXEL_PER_NANOSEC <= 0x1_0000_0000_0000_0000_0000_0000u128
            * 11574) by (nonlinear_arith)
            requires
                owned_time <= 0x1_0000_0000_0000_0000_0000_0000u128,
        ;
        let farmed: u128 = owned_time * REWARD_PER_PIXEL_PER_NANOSEC;
        let idx: usize = self.farming_preference.index();
        let balance: u128 = self.balances[idx];
        if balance > u128::MAX - farmed {
            return Err(PlaceError::ArithmeticOverflow);
        }
        self.balances.set(idx, balance + farmed);
        self.claim_timestamp = now;
        let berry = self.farming_preference;
        proof {
            assert(final(self)@ =~= touched(old(self)@, now));
        }
        Ok((berry, farmed))
    }

    /// Debits the cost of `num_pixels` freshly painted pixels from the
    /// slot of `berry`; fails when that slot cannot cover the cost.
    pub fn charge(&mut self, berry: Berry, num_pixels: u32) -> (r: Result<u128, PlaceError>)
        requires
            old(self)@.wf(),
        ensures
            final(self)@.wf(),
            match r {
                Ok(cost) => {
                    &&& cost == num_pixels * PIXEL_COST
                    &&& old(self)@.balance(berry) >= cost
                    &&& final(self)@ == debited(old(self)@, berry, cost)
                },
                Err(e) => {
                    &&& e == PlaceError::InsufficientBalance
                    &&& old(self)@.balance(berry) < num_pixels * PIXEL_COST
                    &&& *final(self) == *old(self)
                },
            },
    {
        assert((num_pixels as u128) * PIXEL_COST <= 0x1_0000_0000u128 * PIXEL_COST)
            by (nonlinear_arith)
            requires
                num_pixels as u128 <= 0x1_0000_0000u128,
        ;
        let cost: u128 = (num_pixels as u128) * PIXEL_COST;
        let idx: usize = berry.index();
        let balance: u128 = self.balances[idx];
        if balance < cost {
            return Err(PlaceError::InsufficientBalance);
        }
        self.balances.set(idx, balance - cost);
        proof {
            assert(final(self)@ =~= debited(old(self)@, berry, cost));
        }
        Ok(cost)
    }

    /// Converts an attached payment into utility tokens at the fixed
    /// exchange rate (reduced from [`MIN_AMOUNT_FOR_DISCOUNT`] upward) and
    /// credits them; fails only when the credited slot would overflow.
    pub fn buy_tokens(&mut self, near_amount: u128) -> (r: Result<u128, PlaceError>)
        requires
            old(self)@.wf(),
        ensures
            final(self)@.wf(),
            match r {
                Ok(amount) => {
                    &&& amount == tokens_for_deposit(near_amount)
                    &&& old(self)@.balance(Berry::Avocado) + amount <= u128::MAX
                    &&& final(self)@ == credited(old(self)@, Berry::Avocado, amount)
                },
                Err(e) => {
                    &&& e == PlaceError::ArithmeticOverflow
                    &&& old(self)@.balance(Berry::Avocado) + tokens_for_deposit(near_amount)
                        > u128::MAX
                    &&& *final(self) == *old(self)
                },
            },
    {
        let amount: u128 = if near_amount >= MIN_AMOUNT_FOR_DISCOUNT {
            near_amount / PIXEL_TOKEN_PRICE_WITH_DISCOUNT
        } else {
            near_amount / PIXEL_TOKEN_PRICE
        };
        let idx: usize = Berry::Avocado.index();
        let balance: u128 = self.balances[idx];
        if balance > u128::MAX - amount {
            return Err(PlaceError::ArithmeticOverflow);
        }
        self.balances.set(idx, balance + amount);
        proof {
            assert(final(self)@ =~= credited(old(self)@, Berry::Avocado, amount));
        }
        Ok(amount)
    }
}

/// The deprecated single-balance account record format. Records persisted
/// in this shape are upgraded transparently on the read path.
pub struct AccountVersionAvocado {
    pub account_id: String,
    pub account_index: AccountIndex,
    pub balance: u128,
    pub num_pixels: u32,
    pub claim_timestamp: u64,
}

impl Clone for AccountVersionAvocado {
    fn clone(&self) -> (r: Self)
        ensures
            r.account_id@ == self.account_id@,
            r.account_index == self.account_index,
            r.balance == self.balance,
            r.num_pixels == self.num_pixels,
            r.claim_timestamp == self.claim_timestamp,
    {
        AccountVersionAvocado {
            account_id: self.account_id.clone(),
            account_index: self.account_index,
            balance: self.balance,
            num_pixels: self.num_pixels,
            claim_timestamp: self.claim_timestamp,
        }
    }
}

/// The canonical reading of a legacy record: the old balance becomes the
/// utility slot, the tradeable slot starts at zero, and the farming
/// preference defaults to the utility currency.
pub open spec fn legacy_upgraded(account: AccountVersionAvocado) -> AccountV {
    AccountV {
        account_id: account.account_id@,
        account_index: account.account_index,
        balances: seq![account.balance, 0u128],
        num_pixels: account.num_pixels,
        claim_timestamp: account.claim_timestamp,
        farming_preference: Berry::Avocado,
    }
}

impl Account {
    /// Upgrades a legacy single-balance record to the two-balance shape.
    pub fn from_legacy(account: AccountVersionAvocado) -> (r: Account)
        ensures
            r@ == legacy_upgraded(account),
            r@.wf(),
    {
        let mut balances: Vec<u128> = Vec::new();
        balances.push(account.balance);
        balances.push(0);
        proof {
            assert(balances@ =~= seq![account.balance, 0u128]);
        }
        Account {
            account_id: account.account_id,
            account_index: account.account_index,
            balances,
            num_pixels: account.num_pixels,
            claim_timestamp: account.claim_timestamp,
            farming_preference: Berry::Avocado,
        }
    }
}

/// Closed set of persisted record formats for the current account table.
pub enum UpgradableAccount {
    BananaAccount(Account),
}

impl View for UpgradableAccount {
    type V = AccountV;

    open spec fn view(&self) -> AccountV {
        match self {
            UpgradableAccount::BananaAccount(account) => account@,
        }
    }
}

impl Clone for UpgradableAccount {
    fn clone(&self) -> (r: Self)
        ensures
            r@ == self@,
    {
        match self {
            UpgradableAccount::BananaAccount(account) => UpgradableAccount::BananaAccount(
                account.clone(),
            ),
        }
    }
}

impl From<UpgradableAccount> for Account {
    fn from(account: UpgradableAccount) -> (r: Account) {
        match account {
            UpgradableAccount::BananaAccount(account) => account,
        }
    }
}

impl vstd::std_specs::convert::FromSpecImpl<UpgradableAccount> for Account {
    open spec fn obeys_from_spec() -> bool {
        true
    }

    open spec fn from_spec(account: UpgradableAccount) -> Account {
        match account {
            UpgradableAccount::BananaAccount(account) => account,
        }
    }
}

impl From<Account> for UpgradableAccount {
    fn from(account: Account) -> (r: UpgradableAccount) {
        UpgradableAccount::BananaAccount(account)
    }
}

impl vstd::std_specs::convert::FromSpecImpl<Account> for UpgradableAccount {
    open spec fn obeys_from_spec() -> bool {
        true
    }

    open spec fn from_spec(account: Account) -> UpgradableAccount {
        UpgradableAccount::BananaAccount(account)
    }
}

/// Query-facing projection of an account: both balances spelled out.
pub struct HumanAccount {
    pub account_id: String,
    pub account_index: AccountIndex,
    pub avocado_balance: u128,
    pub banana_balance: u128,
    pub num_pixels: u32,
    pub farming_preference: Berry,
}

impl HumanAccount {
    /// Projects an account into the query-facing shape.
    pub fn from(account: Account) -> (r: HumanAccount)
        requires
            account@.wf(),
        ensures
            r.account_id@ == account@.account_id,
            r.account_index == account@.account_index,
            r.avocado_balance == account@.balance(Berry::Avocado),
            r.banana_balance == account@.balance(Berry::Banana),
            r.num_pixels == account@.num_pixels,
            r.farming_preference == account@.farming_preference,
    {
        let avocado_balance = account.balances[0];
        let banana_balance = account.balances[1];
        HumanAccount {
            account_id: account.account_id,
            account_index: account.account_index,
            avocado_balance,
            banana_balance,
            num_pixels: account.num_pixels,
            farming_preference: account.farming_preference,
        }
    }
}

/// A freshly created account record for `id` at `index`, created at `now`.
pub open spec fn fresh_account(id: Seq<char>, index: AccountIndex, now: u64) -> AccountV {
    AccountV {
        account_id: id,
        account_index: index,
        balances: seq![DEFAULT_AVOCADO_BALANCE, DEFAULT_BANANA_BALANCE],
        num_pixels: 0,
        claim_timestamp: now,
        farming_preference: Berry::Avocado,
    }
}

impl Place {
    /// Looks an account up by index, upgrading a legacy record on the way.
    pub fn get_internal_account_by_index(&self, account_index: AccountIndex) -> (r: Option<
        Account,
    >)
        requires
            self.basic_wf(),
        ensures
            match r {
                Some(a) => {
                    &&& account_index < self.num_accounts
                    &&& a@ == self.account_at(account_index as int)
                    &&& a@.wf()
                },
                None => account_index >= self.num_accounts,
            },
    {
        if account_index >= self.num_accounts {
            return None;
        }
        let idx = account_index as usize;
        let slot = self.accounts[idx].clone();
        match slot {
            Some(upgradable) => Some(Account::from(upgradable)),
            None => {
                let legacy = self.legacy_accounts[idx].clone();
                match legacy {
                    Some(record) => {
                        let account = Account::from_legacy(record);
                        proof {
                            assert(account@ =~= self.account_at(account_index as int));
                        }
                        Some(account)
                    },
                    None => {
                        proof {
                            assert(false);
                        }
                        None
                    },
                }
            },
        }
    }

    /// Looks an account up by identity.
    pub fn get_internal_account_by_id(&self, account_id: &String) -> (r: Option<Account>)
        requires
            self.basic_wf(),
        ensures
            match r {
                Some(a) => {
                    &&& self.has_account(account_id@)
                    &&& a@ == self.account_at(self.account_index_of(account_id@))
                    &&& a@.wf()
                    &&& a@.account_id == account_id@
                },
                None => !self.has_account(account_id@),
            },
    {
        let mut i: u32 = 0;
        while i < self.num_accounts
            invariant
                self.basic_wf(),
                i <= self.num_accounts,
                forall|j: int|
                    0 <= j < i ==> (#[trigger] self.account_at(j)).account_id != account_id@,
            decreases self.num_accounts - i,
        {
            let account = self.get_internal_account_by_index(i).unwrap();
            if account.account_id == *account_id {
                proof {
                    assert(self.account_at(i as int).account_id == account_id@);
                    assert(self.has_account(account_id@));
                    let k = self.account_index_of(account_id@);
                    assert(self.account_at(k).account_id == account_id@);
                    assert(k == i as int);
                }
                return Some(account);
            }
            i = i + 1;
        }
        None
    }

    /// Applies lazy accrual to `account` and adds what was farmed to the
    /// aggregate farmed counter of the matching berry kind. On `Err`
    /// neither the account nor the ledger changes.
    pub fn touch(&mut self, account: &mut Account, now: u64) -> (r: Result<(), PlaceError>)
        requires
            old(self).farmed_balances@.len() == 2,
            old(account)@.wf(),
        ensures
            same_accounts(*final(self), *old(self)),
            same_board(*final(self), *old(self)),
            same_vaults(*final(self), *old(self)),
            same_times(*final(self), *old(self)),
            final(self).bought_balances@ == old(self).bought_balances@,
            final(self).burned_balances@ == old(self).burned_balances@,
            match r {
                Ok(()) => {
                    &&& touch_fits(old(account)@, now)
                    &&& final(account)@ == touched(old(account)@, now)
                    &&& old(self).farmed_balances@[berry_index(
                        old(account)@.farming_preference,
                    )] + farmed_amount(old(account)@, now) <= u128::MAX
                    &&& final(self).farmed_balances@ == old(self).farmed_balances@.update(
                        berry_index(old(account)@.farming_preference),
                        (old(self).farmed_balances@[berry_index(old(account)@.farming_preference)]
                            + farmed_amount(old(account)@, now)) as u128,
                    )
                },
                Err(e) => {
                    &&& *final(account) == *old(account)
                    &&& final(self).farmed_balances@ == old(self).farmed_balances@
                    &&& (e == PlaceError::ArithmeticUnderflow || e == PlaceError::ArithmeticOverflow)
                    &&& (e == PlaceError::ArithmeticUnderflow <==> now < old(
                        account,
                    )@.claim_timestamp)
                    &&& (e == PlaceError::ArithmeticOverflow <==> (now >= old(
                        account,
                    )@.claim_timestamp && (old(account)@.balance(old(account)@.farming_preference)
                        + farmed_amount(old(account)@, now) > u128::MAX || old(
                        self,
                    ).farmed_balances@[berry_index(old(account)@.farming_preference)]
                        + farmed_amount(old(account)@, now) > u128::MAX)))
                },
            },
    {
        let mut tmp = account.clone();
        match tmp.touch(now) {
            Err(e) => Err(e),
            Ok((berry, farmed)) => {
                let idx = berry.index();
                let counter = self.farmed_balances[idx];
                if counter > u128::MAX - farmed {
                    return Err(PlaceError::ArithmeticOverflow);
                }
                self.farmed_balances.set(idx, counter + farmed);
                *account = tmp;
                Ok(())
            },
        }
    }

    /// Looks the account of `account_id` up, creating a fresh record with
    /// the next free index if none exists, and applies lazy accrual. The
    /// default balance granted to a fresh record is added to the bought
    /// counter; the record itself is not yet persisted.
    pub fn get_mut_account(&mut self, account_id: String, now: u64) -> (r: Result<
        Account,
        PlaceError,
    >)
        requires
            old(self).basic_wf(),
        ensures
            final(self).basic_wf(),
            same_accounts(*final(self), *old(self)),
            same_board(*final(self), *old(self)),
            same_vaults(*final(self), *old(self)),
            same_times(*final(self), *old(self)),
            final(self).burned_balances@ == old(self).burned_balances@,
            match r {
                Ok(a) => {
                    &&& a@.wf()
                    &&& if old(self).has_account(account_id@) {
                        let i = old(self).account_index_of(account_id@);
                        &&& a@ == touched(old(self).account_at(i), now)
                        &&& touch_fits(old(self).account_at(i), now)
                        &&& old(self).farmed_balances@[berry_index(
                            old(self).account_at(i).farming_preference,
                        )] + farmed_amount(old(self).account_at(i), now) <= u128::MAX
                        &&& final(self).bought_balances@ == old(self).bought_balances@
                        &&& final(self).farmed_balances@ == old(self).farmed_balances@.update(
                            berry_index(old(self).account_at(i).farming_preference),
                            (old(self).farmed_balances@[berry_index(
                                old(self).account_at(i).farming_preference,
                            )] + farmed_amount(old(self).account_at(i), now)) as u128,
                        )
                    } else {
                        &&& a@ == fresh_account(account_id@, old(self).num_accounts, now)
                        &&& old(self).bought_balances@[0] + DEFAULT_AVOCADO_BALANCE <= u128::MAX
                        &&& final(self).bought_balances@ == old(self).bought_balances@.update(
                            0,
                            (old(self).bought_balances@[0] + DEFAULT_AVOCADO_BALANCE) as u128,
                        )
                        &&& final(self).farmed_balances@ == old(self).farmed_balances@
                    }
                },
                Err(e) => {
                    &&& final(self).bought_balances@ == old(self).bought_balances@
                    &&& final(self).farmed_balances@ == old(self).farmed_balances@
                    &&& (e == PlaceError::ArithmeticUnderflow || e
                        == PlaceError::ArithmeticOverflow)
                    &&& (e == PlaceError::ArithmeticUnderflow <==> (old(self).has_account(
                        account_id@,
                    ) && now < old(self).account_at(
                        old(self).account_index_of(account_id@),
                    ).claim_timestamp))
                    &&& if old(self).has_account(account_id@) {
                        !touch_fits(old(self).account_at(old(self).account_index_of(account_id@)), now)
                            || old(self).farmed_balances@[berry_index(
                            old(self).account_at(
                                old(self).account_index_of(account_id@),
                            ).farming_preference,
                        )] + farmed_amount(
                            old(self).account_at(old(self).account_index_of(account_id@)),
                            now,
                        ) > u128::MAX
                    } else {
                        old(self).bought_balances@[0] + DEFAULT_AVOCADO_BALANCE > u128::MAX
                    }
                },
            },
    {
        let r: Result<Account, PlaceError> = match self.get_internal_account_by_id(&account_id) {
            Some(mut account) => {
                match self.touch(&mut account, now) {
                    Ok(()) => Ok(account),
                    Err(e) => Err(e),
                }
            },
            None => {
                let bought = self.bought_balances[0];
                if bought > u128::MAX - DEFAULT_AVOCADO_BALANCE {
                    Err(PlaceError::ArithmeticOverflow)
                } else {
                    self.bought_balances.set(0, bought + DEFAULT_AVOCADO_BALANCE);
                    Ok(Account::new(account_id, self.num_accounts, now))
                }
            },
        };
        proof {
            crate::lemma_basic_wf_transfer(*old(self), *self);
        }
        r
    }
}

impl Place {
    /// Persists `account` by index. A new index appends the record and
    /// registers its identity; an existing index replaces the record in
    /// the current-format table and drops any residual legacy record, so
    /// nothing of the previous encoding can outlive the write.
    pub fn save_account(&mut self, account: Account)
        requires
            old(self).basic_wf(),
            account@.wf(),
            (account@.account_index as int) <= (old(self).num_accounts as int),
            (account@.account_index as int) < (old(self).num_accounts as int) ==> account@.account_id
                == old(self).account_at(account@.account_index as int).account_id,
            (account@.account_index as int) == (old(self).num_accounts as int) ==> !old(
                self,
            ).has_account(account@.account_id) && old(self).num_accounts < u32::MAX,
        ensures
            final(self).basic_wf(),
            same_board(*final(self), *old(self)),
            same_counters(*final(self), *old(self)),
            same_vaults(*final(self), *old(self)),
            same_times(*final(self), *old(self)),
            if (account@.account_index as int) < (old(self).num_accounts as int) {
                &&& final(self).num_accounts == old(self).num_accounts
                &&& final(self).accounts@ == old(self).accounts@.update(
                    account@.account_index as int,
                    Some(UpgradableAccount::BananaAccount(account)),
                )
                &&& final(self).legacy_accounts@ == old(self).legacy_accounts@.update(
                    account@.account_index as int,
                    None::<AccountVersionAvocado>,
                )
            } else {
                &&& final(self).num_accounts == old(self).num_accounts + 1
                &&& final(self).accounts@ == old(self).accounts@.push(
                    Some(UpgradableAccount::BananaAccount(account)),
                )
                &&& final(self).legacy_accounts@ == old(self).legacy_accounts@.push(
                    None::<AccountVersionAvocado>,
                )
            },
    {
        let ghost view = account@;
        let account_index = account.account_index;
        if account_index < self.num_accounts {
            let idx = account_index as usize;
            self.accounts.set(idx, Some(UpgradableAccount::BananaAccount(account)));
            self.legacy_accounts.set(idx, None);
            proof {
                let a = *old(self);
                let b = *self;
                let k = view.account_index as int;
                assert forall|i: int| 0 <= i < b.num_accounts implies (#[trigger] b.account_at(i))
                    == if i == k {
                    view
                } else {
                    a.account_at(i)
                } by {}
                assert(b.basic_wf());
            }
        } else {
            self.accounts.push(Some(UpgradableAccount::BananaAccount(account)));
            self.legacy_accounts.push(None);
            self.num_accounts = self.num_accounts + 1;
            proof {
                let a = *old(self);
                let b = *self;
                let k = view.account_index as int;
                assert forall|i: int| 0 <= i < b.num_accounts implies (#[trigger] b.account_at(i))
                    == if i == k {
                    view
                } else {
                    a.account_at(i)
                } by {}
                assert forall|i: int, j: int|
                    0 <= i < b.num_accounts && 0 <= j < b.num_accounts && i != j implies (
                #[trigger] b.account_at(i)).account_id != (#[trigger] b.account_at(
                    j,
                )).account_id by {
                    if i == k {
                        assert(a.account_at(j).account_id != view.account_id);
                    } else if j == k {
                        assert(a.account_at(i).account_id != view.account_id);
                    }
                }
                assert(b.basic_wf());
            }
        }
    }

    /// Restores a record that is still persisted in the deprecated
    /// single-balance format, as the host's state-loading path hands it
    /// over. The record must take the next free index, carry a fresh
    /// identity and own no pixels yet; its balance counts as minted.
    pub fn insert_legacy_account(&mut self, record: AccountVersionAvocado) -> (r: Result<
        (),
        PlaceError,
    >)
        requires
            old(self).wf(),
        ensures
            final(self).wf(),
            match r {
                Ok(()) => {
                    &&& (record.account_index as int) == (old(self).num_accounts as int)
                    &&& !old(self).has_account(record.account_id@)
                    &&& old(self).num_accounts < u32::MAX
                    &&& record.num_pixels == 0
                    &&& old(self).bought_balances@[0] + record.balance <= u128::MAX
                    &&& final(self).num_accounts == old(self).num_accounts + 1
                    &&& final(self).accounts@ == old(self).accounts@.push(
                        None::<UpgradableAccount>,
                    )
                    &&& final(self).legacy_accounts@ == old(self).legacy_accounts@.push(
                        Some(record),
                    )
                    &&& final(self).account_at(old(self).num_accounts as int) == legacy_upgraded(
                        record,
                    )
                    &&& final(self).bought_balances@ == old(self).bought_balances@.update(
                        0,
                        (old(self).bought_balances@[0] + record.balance) as u128,
                    )
                    &&& same_board(*final(self), *old(self))
                    &&& same_vaults(*final(self), *old(self))
                    &&& same_times(*final(self), *old(self))
                    &&& final(self).burned_balances@ == old(self).burned_balances@
                    &&& final(self).farmed_balances@ == old(self).farmed_balances@
                },
                Err(e) => {
                    &&& *final(self) == *old(self)
                    &&& (e == PlaceError::ValidationFailure <==> !(record.account_index as int
                        == old(self).num_accounts as int && !old(self).has_account(
                        record.account_id@,
                    ) && old(self).num_accounts < u32::MAX && record.num_pixels == 0))
                    &&& (e == PlaceError::ArithmeticOverflow <==> (record.account_index as int
                        == old(self).num_accounts as int && !old(self).has_account(
                        record.account_id@,
                    ) && old(self).num_accounts < u32::MAX && record.num_pixels == 0 && old(
                        self,
                    ).bought_balances@[0] + record.balance > u128::MAX))
                },
            },
    {
        if record.account_index != self.num_accounts || self.num_accounts == u32::MAX
            || record.num_pixels != 0 {
            return Err(PlaceError::ValidationFailure);
        }
        if self.get_internal_account_by_id(&record.account_id).is_some() {
            return Err(PlaceError::ValidationFailure);
        }
        let bought = self.bought_balances[0];
        if bought > u128::MAX - record.balance {
            return Err(PlaceError::ArithmeticOverflow);
        }
        let ghost balance = record.balance;
        let ghost view = legacy_upgraded(record);
        self.bought_balances.set(0, bought + record.balance);
        self.accounts.push(None);
        self.legacy_accounts.push(Some(record));
        self.num_accounts = self.num_accounts + 1;
        proof {
            let a = *old(self);
            let b = *self;
            let k = a.num_accounts as int;
            assert forall|i: int| 0 <= i < b.num_accounts implies (#[trigger] b.account_at(i))
                == if i == k {
                view
            } else {
                a.account_at(i)
            } by {}
            assert forall|i: int, j: int|
                0 <= i < b.num_accounts && 0 <= j < b.num_accounts && i != j implies (
            #[trigger] b.account_at(i)).account_id != (#[trigger] b.account_at(j)).account_id by {
                if i == k {
                    assert(a.account_at(j).account_id != view.account_id);
                } else if j == k {
                    assert(a.account_at(i).account_id != view.account_id);
                }
            }
            assert(b.basic_wf());
            assert(b.board.grid() == a.board.grid());
            crate::board::lemma_count_grid_zero(b.board.grid(), k, k);
            assert(b.pixels_consistent());
            assert forall|berry: Berry| #[trigger]
                b.conserved_for(berry) == a.conserved_for(berry) implies true by {}
            lemma_sum_balances_agree(
                b.accounts@,
                b.legacy_accounts@,
                a.accounts@,
                a.legacy_accounts@,
                Berry::Avocado,
                k,
            );
            lemma_sum_balances_agree(
                b.accounts@,
                b.legacy_accounts@,
                a.accounts@,
                a.legacy_accounts@,
                Berry::Banana,
                k,
            );
            assert(sum_balances(b.accounts@, b.legacy_accounts@, Berry::Avocado, k + 1)
                == sum_balances(a.accounts@, a.legacy_accounts@, Berry::Avocado, k) + balance);
            assert(sum_balances(b.accounts@, b.legacy_accounts@, Berry::Banana, k + 1)
                == sum_balances(a.accounts@, a.legacy_accounts@, Berry::Banana, k));
            assert(b.conserved_for(Berry::Avocado));
            assert(b.conserved_for(Berry::Banana));
        }
        Ok(())
    }

    /// The fixed cost of painting one pixel.
    pub fn get_pixel_cost(&self) -> (r: u128)
        ensures
            r == PIXEL_COST,
    {
        PIXEL_COST
    }

    /// The account at `account_index`, shown with accrual applied up to
    /// `now`; the stored state is not changed.
    pub fn get_account_by_index(&self, account_index: AccountIndex, now: u64) -> (r: Result<
        Option<HumanAccount>,
        PlaceError,
    >)
        requires
            self.basic_wf(),
        ensures
            match r {
                Ok(Some(h)) => {
                    &&& account_index < self.num_accounts
                    &&& touch_fits(self.account_at(account_index as int), now)
                    &&& h.account_id@ == self.account_at(account_index as int).account_id
                    &&& h.account_index == account_index
                    &&& h.avocado_balance == touched(
                        self.account_at(account_index as int),
                        now,
                    ).balance(Berry::Avocado)
                    &&& h.banana_balance == touched(
                        self.account_at(account_index as int),
                        now,
                    ).balance(Berry::Banana)
                    &&& h.num_pixels == self.account_at(account_index as int).num_pixels
                    &&& h.farming_preference == self.account_at(
                        account_index as int,
                    ).farming_preference
                },
                Ok(None) => account_index >= self.num_accounts,
                Err(e) => {
                    &&& account_index < self.num_accounts
                    &&& !touch_fits(self.account_at(account_index as int), now)
                    &&& (e == PlaceError::ArithmeticUnderflow || e
                        == PlaceError::ArithmeticOverflow)
                },
            },
    {
        match self.get_internal_account_by_index(account_index) {
            None => Ok(None),
            Some(mut account) => match account.touch(now) {
                Ok(_) => Ok(Some(HumanAccount::from(account))),
                Err(e) => Err(e),
            },
        }
    }

    /// The account of `account_id`, shown with accrual applied up to
    /// `now`; the stored state is not changed.
    pub fn get_account(&self, account_id: &String, now: u64) -> (r: Result<
        Option<HumanAccount>,
        PlaceError,
    >)
        requires
            self.basic_wf(),
        ensures
            match r {
                Ok(Some(h)) => {
                    &&& self.has_account(account_id@)
                    &&& touch_fits(self.account_at(self.account_index_of(account_id@)), now)
                    &&& h.account_id@ == account_id@
                    &&& h.account_index == self.account_index_of(account_id@)
                    &&& h.avocado_balance == touched(
                        self.account_at(self.account_index_of(account_id@)),
                        now,
                    ).balance(Berry::Avocado)
                    &&& h.banana_balance == touched(
                        self.account_at(self.account_index_of(account_id@)),
                        now,
                    ).balance(Berry::Banana)
                    &&& h.num_pixels == self.account_at(
                        self.account_index_of(account_id@),
                    ).num_pixels
                    &&& h.farming_preference == self.account_at(
                        self.account_index_of(account_id@),
                    ).farming_preference
                },
                Ok(None) => !self.has_account(account_id@),
                Err(e) => {
                    &&& self.has_account(account_id@)
                    &&& !touch_fits(self.account_at(self.account_index_of(account_id@)), now)
                    &&& (e == PlaceError::ArithmeticUnderflow || e
                        == PlaceError::ArithmeticOverflow)
                },
            },
    {
        match self.get_internal_account_by_id(account_id) {
            None => Ok(None),
            Some(mut account) => match account.touch(now) {
                Ok(_) => Ok(Some(HumanAccount::from(account))),
                Err(e) => Err(e),
            },
        }
    }

    /// The utility balance of `account_id` with accrual applied up to
    /// `now`; an unregistered identity shows the default balance it would
    /// be created with.
    pub fn get_account_balance(&self, account_id: &String, now: u64) -> (r: Result<
        u128,
        PlaceError,
    >)
        requires
            self.basic_wf(),
        ensures
            match r {
                Ok(balance) => if self.has_account(account_id@) {
                    &&& touch_fits(self.account_at(self.account_index_of(account_id@)), now)
                    &&& balance == touched(
                        self.account_at(self.account_index_of(account_id@)),
                        now,
                    ).balance(Berry::Avocado)
                } else {
                    balance == DEFAULT_AVOCADO_BALANCE
                },
                Err(e) => {
                    &&& self.has_account(account_id@)
                    &&& !touch_fits(self.account_at(self.account_index_of(account_id@)), now)
                    &&& (e == PlaceError::ArithmeticUnderflow || e
                        == PlaceError::ArithmeticOverflow)
                },
            },
    {
        match self.get_internal_account_by_id(account_id) {
            None => Ok(DEFAULT_AVOCADO_BALANCE),
            Some(mut account) => match account.touch(now) {
                Ok(_) => Ok(account.balances[0]),
                Err(e) => Err(e),
            },
        }
    }

    /// How many pixels the account of `account_id` currently owns; zero
    /// for an unregistered identity.
    pub fn get_account_num_pixels(&self, account_id: &String) -> (r: u32)
        requires
            self.basic_wf(),
        ensures
            r == if self.has_account(account_id@) {
                self.account_at(self.account_index_of(account_id@)).num_pixels
            } else {
                0u32
            },
    {
        match self.get_internal_account_by_id(account_id) {
            None => 0,
            Some(account) => account.num_pixels,
        }
    }

    /// The identity registered at `account_index`, if any.
    pub fn get_account_id_by_index(&self, account_index: AccountIndex) -> (r: Option<String>)
        requires
            self.basic_wf(),
        ensures
            match r {
                Some(id) => account_index < self.num_accounts && id@ == self.account_at(
                    account_index as int,
                ).account_id,
                None => account_index >= self.num_accounts,
            },
    {
        match self.get_internal_account_by_index(account_index) {
            None => None,
            Some(account) => Some(account.account_id),
        }
    }
}

/// Accrual over a nonnegative time span is never negative.
pub proof fn lemma_farmed_nonneg(account: AccountV, now: u64)
    requires
        now >= account.claim_timestamp,
    ensures
        farmed_amount(account, now) >= 0,
{
    let pixels = account.num_pixels + farm_bonus(account.farming_preference);
    let elapsed = now - account.claim_timestamp;
    assert(pixels * elapsed * REWARD_PER_PIXEL_PER_NANOSEC >= 0) by (nonlinear_arith)
        requires
            pixels >= 0,
            elapsed >= 0,
            REWARD_PER_PIXEL_PER_NANOSEC >= 0,
    ;
}

/// Touching an account a second time with no elapsed time in between is
/// idempotent: the second touch farms nothing and changes nothing.
pub proof fn lemma_touch_idempotent(account: AccountV, now: u64)
    requires
        account.wf(),
        now >= account.claim_timestamp,
        touch_fits(account, now),
    ensures
        farmed_amount(touched(account, now), now) == 0,
        touched(touched(account, now), now) == touched(account, now),
{
    let once = touched(account, now);
    assert(farmed_amount(once, now) == 0) by {
        assert(once.claim_timestamp == now);
        let pixels = once.num_pixels + farm_bonus(once.farming_preference);
        assert(pixels * (now - now) * REWARD_PER_PIXEL_PER_NANOSEC == 0) by (nonlinear_arith);
    }
    assert(touched(once, now) =~= once) by {
        assert(once.balances.update(
            berry_index(once.farming_preference),
            (once.balance(once.farming_preference) + 0) as u128,
        ) =~= once.balances);
    }
}

/// Upgrading a legacy single-balance record yields exactly the old balance
/// in the utility slot, zero in the tradeable slot, the farming preference
/// defaulted to the utility currency, and every other field unchanged.
pub proof fn lemma_legacy_upgrade_round_trip(account: AccountVersionAvocado)
    ensures
        legacy_upgraded(account).wf(),
        legacy_upgraded(account).balance(Berry::Avocado) == account.balance,
        legacy_upgraded(account).balance(Berry::Banana) == 0,
        legacy_upgraded(account).farming_preference == Berry::Avocado,
        legacy_upgraded(account).account_id == account.account_id@,
        legacy_upgraded(account).account_index == account.account_index,
        legacy_upgraded(account).num_pixels == account.num_pixels,
        legacy_upgraded(account).claim_timestamp == account.claim_timestamp,
{
}

} // verus!
