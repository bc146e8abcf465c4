use vstd::prelude::*;

use crate::account::{
    berry_index, credited, debited, farmed_amount, touch_fits, touched, AccountV, Berry,
};
use crate::errors::PlaceError;
use crate::{
    lemma_basic_wf_transfer, lemma_lookup_ids, lemma_same_state_prepared, lemma_sum_balances_update,
    prepare_fails, prepared_account, slot_view, Place,
};

verus! {

/// Basic compute budget unit.
pub const GAS_BASE_COMPUTE: u64 = 5_000_000_000_000;
/// Budget for scheduling one call to another party.
pub const GAS_FOR_PROMISE: u64 = 5_000_000_000_000;
/// Budget for chaining a follow-up onto a scheduled call.
pub const GAS_FOR_DATA_DEPENDENCY: u64 = 10_000_000_000_000;
/// Least budget the receiver's notification callback must be handed.
pub const MIN_GAS_FOR_RECEIVER: u64 = GAS_FOR_PROMISE + GAS_BASE_COMPUTE;
/// Budget reserved for the resolution step itself.
pub const GAS_FOR_CALLBACK: u64 = GAS_BASE_COMPUTE;
/// Budget the initiating call keeps for its own remaining work.
pub const GAS_FOR_REMAINING_COMPUTE: u64 = 2 * GAS_FOR_PROMISE + GAS_FOR_DATA_DEPENDENCY
    + GAS_BASE_COMPUTE;

/// Escrow identifier: a monotonically increasing counter, unique per vault.
#[derive(Clone, Copy, Debug, PartialEq, Eq, Structural)]
pub struct VaultId(pub u64);

impl VaultId {
    /// The identifier following this one.
    pub fn next(&self) -> (r: Self)
        requires
            self.0 < u64::MAX,
        ensures
            r.0 == self.0 + 1,
    {
        VaultId(self.0 + 1)
    }
}

/// Mathematical model of an escrow record.
pub struct VaultV {
    pub receiver_id: Seq<char>,
    pub balance: u128,
}

/// An escrow record: the intended receiver and the balance still held in
/// transit. A vault exists from the initiation of an escrowed transfer
/// until its resolution; while it exists, its balance belongs to neither
/// party's spendable balance.
pub struct Vault {
    pub receiver_id: String,
    pub balance: u128,
}

impl View for Vault {
    type V = VaultV;

    open spec fn view(&self) -> VaultV {
        VaultV { receiver_id: self.receiver_id@, balance: self.balance }
    }
}

impl Clone for Vault {
    fn clone(&self) -> (r: Self)
        ensures
            r == *self,
    {
        Vault { receiver_id: self.receiver_id.clone(), balance: self.balance }
    }
}

/// Sum of the balances still held by the open vaults of `vaults`.
pub open spec fn vaults_total(vaults: Seq<(u64, Vault)>) -> int
    decreases vaults.len(),
{
    if vaults.len() == 0 {
        0
    } else {
        vaults_total(vaults.drop_last()) + vaults.last().1.balance
    }
}

pub proof fn lemma_vaults_total_nonneg(vaults: Seq<(u64, Vault)>)
    ensures
        vaults_total(vaults) >= 0,
    decreases vaults.len(),
{
    if vaults.len() > 0 {
        lemma_vaults_total_nonneg(vaults.drop_last());
    }
}

pub proof fn lemma_vaults_total_update(vaults: Seq<(u64, Vault)>, i: int, entry: (u64, Vault))
    requires
        0 <= i < vaults.len(),
    ensures
        vaults_total(vaults.update(i, entry)) == vaults_total(vaults) - vaults[i].1.balance
            + entry.1.balance,
    decreases vaults.len(),
{
    let t = vaults.update(i, entry);
    if i == vaults.len() - 1 {
        assert(t.drop_last() =~= vaults.drop_last());
        assert(t.last() == entry);
    } else {
        assert(t.drop_last() =~= vaults.drop_last().update(i, entry));
        assert(t.last() == vaults.last());
        lemma_vaults_total_update(vaults.drop_last(), i, entry);
    }
}

/// Whether crediting `amount` of the tradeable currency to the registered
/// account of `id` stays within the machine bounds: its accrual must not
/// overflow, nor the credited slot, nor the farmed counter of its
/// preference.
pub open spec fn deposit_fits(place: Place, id: Seq<char>, amount: u128, now: u64) -> bool {
    let account = place.account_at(place.account_index_of(id));
    &&& touch_fits(account, now)
    &&& touched(account, now).balance(Berry::Banana) + amount <= u128::MAX
    &&& place.farmed_balances@[berry_index(account.farming_preference)] + farmed_amount(
        account,
        now,
    ) <= u128::MAX
}

/// Whether crediting the receiver of a direct transfer stays within the
/// machine bounds, with the sender's accrual already counted into the
/// farmed counter of the sender's preference.
pub open spec fn receive_fits(
    place: Place,
    sender_id: Seq<char>,
    receiver_id: Seq<char>,
    amount: u128,
    now: u64,
) -> bool {
    let sender = place.account_at(place.account_index_of(sender_id));
    let receiver = place.account_at(place.account_index_of(receiver_id));
    let counter = place.farmed_balances@[berry_index(receiver.farming_preference)] + (
    if receiver.farming_preference == sender.farming_preference {
        farmed_amount(sender, now)
    } else {
        0int
    });
    &&& touch_fits(receiver, now)
    &&& touched(receiver, now).balance(Berry::Banana) + amount <= u128::MAX
    &&& counter + farmed_amount(receiver, now) <= u128::MAX
}

/// Whether an open vault with identifier `id` exists.
pub open spec fn has_vault(place: Place, id: u64) -> bool {
    exists|j: int| 0 <= j < place.vaults@.len() && (#[trigger] place.vaults@[j]).0 == id
}

/// The position of the open vault with identifier `id`.
pub open spec fn vault_index_of(place: Place, id: u64) -> int {
    choose|j: int| 0 <= j < place.vaults@.len() && (#[trigger] place.vaults@[j]).0 == id
}

/// The outbound messages an escrowed transfer asks the host to send: a
/// notification to the receiver carrying the escrow's coordinates and the
/// payload, with `gas_to_receiver` of compute budget attached, followed,
/// whenever that call has completed, by a resolution call back into the
/// ledger with the same vault identifier and the sender's identity.
pub struct VaultNotification {
    pub sender_id: String,
    pub receiver_id: String,
    pub amount: u128,
    pub vault_id: VaultId,
    pub payload: String,
    pub gas_to_receiver: u64,
}

pub proof fn lemma_vaults_total_remove(vaults: Seq<(u64, Vault)>, i: int)
    requires
        0 <= i < vaults.len(),
    ensures
        vaults_total(vaults.remove(i)) == vaults_total(vaults) - vaults[i].1.balance,
    decreases vaults.len(),
{
    let t = vaults.remove(i);
    if i == vaults.len() - 1 {
        assert(t =~= vaults.drop_last());
    } else {
        assert(t.drop_last() =~= vaults.drop_last().remove(i));
        assert(t.last() == vaults.last());
        lemma_vaults_total_remove(vaults.drop_last(), i);
    }
}

/// Sum of a sequence of withdrawal amounts.
pub open spec fn sum_withdrawals(withdrawals: Seq<int>) -> int
    decreases withdrawals.len(),
{
    if withdrawals.len() == 0 {
        0
    } else {
        sum_withdrawals(withdrawals.drop_last()) + withdrawals.last()
    }
}

/// What a vault opened with `initial` still holds after the withdrawals.
pub open spec fn vault_remaining(initial: int, withdrawals: Seq<int>) -> int
    decreases withdrawals.len(),
{
    if withdrawals.len() == 0 {
        initial
    } else {
        vault_remaining(initial, withdrawals.drop_last()) - withdrawals.last()
    }
}

/// Whether each withdrawal in turn asked for no more than the vault still
/// held, as [`Place::withdraw_from_vault`] enforces.
pub open spec fn withdrawals_admissible(initial: int, withdrawals: Seq<int>) -> bool
    decreases withdrawals.len(),
{
    if withdrawals.len() == 0 {
        true
    } else {
        &&& withdrawals_admissible(initial, withdrawals.drop_last())
        &&& 0 <= withdrawals.last() <= vault_remaining(initial, withdrawals.drop_last())
    }
}

/// Escrow conservation: for every sequence of zero or more admissible
/// partial withdrawals, the amount escrowed at initiation equals the sum
/// of all withdrawals plus what the vault still holds, which is exactly
/// what resolution refunds to the sender — and both parts are nonnegative.
pub proof fn lemma_escrow_conservation(initial: u128, withdrawals: Seq<int>)
    requires
        withdrawals_admissible(initial as int, withdrawals),
    ensures
        initial == sum_withdrawals(withdrawals) + vault_remaining(initial as int, withdrawals),
        vault_remaining(initial as int, withdrawals) >= 0,
        sum_withdrawals(withdrawals) >= 0,
    decreases withdrawals.len(),
{
    if withdrawals.len() > 0 {
        lemma_escrow_conservation(initial, withdrawals.drop_last());
    }
}

impl Place {
    /// Debits `amount` of the tradeable currency from the sender, after
    /// accrual, rejecting empty and self transfers. Atomic: on `Err` the
    /// state is untouched. Conservation is deliberately left open by this
    /// step alone: the debited amount is in the caller's hands and must be
    /// credited to a receiver or escrowed into a vault.
    pub(crate) fn withdraw_from_sender(
        &mut self,
        sender_id: &String,
        receiver_id: &String,
        amount: u128,
        now: u64,
    ) -> (r: Result<(), PlaceError>)
        requires
            old(self).wf(),
        ensures
            match r {
                Ok(()) => {
                    let d = old(self).account_index_of(sender_id@);
                    &&& amount > 0
                    &&& sender_id@ != receiver_id@
                    &&& old(self).has_account(sender_id@)
                    &&& !prepare_fails(*old(self), sender_id@, now)
                    &&& prepared_account(*old(self), sender_id@, now).balance(Berry::Banana)
                        >= amount
                    &&& final(self).basic_wf()
                    &&& final(self).num_accounts == old(self).num_accounts
                    &&& final(self).account_at(d) == debited(
                        prepared_account(*old(self), sender_id@, now),
                        Berry::Banana,
                        amount,
                    )
                    &&& forall|j: int|
                        0 <= j < old(self).num_accounts && j != d ==> slot_view(
                            old(self).accounts@[j],
                            old(self).legacy_accounts@[j],
                        ) == (#[trigger] slot_view(
                            final(self).accounts@[j],
                            final(self).legacy_accounts@[j],
                        ))
                    &&& forall|j: int|
                        0 <= j < old(self).num_accounts && j != d
                            ==> (#[trigger] final(self).account_at(j)) == old(self).account_at(j)
                    &&& crate::prepared_counters(*old(self), *final(self), sender_id@, now)
                    &&& final(self).board.grid() == old(self).board.grid()
                    &&& final(self).board.line_versions@ == old(self).board.line_versions@
                    &&& final(self).vaults@ == old(self).vaults@
                    &&& final(self).next_vault_id == old(self).next_vault_id
                    &&& final(self).initialization_timestamp == old(self).initialization_timestamp
                    &&& final(self).last_reward_timestamp == old(self).last_reward_timestamp
                    &&& final(self).burned_balances@ == old(self).burned_balances@
                },
                Err(e) => {
                    &&& *final(self) == *old(self)
                    &&& (e == PlaceError::ValidationFailure || e == PlaceError::InsufficientBalance
                        || e == PlaceError::ArithmeticUnderflow || e
                        == PlaceError::ArithmeticOverflow)
                    &&& (e == PlaceError::ValidationFailure <==> (amount == 0 || sender_id@
                        == receiver_id@))
                    &&& (e == PlaceError::InsufficientBalance <==> (amount > 0 && sender_id@
                        != receiver_id@ && !prepare_fails(*old(self), sender_id@, now)
                        && prepared_account(*old(self), sender_id@, now).balance(Berry::Banana)
                        < amount))
                    &&& (e == PlaceError::ArithmeticUnderflow <==> (amount > 0 && sender_id@
                        != receiver_id@ && old(self).has_account(sender_id@) && now < old(
                        self,
                    ).account_at(old(self).account_index_of(sender_id@)).claim_timestamp))
                    &&& (e == PlaceError::ArithmeticOverflow <==> (amount > 0 && sender_id@
                        != receiver_id@ && prepare_fails(*old(self), sender_id@, now) && !(old(
                        self,
                    ).has_account(sender_id@) && now < old(self).account_at(
                        old(self).account_index_of(sender_id@),
                    ).claim_timestamp)))
                },
            },
    {
        if amount == 0 {
            return Err(PlaceError::ValidationFailure);
        }
        if *sender_id == *receiver_id {
            return Err(PlaceError::ValidationFailure);
        }
        let (mut work, mut account) = match self.load_account(sender_id, now) {
            Ok(pair) => pair,
            Err(e) => {
                return Err(e);
            },
        };
        let balance = account.balances[1];
        if balance < amount {
            proof {
                if !self.has_account(sender_id@) {
                    assert(prepared_account(*self, sender_id@, now).balance(Berry::Banana) == 0);
                }
            }
            return Err(PlaceError::InsufficientBalance);
        }
        proof {
            if !self.has_account(sender_id@) {
                assert(prepared_account(*self, sender_id@, now).balance(Berry::Banana) == 0);
                assert(false);
            }
        }
        account.balances.set(1, balance - amount);
        proof {
            assert(account@ =~= debited(
                prepared_account(*self, sender_id@, now),
                Berry::Banana,
                amount,
            ));
        }
        let ghost before_save = work;
        work.save_account(account);
        proof {
            let d = old(self).account_index_of(sender_id@);
            assert forall|j: int| 0 <= j < old(self).num_accounts && j != d implies slot_view(
                old(self).accounts@[j],
                old(self).legacy_accounts@[j],
            ) == (#[trigger] slot_view(work.accounts@[j], work.legacy_accounts@[j])) by {
                assert(work.accounts@[j] == before_save.accounts@[j]);
                assert(work.legacy_accounts@[j] == before_save.legacy_accounts@[j]);
            }
            assert forall|j: int| 0 <= j < work.num_accounts && j != d implies (
            #[trigger] work.account_at(j)) == old(self).account_at(j) by {
                assert(slot_view(old(self).accounts@[j], old(self).legacy_accounts@[j])
                    == slot_view(work.accounts@[j], work.legacy_accounts@[j]));
            }
        }
        *self = work;
        Ok(())
    }

    /// Credits `amount` of the tradeable currency to a registered account,
    /// after accrual. Crediting zero is a no-op; crediting an unknown
    /// identity is rejected. Atomic: on `Err` the state is untouched.
    /// Like the debit step, this alone moves value into the account table
    /// without a matching counter move; the caller balances it.
    pub(crate) fn deposit_to_account(&mut self, account_id: &String, amount: u128, now: u64) -> (r:
        Result<(), PlaceError>)
        requires
            old(self).basic_wf(),
        ensures
            match r {
                Ok(()) => if amount == 0 {
                    *final(self) == *old(self)
                } else {
                    let d = old(self).account_index_of(account_id@);
                    &&& old(self).has_account(account_id@)
                    &&& deposit_fits(*old(self), account_id@, amount, now)
                    &&& touch_fits(old(self).account_at(d), now)
                    &&& touched(old(self).account_at(d), now).balance(Berry::Banana) + amount
                        <= u128::MAX
                    &&& old(self).farmed_balances@[berry_index(
                        old(self).account_at(d).farming_preference,
                    )] + farmed_amount(old(self).account_at(d), now) <= u128::MAX
                    &&& final(self).basic_wf()
                    &&& final(self).num_accounts == old(self).num_accounts
                    &&& final(self).account_at(d) == credited(
                        touched(old(self).account_at(d), now),
                        Berry::Banana,
                        amount,
                    )
                    &&& forall|j: int|
                        0 <= j < old(self).num_accounts && j != d ==> slot_view(
                            old(self).accounts@[j],
                            old(self).legacy_accounts@[j],
                        ) == (#[trigger] slot_view(
                            final(self).accounts@[j],
                            final(self).legacy_accounts@[j],
                        ))
                    &&& forall|j: int|
                        0 <= j < old(self).num_accounts && j != d
                            ==> (#[trigger] final(self).account_at(j)) == old(self).account_at(j)
                    &&& final(self).farmed_balances@ == old(self).farmed_balances@.update(
                        berry_index(old(self).account_at(d).farming_preference),
                        (old(self).farmed_balances@[berry_index(
                            old(self).account_at(d).farming_preference,
                        )] + farmed_amount(old(self).account_at(d), now)) as u128,
                    )
                    &&& final(self).bought_balances@ == old(self).bought_balances@
                    &&& final(self).burned_balances@ == old(self).burned_balances@
                    &&& final(self).board.grid() == old(self).board.grid()
                    &&& final(self).board.line_versions@ == old(self).board.line_versions@
                    &&& final(self).vaults@ == old(self).vaults@
                    &&& final(self).next_vault_id == old(self).next_vault_id
                    &&& final(self).initialization_timestamp == old(self).initialization_timestamp
                    &&& final(self).last_reward_timestamp == old(self).last_reward_timestamp
                },
                Err(e) => {
                    &&& *final(self) == *old(self)
                    &&& amount > 0
                    &&& (e == PlaceError::ValidationFailure || e == PlaceError::ArithmeticUnderflow
                        || e == PlaceError::ArithmeticOverflow)
                    &&& (e == PlaceError::ValidationFailure <==> !old(self).has_account(
                        account_id@,
                    ))
                    &&& (e == PlaceError::ArithmeticUnderflow <==> (old(self).has_account(
                        account_id@,
                    ) && now < old(self).account_at(
                        old(self).account_index_of(account_id@),
                    ).claim_timestamp))
                    &&& (e == PlaceError::ArithmeticOverflow <==> (old(self).has_account(
                        account_id@,
                    ) && now >= old(self).account_at(
                        old(self).account_index_of(account_id@),
                    ).claim_timestamp && !deposit_fits(*old(self), account_id@, amount, now)))
                },
            },
    {
        if amount == 0 {
            return Ok(());
        }
        let mut account = match self.get_internal_account_by_id(account_id) {
            None => {
                return Err(PlaceError::ValidationFailure);
            },
            Some(account) => account,
        };
        let (berry, farmed) = match account.touch(now) {
            Ok(pair) => pair,
            Err(e) => {
                return Err(e);
            },
        };
        let balance = account.balances[1];
        if balance > u128::MAX - amount {
            return Err(PlaceError::ArithmeticOverflow);
        }
        let fidx = berry.index();
        let counter = self.farmed_balances[fidx];
        if counter > u128::MAX - farmed {
            return Err(PlaceError::ArithmeticOverflow);
        }
        self.farmed_balances.set(fidx, counter + farmed);
        account.balances.set(1, balance + amount);
        proof {
            lemma_basic_wf_transfer(*old(self), *self);
            let d = old(self).account_index_of(account_id@);
            assert(account@ =~= credited(
                touched(old(self).account_at(d), now),
                Berry::Banana,
                amount,
            ));
        }
        let ghost before_save = *self;
        self.save_account(account);
        proof {
            let d = old(self).account_index_of(account_id@);
            assert forall|j: int| 0 <= j < old(self).num_accounts && j != d implies slot_view(
                old(self).accounts@[j],
                old(self).legacy_accounts@[j],
            ) == (#[trigger] slot_view(self.accounts@[j], self.legacy_accounts@[j])) by {
                assert(self.accounts@[j] == before_save.accounts@[j]);
                assert(self.legacy_accounts@[j] == before_save.legacy_accounts@[j]);
            }
            assert forall|j: int| 0 <= j < self.num_accounts && j != d implies (
            #[trigger] self.account_at(j)) == old(self).account_at(j) by {
                assert(slot_view(old(self).accounts@[j], old(self).legacy_accounts@[j])
                    == slot_view(self.accounts@[j], self.legacy_accounts@[j]));
            }
        }
        Ok(())
    }

    /// Transfers `amount` of the tradeable currency from the caller to
    /// `receiver_id`, synchronously, both accounts accrued first. Requires
    /// a non-zero attached value as an anti-automation guard; the value
    /// itself is not part of the transfer. Atomic.
    pub fn transfer_raw(
        &mut self,
        sender_id: &String,
        attached_deposit: u128,
        receiver_id: &String,
        amount: u128,
        now: u64,
    ) -> (r: Result<(), PlaceError>)
        requires
            old(self).wf(),
        ensures
            final(self).wf(),
            match r {
                Ok(()) => {
                    let s = old(self).account_index_of(sender_id@);
                    let t = old(self).account_index_of(receiver_id@);
                    &&& attached_deposit > 0
                    &&& amount > 0
                    &&& sender_id@ != receiver_id@
                    &&& old(self).has_account(sender_id@)
                    &&& old(self).has_account(receiver_id@)
                    &&& prepared_account(*old(self), sender_id@, now).balance(Berry::Banana)
                        >= amount
                    &&& final(self).num_accounts == old(self).num_accounts
                    &&& final(self).account_at(s) == debited(
                        prepared_account(*old(self), sender_id@, now),
                        Berry::Banana,
                        amount,
                    )
                    &&& final(self).account_at(t) == credited(
                        touched(old(self).account_at(t), now),
                        Berry::Banana,
                        amount,
                    )
                    &&& forall|j: int|
                        0 <= j < old(self).num_accounts && j != s && j != t
                            ==> (#[trigger] final(self).account_at(j)) == old(self).account_at(j)
                    &&& final(self).bought_balances@ == old(self).bought_balances@
                    &&& final(self).burned_balances@ == old(self).burned_balances@
                    &&& final(self).board.grid() == old(self).board.grid()
                    &&& final(self).board.line_versions@ == old(self).board.line_versions@
                    &&& final(self).vaults@ == old(self).vaults@
                    &&& final(self).next_vault_id == old(self).next_vault_id
                    &&& final(self).initialization_timestamp == old(self).initialization_timestamp
                    &&& final(self).last_reward_timestamp == old(self).last_reward_timestamp
                },
                Err(e) => {
                    &&& *final(self) == *old(self)
                    &&& (e == PlaceError::ValidationFailure || e == PlaceError::InsufficientBalance
                        || e == PlaceError::ArithmeticUnderflow || e
                        == PlaceError::ArithmeticOverflow)
                    &&& (e == PlaceError::ValidationFailure <==> (attached_deposit == 0 || ((amount
                        == 0 || sender_id@ == receiver_id@) || (amount > 0 && sender_id@
                        != receiver_id@ && !prepare_fails(*old(self), sender_id@, now)
                        && prepared_account(*old(self), sender_id@, now).balance(Berry::Banana)
                        >= amount && !old(self).has_account(receiver_id@)))))
                    &&& (e == PlaceError::InsufficientBalance <==> (attached_deposit > 0 && amount
                        > 0 && sender_id@ != receiver_id@ && !prepare_fails(
                        *old(self),
                        sender_id@,
                        now,
                    ) && prepared_account(*old(self), sender_id@, now).balance(Berry::Banana)
                        < amount))
                    &&& (e == PlaceError::ArithmeticUnderflow <==> (attached_deposit > 0 && amount
                        > 0 && sender_id@ != receiver_id@ && ((old(self).has_account(sender_id@)
                        && now < old(self).account_at(
                        old(self).account_index_of(sender_id@),
                    ).claim_timestamp) || (!prepare_fails(*old(self), sender_id@, now)
                        && prepared_account(*old(self), sender_id@, now).balance(Berry::Banana)
                        >= amount && old(self).has_account(receiver_id@) && now < old(
                        self,
                    ).account_at(old(self).account_index_of(receiver_id@)).claim_timestamp))))
                    &&& (e == PlaceError::ArithmeticOverflow <==> (attached_deposit > 0 && amount
                        > 0 && sender_id@ != receiver_id@ && ((prepare_fails(
                        *old(self),
                        sender_id@,
                        now,
                    ) && !(old(self).has_account(sender_id@) && now < old(self).account_at(
                        old(self).account_index_of(sender_id@),
                    ).claim_timestamp)) || (!prepare_fails(*old(self), sender_id@, now)
                        && prepared_account(*old(self), sender_id@, now).balance(Berry::Banana)
                        >= amount && old(self).has_account(receiver_id@) && now >= old(
                        self,
                    ).account_at(old(self).account_index_of(receiver_id@)).claim_timestamp
                        && !receive_fits(*old(self), sender_id@, receiver_id@, amount, now)))))
                },
            },
    {
        if attached_deposit == 0 {
            return Err(PlaceError::ValidationFailure);
        }
        let mut work = self.snapshot();
        proof {
            crate::lemma_same_state_view_wf(*self, work);
            crate::lemma_same_state_lookup(*self, work, sender_id@);
            crate::lemma_same_state_lookup(*self, work, receiver_id@);
            lemma_same_state_prepared(*self, work, sender_id@, now);
        }
        let ghost s0 = work;
        match work.withdraw_from_sender(sender_id, receiver_id, amount, now) {
            Ok(()) => {},
            Err(e) => {
                return Err(e);
            },
        }
        let ghost s1 = work;
        let ghost ds = s0.account_index_of(sender_id@);
        proof {
            assert(s0.has_account(sender_id@));
            assert(old(self).has_account(sender_id@));
            assert(!prepare_fails(s0, sender_id@, now));
            assert(!prepare_fails(*old(self), sender_id@, now));
            assert(prepared_account(*old(self), sender_id@, now) == prepared_account(
                s0,
                sender_id@,
                now,
            ));
            assert forall|j: int|
                0 <= j < s1.num_accounts implies (#[trigger] s1.account_at(j)).account_id
                == s0.account_at(j).account_id by {
                if j != ds {
                    assert(s1.account_at(j) == s0.account_at(j));
                }
            }
            lemma_lookup_ids(s0, s1, receiver_id@);
            assert(s0.account_at(ds) == old(self).account_at(ds));
            if old(self).has_account(receiver_id@) {
                let dr = old(self).account_index_of(receiver_id@);
                assert(s0.account_index_of(receiver_id@) == dr);
                assert(s1.account_index_of(receiver_id@) == dr);
                assert(s0.account_at(dr) == old(self).account_at(dr));
                assert(dr != ds) by {
                    assert(s0.account_at(dr).account_id == receiver_id@);
                    assert(s0.account_at(ds).account_id == sender_id@);
                }
                assert(s1.account_at(dr) == old(self).account_at(dr));
                let p_s = old(self).account_at(ds).farming_preference;
                let p_r = old(self).account_at(dr).farming_preference;
                assert(s1.farmed_balances@[berry_index(p_r)] == old(
                    self,
                ).farmed_balances@[berry_index(p_r)] + (if p_r == p_s {
                    crate::account::farmed_amount(old(self).account_at(ds), now)
                } else {
                    0int
                }));
                assert(deposit_fits(s1, receiver_id@, amount, now) == receive_fits(
                    *old(self),
                    sender_id@,
                    receiver_id@,
                    amount,
                    now,
                ));
            }
        }
        match work.deposit_to_account(receiver_id, amount, now) {
            Ok(()) => {},
            Err(e) => {
                return Err(e);
            },
        }
        let ghost s2 = work;
        proof {
            let dt = s0.account_index_of(receiver_id@);
            assert(dt != ds);
            assert(s1.account_at(dt) == s0.account_at(dt));
            assert(s2.account_at(ds) == s1.account_at(ds));
            assert forall|j: int| 0 <= j < s2.num_accounts && j != ds && j != dt implies (
            #[trigger] s2.account_at(j)) == s0.account_at(j) by {
                assert(s2.account_at(j) == s1.account_at(j));
                assert(s1.account_at(j) == s0.account_at(j));
            }
            // conservation across the two slot writes
            lemma_sum_balances_update(
                s0.accounts@,
                s0.legacy_accounts@,
                s1.accounts@,
                s1.legacy_accounts@,
                Berry::Avocado,
                s0.num_accounts as int,
                ds,
            );
            lemma_sum_balances_update(
                s0.accounts@,
                s0.legacy_accounts@,
                s1.accounts@,
                s1.legacy_accounts@,
                Berry::Banana,
                s0.num_accounts as int,
                ds,
            );
            lemma_sum_balances_update(
                s1.accounts@,
                s1.legacy_accounts@,
                s2.accounts@,
                s2.legacy_accounts@,
                Berry::Avocado,
                s1.num_accounts as int,
                dt,
            );
            lemma_sum_balances_update(
                s1.accounts@,
                s1.legacy_accounts@,
                s2.accounts@,
                s2.legacy_accounts@,
                Berry::Banana,
                s1.num_accounts as int,
                dt,
            );
            assert(s2.conserved_for(Berry::Avocado));
            assert(s2.conserved_for(Berry::Banana));
            assert(s2.board.grid() == s0.board.grid());
            assert forall|j: int| 0 <= j < s2.num_accounts implies (#[trigger] s2.account_at(
                j,
            )).num_pixels == crate::board::count_grid(s2.board.grid(), j) by {
                if j == ds {
                } else if j == dt {
                } else {
                    assert(s2.account_at(j) == s0.account_at(j));
                }
            }
            assert(s2.wf());
        }
        *self = work;
        Ok(())
    }

    /// Finds the position of the open vault with identifier `id`.
    fn find_vault(&self, id: u64) -> (r: Option<usize>)
        requires
            self.basic_wf(),
        ensures
            match r {
                Some(j) => {
                    &&& j < self.vaults@.len()
                    &&& self.vaults@[j as int].0 == id
                    &&& has_vault(*self, id)
                    &&& vault_index_of(*self, id) == j as int
                },
                None => !has_vault(*self, id),
            },
    {
        let mut j: usize = 0;
        while j < self.vaults.len()
            invariant
                self.basic_wf(),
                j <= self.vaults@.len(),
                forall|k: int| 0 <= k < j ==> (#[trigger] self.vaults@[k]).0 != id,
            decreases self.vaults@.len() - j,
        {
            if self.vaults[j].0 == id {
                proof {
                    assert(self.vaults@[j as int].0 == id);
                    assert(has_vault(*self, id));
                    let k = vault_index_of(*self, id);
                    assert(self.vaults@[k].0 == id);
                    assert(k == j as int);
                }
                return Some(j);
            }
            j = j + 1;
        }
        None
    }

    /// Initiates an escrowed transfer: debits the caller, opens a vault
    /// with a fresh identifier holding the amount for `receiver_id`, and
    /// returns the notification/resolution pair the host must schedule.
    /// Requires a non-zero attached value and enough remaining compute
    /// budget for the receiver's callback and the resolution step. Atomic.
    pub fn transfer_with_vault(
        &mut self,
        sender_id: &String,
        attached_deposit: u128,
        prepaid_gas: u64,
        receiver_id: &String,
        amount: u128,
        payload: String,
        now: u64,
    ) -> (r: Result<VaultNotification, PlaceError>)
        requires
            old(self).wf(),
        ensures
            final(self).wf(),
            match r {
                Ok(note) => {
                    let s = old(self).account_index_of(sender_id@);
                    &&& attached_deposit > 0
                    &&& prepaid_gas >= GAS_FOR_REMAINING_COMPUTE + GAS_FOR_CALLBACK
                        + MIN_GAS_FOR_RECEIVER
                    &&& old(self).next_vault_id.0 < u64::MAX
                    &&& amount > 0
                    &&& sender_id@ != receiver_id@
                    &&& old(self).has_account(sender_id@)
                    &&& prepared_account(*old(self), sender_id@, now).balance(Berry::Banana)
                        >= amount
                    &&& final(self).num_accounts == old(self).num_accounts
                    &&& final(self).account_at(s) == debited(
                        prepared_account(*old(self), sender_id@, now),
                        Berry::Banana,
                        amount,
                    )
                    &&& forall|j: int|
                        0 <= j < old(self).num_accounts && j != s
                            ==> (#[trigger] final(self).account_at(j)) == old(self).account_at(j)
                    &&& final(self).vaults@.len() == old(self).vaults@.len() + 1
                    &&& forall|i: int|
                        0 <= i < old(self).vaults@.len() ==> (#[trigger] final(self).vaults@[i])
                            == old(self).vaults@[i]
                    &&& final(self).vaults@.last().0 == old(self).next_vault_id.0
                    &&& final(self).vaults@.last().1@ == (VaultV {
                        receiver_id: receiver_id@,
                        balance: amount,
                    })
                    &&& final(self).next_vault_id.0 == old(self).next_vault_id.0 + 1
                    &&& crate::prepared_counters(*old(self), *final(self), sender_id@, now)
                    &&& final(self).bought_balances@ == old(self).bought_balances@
                    &&& final(self).burned_balances@ == old(self).burned_balances@
                    &&& final(self).board.grid() == old(self).board.grid()
                    &&& final(self).board.line_versions@ == old(self).board.line_versions@
                    &&& final(self).initialization_timestamp == old(self).initialization_timestamp
                    &&& final(self).last_reward_timestamp == old(self).last_reward_timestamp
                    &&& note.sender_id@ == sender_id@
                    &&& note.receiver_id@ == receiver_id@
                    &&& note.amount == amount
                    &&& note.vault_id.0 == old(self).next_vault_id.0
                    &&& note.payload@ == payload@
                    &&& note.gas_to_receiver == prepaid_gas - (GAS_FOR_REMAINING_COMPUTE
                        + GAS_FOR_CALLBACK)
                },
                Err(e) => {
                    &&& *final(self) == *old(self)
                    &&& (e == PlaceError::ValidationFailure
                        || e == PlaceError::InsufficientComputeBudget || e
                        == PlaceError::InsufficientBalance || e == PlaceError::ArithmeticUnderflow
                        || e == PlaceError::ArithmeticOverflow)
                    &&& (e == PlaceError::InsufficientComputeBudget <==> (attached_deposit > 0
                        && prepaid_gas < GAS_FOR_REMAINING_COMPUTE + GAS_FOR_CALLBACK
                        + MIN_GAS_FOR_RECEIVER))
                    &&& (e == PlaceError::ValidationFailure <==> (attached_deposit == 0 || (
                    prepaid_gas >= GAS_FOR_REMAINING_COMPUTE + GAS_FOR_CALLBACK
                        + MIN_GAS_FOR_RECEIVER && (amount == 0 || sender_id@ == receiver_id@))))
                    &&& (e == PlaceError::InsufficientBalance <==> (attached_deposit > 0
                        && prepaid_gas >= GAS_FOR_REMAINING_COMPUTE + GAS_FOR_CALLBACK
                        + MIN_GAS_FOR_RECEIVER && amount > 0 && sender_id@ != receiver_id@
                        && !prepare_fails(*old(self), sender_id@, now) && prepared_account(
                        *old(self),
                        sender_id@,
                        now,
                    ).balance(Berry::Banana) < amount))
                    &&& (e == PlaceError::ArithmeticUnderflow <==> (attached_deposit > 0
                        && prepaid_gas >= GAS_FOR_REMAINING_COMPUTE + GAS_FOR_CALLBACK
                        + MIN_GAS_FOR_RECEIVER && amount > 0 && sender_id@ != receiver_id@ && old(
                        self,
                    ).has_account(sender_id@) && now < old(self).account_at(
                        old(self).account_index_of(sender_id@),
                    ).claim_timestamp))
                    &&& (e == PlaceError::ArithmeticOverflow <==> (attached_deposit > 0
                        && prepaid_gas >= GAS_FOR_REMAINING_COMPUTE + GAS_FOR_CALLBACK
                        + MIN_GAS_FOR_RECEIVER && amount > 0 && sender_id@ != receiver_id@ && ((
                    prepare_fails(*old(self), sender_id@, now) && !(old(self).has_account(
                        sender_id@,
                    ) && now < old(self).account_at(
                        old(self).account_index_of(sender_id@),
                    ).claim_timestamp)) || (!prepare_fails(*old(self), sender_id@, now)
                        && prepared_account(*old(self), sender_id@, now).balance(Berry::Banana)
                        >= amount && old(self).next_vault_id.0 == u64::MAX))))
                },
            },
    {
        if attached_deposit == 0 {
            return Err(PlaceError::ValidationFailure);
        }
        let reserve: u64 = GAS_FOR_REMAINING_COMPUTE + GAS_FOR_CALLBACK;
        let gas_to_receiver: u64 = if prepaid_gas > reserve {
            prepaid_gas - reserve
        } else {
            0
        };
        if gas_to_receiver < MIN_GAS_FOR_RECEIVER {
            return Err(PlaceError::InsufficientComputeBudget);
        }
        let mut work = self.snapshot();
        proof {
            crate::lemma_same_state_view_wf(*self, work);
            crate::lemma_same_state_lookup(*self, work, sender_id@);
            lemma_same_state_prepared(*self, work, sender_id@, now);
            if self.has_account(sender_id@) {
                let d = self.account_index_of(sender_id@);
                assert(work.account_at(d) == self.account_at(d));
            }
        }
        let ghost s0 = work;
        match work.withdraw_from_sender(sender_id, receiver_id, amount, now) {
            Ok(()) => {},
            Err(e) => {
                return Err(e);
            },
        }
        if work.next_vault_id.0 == u64::MAX {
            proof {
                assert(prepare_fails(*old(self), sender_id@, now) || old(self).next_vault_id.0
                    == u64::MAX);
            }
            return Err(PlaceError::ArithmeticOverflow);
        }
        let ghost s1 = work;
        let vault_id = work.next_vault_id;
        work.next_vault_id = vault_id.next();
        work.vaults.push((vault_id.0, Vault { receiver_id: receiver_id.clone(), balance: amount }));
        proof {
            let ds = s0.account_index_of(sender_id@);
            assert(work.vaults@.drop_last() =~= s1.vaults@);
            assert(vaults_total(work.vaults@) == vaults_total(s1.vaults@) + amount);
            assert forall|i: int, j: int|
                0 <= i < work.vaults@.len() && 0 <= j < work.vaults@.len() && i != j implies (
            #[trigger] work.vaults@[i]).0 != (#[trigger] work.vaults@[j]).0 by {
                if j == work.vaults@.len() - 1 {
                    assert(s1.vaults@[i].0 < s1.next_vault_id.0);
                } else if i == work.vaults@.len() - 1 {
                    assert(s1.vaults@[j].0 < s1.next_vault_id.0);
                }
            }
            assert forall|i: int| 0 <= i < work.num_accounts implies (#[trigger] work.account_at(
                i,
            )) == s1.account_at(i) by {
                let x = s1.account_at(i);
            }
            assert(work.basic_wf());
            lemma_sum_balances_update(
                s0.accounts@,
                s0.legacy_accounts@,
                work.accounts@,
                work.legacy_accounts@,
                Berry::Avocado,
                s0.num_accounts as int,
                ds,
            );
            lemma_sum_balances_update(
                s0.accounts@,
                s0.legacy_accounts@,
                work.accounts@,
                work.legacy_accounts@,
                Berry::Banana,
                s0.num_accounts as int,
                ds,
            );
            assert(work.conserved_for(Berry::Avocado));
            assert(work.conserved_for(Berry::Banana));
            assert forall|j: int| 0 <= j < work.num_accounts implies (#[trigger] work.account_at(
                j,
            )).num_pixels == crate::board::count_grid(work.board.grid(), j) by {
                if j != ds {
                    assert(work.account_at(j) == s0.account_at(j));
                }
            }
            assert(work.wf());
        }
        *self = work;
        Ok(
            VaultNotification {
                sender_id: sender_id.clone(),
                receiver_id: receiver_id.clone(),
                amount,
                vault_id,
                payload,
                gas_to_receiver,
            },
        )
    }

    /// Lets the vault's registered receiver take `amount` out of the vault
    /// and credit it to `receiver_id`'s account. May be called any number
    /// of times while the vault is open, each time partially consuming it.
    /// Atomic.
    pub fn withdraw_from_vault(
        &mut self,
        predecessor_id: &String,
        vault_id: VaultId,
        receiver_id: &String,
        amount: u128,
        now: u64,
    ) -> (r: Result<(), PlaceError>)
        requires
            old(self).wf(),
        ensures
            final(self).wf(),
            match r {
                Ok(()) => {
                    let vi = vault_index_of(*old(self), vault_id.0);
                    let v = old(self).vaults@[vi].1;
                    &&& has_vault(*old(self), vault_id.0)
                    &&& predecessor_id@ == v@.receiver_id
                    &&& amount <= v.balance
                    &&& final(self).vaults@.len() == old(self).vaults@.len()
                    &&& forall|i: int|
                        0 <= i < old(self).vaults@.len() && i != vi
                            ==> (#[trigger] final(self).vaults@[i]) == old(self).vaults@[i]
                    &&& final(self).vaults@[vi].0 == vault_id.0
                    &&& final(self).vaults@[vi].1@ == (VaultV {
                        receiver_id: v@.receiver_id,
                        balance: (v.balance - amount) as u128,
                    })
                    &&& final(self).next_vault_id == old(self).next_vault_id
                    &&& final(self).num_accounts == old(self).num_accounts
                    &&& final(self).bought_balances@ == old(self).bought_balances@
                    &&& final(self).burned_balances@ == old(self).burned_balances@
                    &&& final(self).board.grid() == old(self).board.grid()
                    &&& final(self).board.line_versions@ == old(self).board.line_versions@
                    &&& final(self).initialization_timestamp == old(self).initialization_timestamp
                    &&& final(self).last_reward_timestamp == old(self).last_reward_timestamp
                    &&& if amount > 0 {
                        let dr = old(self).account_index_of(receiver_id@);
                        &&& old(self).has_account(receiver_id@)
                        &&& final(self).account_at(dr) == credited(
                            touched(old(self).account_at(dr), now),
                            Berry::Banana,
                            amount,
                        )
                        &&& forall|j: int|
                            0 <= j < old(self).num_accounts && j != dr
                                ==> (#[trigger] final(self).account_at(j)) == old(self).account_at(j)
                    } else {
                        &&& forall|j: int|
                            0 <= j < old(self).num_accounts
                                ==> (#[trigger] final(self).account_at(j)) == old(self).account_at(j)
                        &&& final(self).farmed_balances@ == old(self).farmed_balances@
                    }
                },
                Err(e) => {
                    let vi = vault_index_of(*old(self), vault_id.0);
                    let v = old(self).vaults@[vi].1;
                    &&& *final(self) == *old(self)
                    &&& (e == PlaceError::VaultNotFound || e == PlaceError::NotVaultOwner || e
                        == PlaceError::InsufficientVaultBalance || e
                        == PlaceError::ValidationFailure || e == PlaceError::ArithmeticUnderflow
                        || e == PlaceError::ArithmeticOverflow)
                    &&& (e == PlaceError::VaultNotFound <==> !has_vault(*old(self), vault_id.0))
                    &&& (e == PlaceError::NotVaultOwner <==> (has_vault(*old(self), vault_id.0)
                        && predecessor_id@ != v@.receiver_id))
                    &&& (e == PlaceError::InsufficientVaultBalance <==> (has_vault(
                        *old(self),
                        vault_id.0,
                    ) && predecessor_id@ == v@.receiver_id && v.balance < amount))
                    &&& (e == PlaceError::ValidationFailure <==> (has_vault(
                        *old(self),
                        vault_id.0,
                    ) && predecessor_id@ == v@.receiver_id && amount <= v.balance && amount > 0
                        && !old(self).has_account(receiver_id@)))
                    &&& (e == PlaceError::ArithmeticUnderflow <==> (has_vault(
                        *old(self),
                        vault_id.0,
                    ) && predecessor_id@ == v@.receiver_id && amount <= v.balance && amount > 0
                        && old(self).has_account(receiver_id@) && now < old(self).account_at(
                        old(self).account_index_of(receiver_id@),
                    ).claim_timestamp))
                    &&& (e == PlaceError::ArithmeticOverflow <==> (has_vault(
                        *old(self),
                        vault_id.0,
                    ) && predecessor_id@ == v@.receiver_id && amount <= v.balance && amount > 0
                        && old(self).has_account(receiver_id@) && now >= old(self).account_at(
                        old(self).account_index_of(receiver_id@),
                    ).claim_timestamp && !deposit_fits(*old(self), receiver_id@, amount, now)))
                },
            },
    {
        let mut work = self.snapshot();
        proof {
            crate::lemma_same_state_view_wf(*self, work);
            crate::lemma_same_state_lookup(*self, work, receiver_id@);
            if self.has_account(receiver_id@) {
                let dr = self.account_index_of(receiver_id@);
                assert(work.account_at(dr) == self.account_at(dr));
            }
        }
        let ghost s0 = work;
        let j = match work.find_vault(vault_id.0) {
            Some(j) => j,
            None => {
                proof {
                    assert(!has_vault(*old(self), vault_id.0)) by {
                        if has_vault(*old(self), vault_id.0) {
                            let k = vault_index_of(*old(self), vault_id.0);
                            assert(work.vaults@[k].0 == vault_id.0);
                            assert(has_vault(work, vault_id.0));
                        }
                    }
                }
                return Err(PlaceError::VaultNotFound);
            },
        };
        proof {
            assert(old(self).vaults@[j as int].0 == vault_id.0);
            assert(has_vault(*old(self), vault_id.0));
            let k = vault_index_of(*old(self), vault_id.0);
            assert(old(self).vaults@[k].0 == vault_id.0);
            assert(k == j as int);
        }
        if *predecessor_id != work.vaults[j].1.receiver_id {
            return Err(PlaceError::NotVaultOwner);
        }
        let balance = work.vaults[j].1.balance;
        if balance < amount {
            return Err(PlaceError::InsufficientVaultBalance);
        }
        let updated = Vault {
            receiver_id: work.vaults[j].1.receiver_id.clone(),
            balance: balance - amount,
        };
        work.vaults.set(j, (vault_id.0, updated));
        let ghost s1 = work;
        proof {
            assert forall|i: int, k: int|
                0 <= i < work.vaults@.len() && 0 <= k < work.vaults@.len() && i != k implies (
            #[trigger] work.vaults@[i]).0 != (#[trigger] work.vaults@[k]).0 by {
                assert(s0.vaults@[i].0 != s0.vaults@[k].0);
            }
            assert forall|i: int| 0 <= i < work.num_accounts implies (#[trigger] work.account_at(
                i,
            )) == s0.account_at(i) by {
                let x = s0.account_at(i);
            }
            assert(work.basic_wf());
            lemma_lookup_ids(s0, work, receiver_id@);
            if old(self).has_account(receiver_id@) {
                let dr = old(self).account_index_of(receiver_id@);
                assert(s0.account_index_of(receiver_id@) == dr);
                assert(work.account_index_of(receiver_id@) == dr);
                assert(s0.account_at(dr) == old(self).account_at(dr));
                assert(work.account_at(dr) == s0.account_at(dr));
                assert(work.farmed_balances@ == old(self).farmed_balances@);
                assert(deposit_fits(work, receiver_id@, amount, now) == deposit_fits(
                    *old(self),
                    receiver_id@,
                    amount,
                    now,
                ));
            }
            lemma_vaults_total_update(
                s0.vaults@,
                j as int,
                (vault_id.0, updated),
            );
            crate::lemma_same_state_lookup(*self, s0, receiver_id@);
        }
        match work.deposit_to_account(receiver_id, amount, now) {
            Ok(()) => {},
            Err(e) => {
                return Err(e);
            },
        }
        proof {
            let ghost s2 = work;
            if amount > 0 {
                let dr = s1.account_index_of(receiver_id@);
                lemma_sum_balances_update(
                    s1.accounts@,
                    s1.legacy_accounts@,
                    s2.accounts@,
                    s2.legacy_accounts@,
                    Berry::Avocado,
                    s1.num_accounts as int,
                    dr,
                );
                lemma_sum_balances_update(
                    s1.accounts@,
                    s1.legacy_accounts@,
                    s2.accounts@,
                    s2.legacy_accounts@,
                    Berry::Banana,
                    s1.num_accounts as int,
                    dr,
                );
                assert forall|k: int| 0 <= k < s2.num_accounts implies (#[trigger] s2.account_at(
                    k,
                )).num_pixels == crate::board::count_grid(s2.board.grid(), k) by {
                    if k != dr {
                        assert(s2.account_at(k) == s1.account_at(k));
                    }
                }
            }
            assert(work.conserved_for(Berry::Avocado));
            assert(work.conserved_for(Berry::Banana));
            assert(work.wf());
        }
        *self = work;
        Ok(())
    }

    /// Resolves a vault: removes it and refunds whatever it still holds to
    /// the original sender. Invoked by the ledger's own identity as the
    /// completion step of the notification; any other caller is rejected.
    /// A second resolution of the same vault fails with `VaultNotFound`,
    /// so nothing can be refunded twice. Returns the refunded amount.
    pub fn resolve_vault(
        &mut self,
        predecessor_id: &String,
        vault_id: VaultId,
        sender_id: &String,
        now: u64,
    ) -> (r: Result<u128, PlaceError>)
        requires
            old(self).wf(),
        ensures
            final(self).wf(),
            match r {
                Ok(refund) => {
                    let vi = vault_index_of(*old(self), vault_id.0);
                    &&& predecessor_id@ == old(self).account_at(0).account_id
                    &&& has_vault(*old(self), vault_id.0)
                    &&& refund == old(self).vaults@[vi].1.balance
                    &&& final(self).vaults@ == old(self).vaults@.remove(vi)
                    &&& final(self).next_vault_id == old(self).next_vault_id
                    &&& final(self).num_accounts == old(self).num_accounts
                    &&& final(self).bought_balances@ == old(self).bought_balances@
                    &&& final(self).burned_balances@ == old(self).burned_balances@
                    &&& final(self).board.grid() == old(self).board.grid()
                    &&& final(self).board.line_versions@ == old(self).board.line_versions@
                    &&& final(self).initialization_timestamp == old(self).initialization_timestamp
                    &&& final(self).last_reward_timestamp == old(self).last_reward_timestamp
                    &&& if refund > 0 {
                        let dr = old(self).account_index_of(sender_id@);
                        &&& old(self).has_account(sender_id@)
                        &&& final(self).account_at(dr) == credited(
                            touched(old(self).account_at(dr), now),
                            Berry::Banana,
                            refund,
                        )
                        &&& forall|j: int|
                            0 <= j < old(self).num_accounts && j != dr
                                ==> (#[trigger] final(self).account_at(j)) == old(self).account_at(j)
                    } else {
                        &&& forall|j: int|
                            0 <= j < old(self).num_accounts
                                ==> (#[trigger] final(self).account_at(j)) == old(self).account_at(j)
                        &&& final(self).farmed_balances@ == old(self).farmed_balances@
                    }
                },
                Err(e) => {
                    let vi = vault_index_of(*old(self), vault_id.0);
                    &&& *final(self) == *old(self)
                    &&& (e == PlaceError::ValidationFailure || e == PlaceError::VaultNotFound || e
                        == PlaceError::ArithmeticUnderflow || e == PlaceError::ArithmeticOverflow)
                    &&& (e == PlaceError::VaultNotFound <==> (predecessor_id@ == old(
                        self,
                    ).account_at(0).account_id && !has_vault(*old(self), vault_id.0)))
                    &&& (e == PlaceError::ValidationFailure <==> (predecessor_id@ != old(
                        self,
                    ).account_at(0).account_id || (has_vault(*old(self), vault_id.0) && old(
                        self,
                    ).vaults@[vi].1.balance > 0 && !old(self).has_account(sender_id@))))
                    &&& (e == PlaceError::ArithmeticUnderflow <==> (predecessor_id@ == old(
                        self,
                    ).account_at(0).account_id && has_vault(*old(self), vault_id.0) && old(
                        self,
                    ).vaults@[vi].1.balance > 0 && old(self).has_account(sender_id@) && now < old(
                        self,
                    ).account_at(old(self).account_index_of(sender_id@)).claim_timestamp))
                    &&& (e == PlaceError::ArithmeticOverflow <==> (predecessor_id@ == old(
                        self,
                    ).account_at(0).account_id && has_vault(*old(self), vault_id.0) && old(
                        self,
                    ).vaults@[vi].1.balance > 0 && old(self).has_account(sender_id@) && now >= old(
                        self,
                    ).account_at(old(self).account_index_of(sender_id@)).claim_timestamp
                        && !deposit_fits(
                        *old(self),
                        sender_id@,
                        old(self).vaults@[vi].1.balance,
                        now,
                    )))
                },
            },
    {
        let owner_id = match self.get_account_id_by_index(0) {
            Some(id) => id,
            None => {
                proof {
                    assert(false);
                }
                return Err(PlaceError::ValidationFailure);
            },
        };
        if *predecessor_id != owner_id {
            return Err(PlaceError::ValidationFailure);
        }
        let mut work = self.snapshot();
        proof {
            crate::lemma_same_state_view_wf(*self, work);
            crate::lemma_same_state_lookup(*self, work, sender_id@);
        }
        let ghost s0 = work;
        let j = match work.find_vault(vault_id.0) {
            Some(j) => j,
            None => {
                proof {
                    assert(!has_vault(*old(self), vault_id.0)) by {
                        if has_vault(*old(self), vault_id.0) {
                            let k = vault_index_of(*old(self), vault_id.0);
                            assert(work.vaults@[k].0 == vault_id.0);
                            assert(has_vault(work, vault_id.0));
                        }
                    }
                }
                return Err(PlaceError::VaultNotFound);
            },
        };
        proof {
            assert(old(self).vaults@[j as int].0 == vault_id.0);
            assert(has_vault(*old(self), vault_id.0));
            let k = vault_index_of(*old(self), vault_id.0);
            assert(old(self).vaults@[k].0 == vault_id.0);
            assert(k == j as int);
        }
        let balance = work.vaults[j].1.balance;
        work.vaults.remove(j);
        let ghost s1 = work;
        proof {
            assert forall|i: int, k: int|
                0 <= i < work.vaults@.len() && 0 <= k < work.vaults@.len() && i != k implies (
            #[trigger] work.vaults@[i]).0 != (#[trigger] work.vaults@[k]).0 by {
                let i0 = if i < j as int {
                    i
                } else {
                    i + 1
                };
                let k0 = if k < j as int {
                    k
                } else {
                    k + 1
                };
                assert(s0.vaults@[i0].0 != s0.vaults@[k0].0);
            }
            assert forall|i: int|
                0 <= i < work.vaults@.len() implies (#[trigger] work.vaults@[i]).0
                < work.next_vault_id.0 by {
                let i0 = if i < j as int {
                    i
                } else {
                    i + 1
                };
                assert(s0.vaults@[i0].0 < s0.next_vault_id.0);
            }
            assert forall|i: int| 0 <= i < work.num_accounts implies (#[trigger] work.account_at(
                i,
            )) == s0.account_at(i) by {
                let x = s0.account_at(i);
            }
            assert(work.basic_wf());
            lemma_lookup_ids(s0, work, sender_id@);
            crate::lemma_same_state_lookup(*self, s0, sender_id@);
            if old(self).has_account(sender_id@) {
                let dr = old(self).account_index_of(sender_id@);
                assert(s0.account_index_of(sender_id@) == dr);
                assert(work.account_index_of(sender_id@) == dr);
                assert(s0.account_at(dr) == old(self).account_at(dr));
                assert(work.account_at(dr) == s0.account_at(dr));
                assert(work.farmed_balances@ == old(self).farmed_balances@);
                assert(deposit_fits(work, sender_id@, balance, now) == deposit_fits(
                    *old(self),
                    sender_id@,
                    balance,
                    now,
                ));
            }
            lemma_vaults_total_remove(s0.vaults@, j as int);
        }
        match work.deposit_to_account(sender_id, balance, now) {
            Ok(()) => {},
            Err(e) => {
                return Err(e);
            },
        }
        proof {
            let ghost s2 = work;
            if balance > 0 {
                let dr = s1.account_index_of(sender_id@);
                lemma_sum_balances_update(
                    s1.accounts@,
                    s1.legacy_accounts@,
                    s2.accounts@,
                    s2.legacy_accounts@,
                    Berry::Avocado,
                    s1.num_accounts as int,
                    dr,
                );
                lemma_sum_balances_update(
                    s1.accounts@,
                    s1.legacy_accounts@,
                    s2.accounts@,
                    s2.legacy_accounts@,
                    Berry::Banana,
                    s1.num_accounts as int,
                    dr,
                );
                assert forall|k: int| 0 <= k < s2.num_accounts implies (#[trigger] s2.account_at(
                    k,
                )).num_pixels == crate::board::count_grid(s2.board.grid(), k) by {
                    if k != dr {
                        assert(s2.account_at(k) == s1.account_at(k));
                    }
                }
            }
            assert(work.conserved_for(Berry::Avocado));
            assert(work.conserved_for(Berry::Banana));
            assert(work.wf());
        }
        *self = work;
        Ok(balance)
    }

    /// Total ever farmed of the tradeable currency.
    pub fn get_total_supply(&self) -> (r: u128)
        requires
            self.farmed_balances@.len() == 2,
        ensures
            r == self.farmed_balances@[1],
    {
        self.farmed_balances[1]
    }

    /// The tradeable balance of `account_id` with accrual applied up to
    /// `now`; zero for an unregistered identity.
    pub fn get_balance(&self, account_id: &String, now: u64) -> (r: Result<u128, PlaceError>)
        requires
            self.basic_wf(),
        ensures
            match r {
                Ok(balance) => if self.has_account(account_id@) {
                    &&& touch_fits(self.account_at(self.account_index_of(account_id@)), now)
                    &&& balance == touched(
                        self.account_at(self.account_index_of(account_id@)),
                        now,
                    ).balance(Berry::Banana)
                } else {
                    balance == 0
                },
                Err(e) => {
                    &&& self.has_account(account_id@)
                    &&& !touch_fits(self.account_at(self.account_index_of(account_id@)), now)
                    &&& (e == PlaceError::ArithmeticUnderflow || e
                        == PlaceError::ArithmeticOverflow)
                },
            },
    {
        match self.get_internal_account_by_id(account_id) {
            None => Ok(0),
            Some(mut account) => match account.touch(now) {
                Ok(_) => Ok(account.balances[1]),
                Err(e) => Err(e),
            },
        }
    }
}

} // verus!
