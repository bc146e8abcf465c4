//! An on-chain style ledger backing a collaborative pixel-drawing canvas.
//!
//! Users spend a utility balance to paint pixels on a fixed board, accrue a
//! second, tradeable balance over time in proportion to the pixels they own,
//! and may move that tradeable balance to other accounts, either directly or
//! through a two-phase escrow protocol that tolerates a receiver never
//! acknowledging receipt.
//!
//! The crate is a pure accounting engine: the host passes in the current
//! time, the caller identity, the attached payment and the remaining compute
//! budget, and performs whatever asynchronous actions an operation returns.
//! Persistence, wire encoding and call scheduling live outside. Every
//! operation either succeeds with its documented effect or returns an error
//! leaving the state untouched.

use vstd::prelude::*;

pub mod account;
pub mod board;
pub mod errors;
pub mod fungible_token_metadata;
pub mod token;

use crate::account::{
    AccountIndex,
    berry_index, legacy_upgraded, Account, AccountV, AccountVersionAvocado, Berry,
    UpgradableAccount, DEFAULT_AVOCADO_BALANCE, DEFAULT_BANANA_BALANCE, ONE_NEAR, PIXEL_COST,
};
use crate::board::{
    count_grid, PixelBoard, PixelLine, SetPixelRequest, BOARD_HEIGHT, BOARD_WIDTH,
    TOTAL_NUM_PIXELS,
};
use crate::errors::PlaceError;
use crate::token::{vaults_total, Vault, VaultId};

verus! {

/// How often the reward distributor may emit a payment.
pub const REWARD_PERIOD_NANOSEC: u64 = 24 * 60 * 60 * 1_000_000_000;
/// The distributor never fires before this point in time.
pub const MIN_REWARD_TIMESTAMP_NANOSEC: u64 = 1_600_000_000_000_000_000;
/// Part of the held value reserved to pay for persistent storage.
pub const RESERVED_FOR_STORAGE: u128 = 50 * ONE_NEAR;
/// Extra held back above the storage reserve before anything is paid out.
pub const STORAGE_SAFETY_MARGIN: u128 = ONE_NEAR;
/// Fraction of the surplus paid out per period: one part in this many.
pub const REWARD_PORTION_DIVISOR: u128 = 2;

/// Whether the periodic reward emission is due at `now`.
pub open spec fn reward_is_due(last_reward_timestamp: u64, now: u64) -> bool {
    &&& last_reward_timestamp + REWARD_PERIOD_NANOSEC <= now
    &&& MIN_REWARD_TIMESTAMP_NANOSEC <= now
}

/// The reward owed for a held value of `contract_value`: the surplus above
/// the storage reserve and the safety margin, divided by the payout
/// portion; zero when there is no surplus.
pub open spec fn expected_reward_amount(contract_value: u128) -> int {
    if contract_value > RESERVED_FOR_STORAGE + STORAGE_SAFETY_MARGIN {
        (contract_value - RESERVED_FOR_STORAGE - STORAGE_SAFETY_MARGIN) as int
            / REWARD_PORTION_DIVISOR as int
    } else {
        0
    }
}

/// The aggregate root: the account ledger, the pixel board, the aggregate
/// currency counters, and the open-vault table, owned by value and passed
/// explicitly into every operation.
pub struct Place {
    /// Account records in the current format, by account index.
    pub accounts: Vec<Option<UpgradableAccount>>,
    /// Account records still in the deprecated format, by account index.
    /// A slot holds a record in exactly one of the two tables.
    pub legacy_accounts: Vec<Option<AccountVersionAvocado>>,
    /// Number of accounts ever registered; indices are never reused.
    pub num_accounts: u32,
    /// The pixel-ownership board.
    pub board: PixelBoard,
    /// Per berry kind: total ever minted, by purchase or by the default
    /// balance granted at account creation.
    pub bought_balances: Vec<u128>,
    /// Per berry kind: total ever destroyed by charges.
    pub burned_balances: Vec<u128>,
    /// Per berry kind: total ever accrued by farming.
    pub farmed_balances: Vec<u128>,
    /// The open vaults, keyed by vault identifier.
    pub vaults: Vec<(u64, Vault)>,
    /// The identifier the next escrow will receive.
    pub next_vault_id: VaultId,
    /// When this ledger was initialized.
    pub initialization_timestamp: u64,
    /// When the reward distributor last ran.
    pub last_reward_timestamp: u64,
}

/// The canonical reading of an account-table slot: the current-format
/// record if one exists, else the upgraded legacy record.
pub open spec fn slot_view(
    current: Option<UpgradableAccount>,
    legacy: Option<AccountVersionAvocado>,
) -> AccountV {
    match current {
        Some(upgradable) => upgradable@,
        None => match legacy {
            Some(record) => legacy_upgraded(record),
            None => vstd::pervasive::arbitrary(),
        },
    }
}

/// Sum over the first `n` account slots of the balance held in the slot of
/// `berry`.
pub open spec fn sum_balances(
    accounts: Seq<Option<UpgradableAccount>>,
    legacy: Seq<Option<AccountVersionAvocado>>,
    berry: Berry,
    n: int,
) -> int
    decreases n,
{
    if n <= 0 {
        0
    } else {
        sum_balances(accounts, legacy, berry, n - 1) + slot_view(
            accounts[n - 1],
            legacy[n - 1],
        ).balance(berry)
    }
}

/// Two pairs of tables whose first `n` slots read the same have equal sums.
pub proof fn lemma_sum_balances_agree(
    a1: Seq<Option<UpgradableAccount>>,
    l1: Seq<Option<AccountVersionAvocado>>,
    a2: Seq<Option<UpgradableAccount>>,
    l2: Seq<Option<AccountVersionAvocado>>,
    berry: Berry,
    n: int,
)
    requires
        forall|j: int|
            0 <= j < n ==> slot_view(a1[j], l1[j]) == (#[trigger] slot_view(a2[j], l2[j])),
    ensures
        sum_balances(a1, l1, berry, n) == sum_balances(a2, l2, berry, n),
    decreases n,
{
    if n > 0 {
        lemma_sum_balances_agree(a1, l1, a2, l2, berry, n - 1);
    }
}

/// Changing a single slot changes the sum by the difference at that slot.
pub proof fn lemma_sum_balances_update(
    a1: Seq<Option<UpgradableAccount>>,
    l1: Seq<Option<AccountVersionAvocado>>,
    a2: Seq<Option<UpgradableAccount>>,
    l2: Seq<Option<AccountVersionAvocado>>,
    berry: Berry,
    n: int,
    i: int,
)
    requires
        0 <= i < n,
        forall|j: int|
            0 <= j < n && j != i ==> slot_view(a1[j], l1[j]) == (#[trigger] slot_view(
                a2[j],
                l2[j],
            )),
    ensures
        sum_balances(a2, l2, berry, n) == sum_balances(a1, l1, berry, n) - slot_view(
            a1[i],
            l1[i],
        ).balance(berry) + slot_view(a2[i], l2[i]).balance(berry),
    decreases n,
{
    if i == n - 1 {
        lemma_sum_balances_agree(a1, l1, a2, l2, berry, n - 1);
    } else {
        lemma_sum_balances_update(a1, l1, a2, l2, berry, n - 1, i);
    }
}

/// Every slot sum is bounded below by zero.
pub proof fn lemma_sum_balances_nonneg(
    accounts: Seq<Option<UpgradableAccount>>,
    legacy: Seq<Option<AccountVersionAvocado>>,
    berry: Berry,
    n: int,
)
    ensures
        sum_balances(accounts, legacy, berry, n) >= 0,
    decreases n,
{
    if n > 0 {
        lemma_sum_balances_nonneg(accounts, legacy, berry, n - 1);
    }
}

/// The two states hold the same account tables.
pub open spec fn same_accounts(a: Place, b: Place) -> bool {
    &&& a.accounts@ == b.accounts@
    &&& a.legacy_accounts@ == b.legacy_accounts@
    &&& a.num_accounts == b.num_accounts
}

/// The two states hold the same board content and row versions.
pub open spec fn same_board(a: Place, b: Place) -> bool {
    &&& a.board.lines@ == b.board.lines@
    &&& a.board.line_versions@ == b.board.line_versions@
}

/// The two states hold the same aggregate currency counters.
pub open spec fn same_counters(a: Place, b: Place) -> bool {
    &&& a.bought_balances@ == b.bought_balances@
    &&& a.burned_balances@ == b.burned_balances@
    &&& a.farmed_balances@ == b.farmed_balances@
}

/// The two states hold the same vault table and vault counter.
pub open spec fn same_vaults(a: Place, b: Place) -> bool {
    &&& a.vaults@ == b.vaults@
    &&& a.next_vault_id == b.next_vault_id
}

/// The two states hold the same timestamps.
pub open spec fn same_times(a: Place, b: Place) -> bool {
    &&& a.initialization_timestamp == b.initialization_timestamp
    &&& a.last_reward_timestamp == b.last_reward_timestamp
}

impl Place {
    /// The canonical account record stored at index `i`.
    pub open spec fn account_at(self, i: int) -> AccountV {
        slot_view(self.accounts@[i], self.legacy_accounts@[i])
    }

    /// Whether some account carries the identity `id`.
    pub open spec fn has_account(self, id: Seq<char>) -> bool {
        exists|i: int|
            0 <= i < self.num_accounts && (#[trigger] self.account_at(i)).account_id == id
    }

    /// The index of the account carrying the identity `id`.
    pub open spec fn account_index_of(self, id: Seq<char>) -> int {
        choose|i: int|
            0 <= i < self.num_accounts && (#[trigger] self.account_at(i)).account_id == id
    }

    /// Structural well-formedness: table shapes, slot coherence, index and
    /// identity integrity, board shape, and vault key integrity.
    pub open spec fn basic_wf(self) -> bool {
        &&& self.accounts@.len() == self.num_accounts
        &&& self.legacy_accounts@.len() == self.num_accounts
        &&& forall|i: int|
            0 <= i < self.num_accounts ==> ((#[trigger] self.accounts@[i]) is Some
                <==> self.legacy_accounts@[i] is None)
        &&& forall|i: int| 0 <= i < self.num_accounts ==> (#[trigger] self.account_at(i)).wf()
        &&& forall|i: int|
            0 <= i < self.num_accounts ==> (#[trigger] self.account_at(i)).account_index == i
        &&& forall|i: int, j: int|
            0 <= i < self.num_accounts && 0 <= j < self.num_accounts && i != j ==> (
            #[trigger] self.account_at(i)).account_id != (#[trigger] self.account_at(j)).account_id
        &&& self.num_accounts >= 1
        &&& self.board.wf()
        &&& self.board.owners_below(self.num_accounts as int)
        &&& self.bought_balances@.len() == 2
        &&& self.burned_balances@.len() == 2
        &&& self.farmed_balances@.len() == 2
        &&& forall|i: int, j: int|
            0 <= i < self.vaults@.len() && 0 <= j < self.vaults@.len() && i != j ==> (
            #[trigger] self.vaults@[i]).0 != (#[trigger] self.vaults@[j]).0
        &&& forall|i: int|
            0 <= i < self.vaults@.len() ==> (#[trigger] self.vaults@[i]).0 < self.next_vault_id.0
    }

    /// Every account's pixel count equals the number of board cells whose
    /// owner index is that account's index.
    pub open spec fn pixels_consistent(self) -> bool {
        forall|i: int|
            0 <= i < self.num_accounts ==> (#[trigger] self.account_at(i)).num_pixels == count_grid(
                self.board.grid(),
                i,
            )
    }

    /// Conservation of one berry kind: everything ever minted plus
    /// everything ever farmed equals everything ever burned plus what the
    /// accounts hold, plus, for the tradeable kind, what the open vaults
    /// hold in transit.
    pub open spec fn conserved_for(self, berry: Berry) -> bool {
        self.bought_balances@[berry_index(berry)] + self.farmed_balances@[berry_index(berry)]
            == self.burned_balances@[berry_index(berry)] + sum_balances(
            self.accounts@,
            self.legacy_accounts@,
            berry,
            self.num_accounts as int,
        ) + (if berry == Berry::Banana {
            vaults_total(self.vaults@)
        } else {
            0int
        })
    }

    /// Full well-formedness: the invariant every operation preserves.
    pub open spec fn wf(self) -> bool {
        &&& self.basic_wf()
        &&& self.pixels_consistent()
        &&& self.conserved_for(Berry::Avocado)
        &&& self.conserved_for(Berry::Banana)
    }
}

/// The two states read the same everywhere: same canonical account
/// records, same board content and versions, same counters, vaults and
/// timestamps. This is what a working copy of the state satisfies.
pub open spec fn same_state_view(a: Place, b: Place) -> bool {
    &&& a.num_accounts == b.num_accounts
    &&& a.accounts@.len() == b.accounts@.len()
    &&& a.legacy_accounts@.len() == b.legacy_accounts@.len()
    &&& forall|i: int|
        0 <= i < a.accounts@.len() ==> ((#[trigger] a.accounts@[i]) is Some <==> b.accounts@[i]
            is Some)
    &&& forall|i: int|
        0 <= i < a.legacy_accounts@.len() ==> ((#[trigger] a.legacy_accounts@[i]) is Some
            <==> b.legacy_accounts@[i] is Some)
    &&& forall|i: int|
        0 <= i < a.accounts@.len() ==> (#[trigger] a.account_at(i)) == b.account_at(i)
    &&& a.board.grid() == b.board.grid()
    &&& a.board.line_versions@ == b.board.line_versions@
    &&& a.bought_balances@ == b.bought_balances@
    &&& a.burned_balances@ == b.burned_balances@
    &&& a.farmed_balances@ == b.farmed_balances@
    &&& a.vaults@ == b.vaults@
    &&& a.next_vault_id == b.next_vault_id
    &&& a.initialization_timestamp == b.initialization_timestamp
    &&& a.last_reward_timestamp == b.last_reward_timestamp
}

/// Full well-formedness carries over to a state that reads the same.
pub proof fn lemma_same_state_view_wf(a: Place, b: Place)
    requires
        a.wf(),
        same_state_view(a, b),
    ensures
        b.wf(),
{
    assert forall|i: int| 0 <= i < b.num_accounts implies (#[trigger] b.account_at(i))
        == a.account_at(i) by {}
    assert forall|i: int|
        0 <= i < b.num_accounts implies ((#[trigger] b.accounts@[i]) is Some <==> a.accounts@[i]
        is Some) && (b.legacy_accounts@[i] is Some <==> a.legacy_accounts@[i] is Some) by {}
    assert forall|j: int|
        0 <= j < b.num_accounts implies slot_view(a.accounts@[j], a.legacy_accounts@[j]) == (
    #[trigger] slot_view(b.accounts@[j], b.legacy_accounts@[j])) by {
        assert(a.account_at(j) == b.account_at(j));
    }
    lemma_sum_balances_agree(
        a.accounts@,
        a.legacy_accounts@,
        b.accounts@,
        b.legacy_accounts@,
        Berry::Avocado,
        b.num_accounts as int,
    );
    lemma_sum_balances_agree(
        a.accounts@,
        a.legacy_accounts@,
        b.accounts@,
        b.legacy_accounts@,
        Berry::Banana,
        b.num_accounts as int,
    );
    assert(b.basic_wf());
    assert(b.pixels_consistent());
}

impl Place {
    /// A working copy of the whole state, reading the same everywhere.
    /// Operations that must discard every partial effect on failure work
    /// on such a copy and install it only on success.
    fn snapshot(&self) -> (r: Place)
        requires
            self.basic_wf(),
        ensures
            same_state_view(*self, r),
    {
        let mut accounts: Vec<Option<UpgradableAccount>> = Vec::new();
        let mut i: usize = 0;
        while i < self.accounts.len()
            invariant
                i <= self.accounts@.len(),
                accounts@.len() == i,
                forall|j: int|
                    0 <= j < i ==> ((#[trigger] accounts@[j]) is Some <==> self.accounts@[j]
                        is Some),
                forall|j: int|
                    0 <= j < i ==> ((#[trigger] accounts@[j]) is Some ==> accounts@[j].unwrap()@
                        == self.accounts@[j].unwrap()@),
            decreases self.accounts@.len() - i,
        {
            let slot = self.accounts[i].clone();
            accounts.push(slot);
            i = i + 1;
        }
        let mut legacy_accounts: Vec<Option<AccountVersionAvocado>> = Vec::new();
        i = 0;
        while i < self.legacy_accounts.len()
            invariant
                i <= self.legacy_accounts@.len(),
                legacy_accounts@.len() == i,
                forall|j: int|
                    0 <= j < i ==> ((#[trigger] legacy_accounts@[j]) is Some
                        <==> self.legacy_accounts@[j] is Some),
                forall|j: int|
                    0 <= j < i ==> ((#[trigger] legacy_accounts@[j]) is Some ==> legacy_upgraded(
                        legacy_accounts@[j].unwrap(),
                    ) == legacy_upgraded(self.legacy_accounts@[j].unwrap())),
            decreases self.legacy_accounts@.len() - i,
        {
            let slot = self.legacy_accounts[i].clone();
            proof {
                if slot is Some {
                    assert(legacy_upgraded(slot.unwrap()) =~= legacy_upgraded(
                        self.legacy_accounts@[i as int].unwrap(),
                    ));
                }
            }
            legacy_accounts.push(slot);
            i = i + 1;
        }
        let mut lines: Vec<crate::board::PixelLine> = Vec::new();
        i = 0;
        while i < self.board.lines.len()
            invariant
                i <= self.board.lines@.len(),
                lines@.len() == i,
                forall|j: int| 0 <= j < i ==> (#[trigger] lines@[j])@ == self.board.lines@[j]@,
            decreases self.board.lines@.len() - i,
        {
            let row = self.board.lines[i].clone();
            lines.push(row);
            i = i + 1;
        }
        let board = PixelBoard { lines, line_versions: self.board.line_versions.clone() };
        let mut vaults: Vec<(u64, Vault)> = Vec::new();
        i = 0;
        while i < self.vaults.len()
            invariant
                i <= self.vaults@.len(),
                vaults@.len() == i,
                forall|j: int| 0 <= j < i ==> (#[trigger] vaults@[j]) == self.vaults@[j],
            decreases self.vaults@.len() - i,
        {
            let id = self.vaults[i].0;
            let vault = self.vaults[i].1.clone();
            vaults.push((id, vault));
            i = i + 1;
        }
        let r = Place {
            accounts,
            legacy_accounts,
            num_accounts: self.num_accounts,
            board,
            bought_balances: self.bought_balances.clone(),
            burned_balances: self.burned_balances.clone(),
            farmed_balances: self.farmed_balances.clone(),
            vaults,
            next_vault_id: self.next_vault_id,
            initialization_timestamp: self.initialization_timestamp,
            last_reward_timestamp: self.last_reward_timestamp,
        };
        proof {
            assert(r.board.grid() =~= self.board.grid());
            assert(r.board.line_versions@ =~= self.board.line_versions@);
            assert(r.bought_balances@ =~= self.bought_balances@);
            assert(r.burned_balances@ =~= self.burned_balances@);
            assert(r.farmed_balances@ =~= self.farmed_balances@);
            assert(r.vaults@ =~= self.vaults@);
            assert forall|j: int| 0 <= j < self.accounts@.len() implies (
            #[trigger] self.account_at(j)) == r.account_at(j) by {
                if self.accounts@[j] is Some {
                    assert(r.accounts@[j].unwrap()@ == self.accounts@[j].unwrap()@);
                } else {
                    assert(self.legacy_accounts@[j] is Some);
                    assert(legacy_upgraded(r.legacy_accounts@[j].unwrap()) == legacy_upgraded(
                        self.legacy_accounts@[j].unwrap(),
                    ));
                }
            }
        }
        r
    }
}

/// Structural well-formedness carries over to a state with the same
/// account tables, board and vaults, whatever its counters hold.
pub proof fn lemma_basic_wf_transfer(a: Place, b: Place)
    requires
        a.basic_wf(),
        same_accounts(b, a),
        same_board(b, a),
        same_vaults(b, a),
        b.bought_balances@.len() == 2,
        b.burned_balances@.len() == 2,
        b.farmed_balances@.len() == 2,
    ensures
        b.basic_wf(),
{
    assert forall|i: int| 0 <= i < b.num_accounts implies (#[trigger] b.account_at(i))
        == a.account_at(i) by {}
    assert(b.board.grid() == a.board.grid());
}

/// Pixel-count consistency carries over to a state with the same account
/// tables and board.
pub proof fn lemma_pixels_consistent_transfer(a: Place, b: Place)
    requires
        a.pixels_consistent(),
        same_accounts(b, a),
        same_board(b, a),
    ensures
        b.pixels_consistent(),
{
    assert(b.board.grid() == a.board.grid());
    assert forall|i: int| 0 <= i < b.num_accounts implies (#[trigger] b.account_at(i))
        == a.account_at(i) by {}
}

/// Conservation carries over to a state with the same account tables,
/// counters and vaults.
pub proof fn lemma_conserved_transfer(a: Place, b: Place, berry: Berry)
    requires
        a.conserved_for(berry),
        same_accounts(b, a),
        same_counters(b, a),
        same_vaults(b, a),
    ensures
        b.conserved_for(berry),
{
}

impl Place {
    /// Initializes the ledger: a fresh board whose every cell belongs to
    /// the bootstrap account registered for `account_id` (the ledger's own
    /// identity), which starts with the default balances and owns every
    /// cell.
    pub fn new(account_id: String, now: u64) -> (r: Place)
        ensures
            r.wf(),
            r.num_accounts == 1,
            r.account_at(0) == (AccountV {
                account_id: account_id@,
                account_index: 0u32,
                balances: seq![DEFAULT_AVOCADO_BALANCE, DEFAULT_BANANA_BALANCE],
                num_pixels: TOTAL_NUM_PIXELS,
                claim_timestamp: now,
                farming_preference: Berry::Avocado,
            }),
            forall|y: int| 0 <= y < BOARD_HEIGHT ==> r.board.line_versions@[y] == 0u32,
            forall|y: int, x: int|
                0 <= y < BOARD_HEIGHT && 0 <= x < BOARD_WIDTH ==> r.board.grid()[y][x] == (
                crate::board::Pixel { color: crate::board::DEFAULT_COLOR, owner_id: 0u32 }),
            r.bought_balances@ == seq![DEFAULT_AVOCADO_BALANCE, DEFAULT_BANANA_BALANCE],
            r.burned_balances@ == seq![0u128, 0u128],
            r.farmed_balances@ == seq![0u128, 0u128],
            r.vaults@.len() == 0,
            r.next_vault_id.0 == 0,
            r.initialization_timestamp == now,
            r.last_reward_timestamp == now,
    {
        let board = PixelBoard::new();
        let mut account = Account::new(account_id, 0, now);
        account.num_pixels = TOTAL_NUM_PIXELS;
        let mut accounts: Vec<Option<UpgradableAccount>> = Vec::new();
        accounts.push(Some(UpgradableAccount::BananaAccount(account)));
        let mut legacy_accounts: Vec<Option<AccountVersionAvocado>> = Vec::new();
        legacy_accounts.push(None);
        let mut bought_balances: Vec<u128> = Vec::new();
        bought_balances.push(DEFAULT_AVOCADO_BALANCE);
        bought_balances.push(DEFAULT_BANANA_BALANCE);
        let mut burned_balances: Vec<u128> = Vec::new();
        burned_balances.push(0);
        burned_balances.push(0);
        let mut farmed_balances: Vec<u128> = Vec::new();
        farmed_balances.push(0);
        farmed_balances.push(0);
        let r = Place {
            accounts,
            legacy_accounts,
            num_accounts: 1,
            board,
            bought_balances,
            burned_balances,
            farmed_balances,
            vaults: Vec::new(),
            next_vault_id: VaultId(0),
            initialization_timestamp: now,
            last_reward_timestamp: now,
        };
        proof {
            assert(r.bought_balances@ =~= seq![DEFAULT_AVOCADO_BALANCE, DEFAULT_BANANA_BALANCE]);
            assert(r.burned_balances@ =~= seq![0u128, 0u128]);
            assert(r.farmed_balances@ =~= seq![0u128, 0u128]);
            assert(r.account_at(0) =~= (AccountV {
                account_id: account@.account_id,
                account_index: 0u32,
                balances: seq![DEFAULT_AVOCADO_BALANCE, DEFAULT_BANANA_BALANCE],
                num_pixels: TOTAL_NUM_PIXELS,
                claim_timestamp: now,
                farming_preference: Berry::Avocado,
            }));
            assert(r.board.owners_below(1)) by {
                assert(forall|y: int, x: int|
                    0 <= y < BOARD_HEIGHT && 0 <= x < BOARD_WIDTH
                        ==> (#[trigger] r.board.grid()[y][x].owner_id as int) < 1);
            }
            assert(forall|y: int, x: int|
                0 <= y < r.board.grid().len() && 0 <= x < r.board.grid()[y].len() ==> (
                #[trigger] r.board.grid()[y][x].owner_id as int) == 0);
            crate::board::lemma_count_grid_all(r.board.grid(), 0);
            assert(count_grid(r.board.grid(), 0) == TOTAL_NUM_PIXELS);
            assert(r.pixels_consistent());
            assert(sum_balances(r.accounts@, r.legacy_accounts@, Berry::Avocado, 0) == 0);
            assert(sum_balances(r.accounts@, r.legacy_accounts@, Berry::Banana, 0) == 0);
            assert(r.account_at(0).balance(Berry::Avocado) == DEFAULT_AVOCADO_BALANCE);
            assert(r.account_at(0).balance(Berry::Banana) == 0);
            assert(sum_balances(r.accounts@, r.legacy_accounts@, Berry::Avocado, 1)
                == DEFAULT_AVOCADO_BALANCE);
            assert(sum_balances(r.accounts@, r.legacy_accounts@, Berry::Banana, 1) == 0);
            assert(vaults_total(r.vaults@) == 0);
            assert(r.conserved_for(Berry::Avocado));
            assert(r.conserved_for(Berry::Banana));
            assert(r.basic_wf());
        }
        r
    }

    /// The periodic reward check: when due, advances the distributor's
    /// clock and reports the payment the host must emit, if any. The held
    /// value of the ledger is supplied by the host. Never fails.
    pub fn maybe_distribute(&mut self, now: u64, contract_value: u128) -> (r: Option<u128>)
        ensures
            same_accounts(*final(self), *old(self)),
            same_board(*final(self), *old(self)),
            same_counters(*final(self), *old(self)),
            same_vaults(*final(self), *old(self)),
            final(self).initialization_timestamp == old(self).initialization_timestamp,
            if reward_is_due(old(self).last_reward_timestamp, now) {
                &&& final(self).last_reward_timestamp == now
                &&& r == (if expected_reward_amount(contract_value) > 0 {
                    Some(expected_reward_amount(contract_value) as u128)
                } else {
                    None::<u128>
                })
            } else {
                &&& *final(self) == *old(self)
                &&& r is None
            },
    {
        if self.last_reward_timestamp > u64::MAX - REWARD_PERIOD_NANOSEC {
            return None;
        }
        if now < self.last_reward_timestamp + REWARD_PERIOD_NANOSEC
            || now < MIN_REWARD_TIMESTAMP_NANOSEC {
            return None;
        }
        self.last_reward_timestamp = now;
        if contract_value > RESERVED_FOR_STORAGE + STORAGE_SAFETY_MARGIN {
            let reward = (contract_value - RESERVED_FOR_STORAGE - STORAGE_SAFETY_MARGIN)
                / REWARD_PORTION_DIVISOR;
            if reward > 0 {
                Some(reward)
            } else {
                None
            }
        } else {
            None
        }
    }

    /// The reward that a payout happening right now would carry.
    pub fn get_expected_reward(&self, contract_value: u128) -> (r: u128)
        ensures
            r == expected_reward_amount(contract_value),
    {
        if contract_value > RESERVED_FOR_STORAGE + STORAGE_SAFETY_MARGIN {
            (contract_value - RESERVED_FOR_STORAGE - STORAGE_SAFETY_MARGIN)
                / REWARD_PORTION_DIVISOR
        } else {
            0
        }
    }

    /// When the reward distributor may fire next; saturates at the largest
    /// representable time.
    pub fn get_next_reward_timestamp(&self) -> (r: u64)
        ensures
            r as int == if self.last_reward_timestamp + REWARD_PERIOD_NANOSEC > u64::MAX {
                u64::MAX as int
            } else if self.last_reward_timestamp + REWARD_PERIOD_NANOSEC
                > MIN_REWARD_TIMESTAMP_NANOSEC {
                self.last_reward_timestamp + REWARD_PERIOD_NANOSEC
            } else {
                MIN_REWARD_TIMESTAMP_NANOSEC as int
            },
    {
        if self.last_reward_timestamp > u64::MAX - REWARD_PERIOD_NANOSEC {
            u64::MAX
        } else if self.last_reward_timestamp + REWARD_PERIOD_NANOSEC
            > MIN_REWARD_TIMESTAMP_NANOSEC {
            self.last_reward_timestamp + REWARD_PERIOD_NANOSEC
        } else {
            MIN_REWARD_TIMESTAMP_NANOSEC
        }
    }

    /// How many accounts have ever been registered.
    pub fn get_num_accounts(&self) -> (r: u32)
        ensures
            r == self.num_accounts,
    {
        self.num_accounts
    }

    /// When this ledger was initialized.
    pub fn get_initialization_timestamp(&self) -> (r: u64)
        ensures
            r == self.initialization_timestamp,
    {
        self.initialization_timestamp
    }

    /// When the reward distributor last ran.
    pub fn get_last_reward_timestamp(&self) -> (r: u64)
        ensures
            r == self.last_reward_timestamp,
    {
        self.last_reward_timestamp
    }

    /// Registers the caller's account: load-or-create, accrue, persist,
    /// with no other effect. Safe to call again at any time.
    pub fn register_account(&mut self, account_id: &String, now: u64) -> (r: Result<
        (),
        PlaceError,
    >)
        requires
            old(self).wf(),
        ensures
            final(self).wf(),
            account_op_frame(*old(self), *final(self)),
            match r {
                Ok(()) => {
                    &&& !prepare_fails(*old(self), account_id@, now)
                    &&& final(self).num_accounts == (if old(self).has_account(account_id@) {
                        old(self).num_accounts as int
                    } else {
                        old(self).num_accounts + 1
                    })
                    &&& final(self).account_at(prepared_index(*old(self), account_id@))
                        == prepared_account(*old(self), account_id@, now)
                    &&& accounts_unchanged_except(
                        *old(self),
                        *final(self),
                        prepared_index(*old(self), account_id@),
                    )
                    &&& prepared_counters(*old(self), *final(self), account_id@, now)
                },
                Err(e) => {
                    &&& *final(self) == *old(self)
                    &&& prepare_fails(*old(self), account_id@, now)
                    &&& (e == PlaceError::ArithmeticUnderflow || e
                        == PlaceError::ArithmeticOverflow)
                },
            },
    {
        match self.load_account(account_id, now) {
            Err(e) => Err(e),
            Ok((mut work, account)) => {
                let ghost before_save = work;
                let ghost view = account@;
                work.save_account(account);
                proof {
                    let a = *old(self);
                    let d = prepared_index(a, account_id@);
                    let n = a.num_accounts as int;
                    assert forall|j: int| 0 <= j < n && j != d implies slot_view(
                        a.accounts@[j],
                        a.legacy_accounts@[j],
                    ) == (#[trigger] slot_view(work.accounts@[j], work.legacy_accounts@[j])) by {
                        assert(work.accounts@[j] == before_save.accounts@[j]);
                        assert(work.legacy_accounts@[j] == before_save.legacy_accounts@[j]);
                    }
                    if a.has_account(account_id@) {
                        let p = a.account_at(d).farming_preference;
                        let f = crate::account::farmed_amount(a.account_at(d), now);
                        assert(work.account_at(d) == crate::account::touched(
                            a.account_at(d),
                            now,
                        ));
                        lemma_wf_after_update(
                            a,
                            work,
                            d,
                            if p == Berry::Avocado {
                                f
                            } else {
                                0
                            },
                            if p == Berry::Banana {
                                f
                            } else {
                                0
                            },
                            0,
                        );
                    } else {
                        assert(work.account_at(n) == crate::account::fresh_account(
                            account_id@,
                            a.num_accounts,
                            now,
                        ));
                        lemma_wf_after_append(
                            a,
                            work,
                            DEFAULT_AVOCADO_BALANCE as int,
                            DEFAULT_BANANA_BALANCE as int,
                        );
                    }
                    assert forall|j: int| 0 <= j < work.num_accounts && j != d implies (
                    #[trigger] work.account_at(j)) == a.account_at(j) by {
                        assert(slot_view(a.accounts@[j], a.legacy_accounts@[j]) == slot_view(
                            work.accounts@[j],
                            work.legacy_accounts@[j],
                        ));
                    }
                }
                *self = work;
                Ok(())
            },
        }
    }

    /// Selects which berry kind the caller's account accrues from now on.
    /// Accrual up to `now` is applied first, under the old preference; a
    /// first-time caller's account is created on the way.
    pub fn select_farming_preference(&mut self, account_id: &String, berry: Berry, now: u64) -> (r:
        Result<(), PlaceError>)
        requires
            old(self).wf(),
        ensures
            final(self).wf(),
            account_op_frame(*old(self), *final(self)),
            match r {
                Ok(()) => {
                    &&& !prepare_fails(*old(self), account_id@, now)
                    &&& final(self).num_accounts == (if old(self).has_account(account_id@) {
                        old(self).num_accounts as int
                    } else {
                        old(self).num_accounts + 1
                    })
                    &&& final(self).account_at(prepared_index(*old(self), account_id@)) == (
                    AccountV {
                        farming_preference: berry,
                        ..prepared_account(*old(self), account_id@, now)
                    })
                    &&& accounts_unchanged_except(
                        *old(self),
                        *final(self),
                        prepared_index(*old(self), account_id@),
                    )
                    &&& prepared_counters(*old(self), *final(self), account_id@, now)
                },
                Err(e) => {
                    &&& *final(self) == *old(self)
                    &&& prepare_fails(*old(self), account_id@, now)
                    &&& (e == PlaceError::ArithmeticUnderflow || e
                        == PlaceError::ArithmeticOverflow)
                },
            },
    {
        match self.load_account(account_id, now) {
            Err(e) => Err(e),
            Ok((mut work, mut account)) => {
                account.farming_preference = berry;
                proof {
                    assert(account@.account_id == account_id@);
                    assert((account@.account_index as int) == prepared_index(
                        *old(self),
                        account_id@,
                    ));
                    if !old(self).has_account(account_id@) {
                        assert(!work.has_account(account_id@));
                    }
                }
                let ghost before_save = work;
                work.save_account(account);
                proof {
                    let a = *old(self);
                    let d = prepared_index(a, account_id@);
                    let n = a.num_accounts as int;
                    assert forall|j: int| 0 <= j < n && j != d implies slot_view(
                        a.accounts@[j],
                        a.legacy_accounts@[j],
                    ) == (#[trigger] slot_view(work.accounts@[j], work.legacy_accounts@[j])) by {
                        assert(work.accounts@[j] == before_save.accounts@[j]);
                        assert(work.legacy_accounts@[j] == before_save.legacy_accounts@[j]);
                    }
                    if a.has_account(account_id@) {
                        let p = a.account_at(d).farming_preference;
                        let f = crate::account::farmed_amount(a.account_at(d), now);
                        assert(work.account_at(d) == (AccountV {
                            farming_preference: berry,
                            ..crate::account::touched(a.account_at(d), now)
                        }));
                        lemma_wf_after_update(
                            a,
                            work,
                            d,
                            if p == Berry::Avocado {
                                f
                            } else {
                                0
                            },
                            if p == Berry::Banana {
                                f
                            } else {
                                0
                            },
                            0,
                        );
                    } else {
                        assert(work.account_at(n) == (AccountV {
                            farming_preference: berry,
                            ..crate::account::fresh_account(account_id@, a.num_accounts, now)
                        }));
                        lemma_wf_after_append(
                            a,
                            work,
                            DEFAULT_AVOCADO_BALANCE as int,
                            DEFAULT_BANANA_BALANCE as int,
                        );
                    }
                    assert forall|j: int| 0 <= j < work.num_accounts && j != d implies (
                    #[trigger] work.account_at(j)) == a.account_at(j) by {
                        assert(slot_view(a.accounts@[j], a.legacy_accounts@[j]) == slot_view(
                            work.accounts@[j],
                            work.legacy_accounts@[j],
                        ));
                    }
                }
                *self = work;
                Ok(())
            },
        }
    }

    /// Buys utility tokens with the attached payment at the fixed exchange
    /// rate and credits them to the caller's account, creating it first if
    /// need be. Returns the amount credited; a zero payment yields a zero
    /// credit.
    pub fn buy_tokens(&mut self, account_id: &String, attached_deposit: u128, now: u64) -> (r:
        Result<u128, PlaceError>)
        requires
            old(self).wf(),
        ensures
            final(self).wf(),
            account_op_frame(*old(self), *final(self)),
            match r {
                Ok(amount) => {
                    &&& amount == crate::account::tokens_for_deposit(attached_deposit)
                    &&& !prepare_fails(*old(self), account_id@, now)
                    &&& final(self).num_accounts == (if old(self).has_account(account_id@) {
                        old(self).num_accounts as int
                    } else {
                        old(self).num_accounts + 1
                    })
                    &&& final(self).account_at(prepared_index(*old(self), account_id@))
                        == crate::account::credited(
                        prepared_account(*old(self), account_id@, now),
                        Berry::Avocado,
                        amount,
                    )
                    &&& accounts_unchanged_except(
                        *old(self),
                        *final(self),
                        prepared_index(*old(self), account_id@),
                    )
                    &&& final(self).bought_balances@ == old(self).bought_balances@.update(
                        0,
                        (old(self).bought_balances@[0] + (if old(self).has_account(account_id@) {
                            0int
                        } else {
                            DEFAULT_AVOCADO_BALANCE as int
                        }) + amount) as u128,
                    )
                    &&& final(self).farmed_balances@ == (if old(self).has_account(account_id@) {
                        old(self).farmed_balances@.update(
                            berry_index(
                                old(self).account_at(
                                    old(self).account_index_of(account_id@),
                                ).farming_preference,
                            ),
                            (old(self).farmed_balances@[berry_index(
                                old(self).account_at(
                                    old(self).account_index_of(account_id@),
                                ).farming_preference,
                            )] + crate::account::farmed_amount(
                                old(self).account_at(old(self).account_index_of(account_id@)),
                                now,
                            )) as u128,
                        )
                    } else {
                        old(self).farmed_balances@
                    })
                },
                Err(e) => {
                    &&& *final(self) == *old(self)
                    &&& (e == PlaceError::ArithmeticUnderflow || e
                        == PlaceError::ArithmeticOverflow)
                    &&& (prepare_fails(*old(self), account_id@, now) || prepared_account(
                        *old(self),
                        account_id@,
                        now,
                    ).balance(Berry::Avocado) + crate::account::tokens_for_deposit(
                        attached_deposit,
                    ) > u128::MAX || old(self).bought_balances@[0] + (if old(self).has_account(
                        account_id@,
                    ) {
                        0int
                    } else {
                        DEFAULT_AVOCADO_BALANCE as int
                    }) + crate::account::tokens_for_deposit(attached_deposit) > u128::MAX)
                },
            },
    {
        match self.load_account(account_id, now) {
            Err(e) => Err(e),
            Ok((mut work, mut account)) => {
                let ghost loaded = work;
                let amount = match account.buy_tokens(attached_deposit) {
                    Ok(amount) => amount,
                    Err(e) => {
                        return Err(e);
                    },
                };
                let bought = work.bought_balances[0];
                if bought > u128::MAX - amount {
                    return Err(PlaceError::ArithmeticOverflow);
                }
                work.bought_balances.set(0, bought + amount);
                proof {
                    lemma_basic_wf_transfer(loaded, work);
                    assert(account@.account_id == account_id@);
                    assert((account@.account_index as int) == prepared_index(
                        *old(self),
                        account_id@,
                    ));
                    if !old(self).has_account(account_id@) {
                        assert(!work.has_account(account_id@)) by {
                            if work.has_account(account_id@) {
                                let k = choose|k: int|
                                    0 <= k < work.num_accounts && (#[trigger] work.account_at(
                                        k,
                                    )).account_id == account_id@;
                                assert(old(self).account_at(k).account_id == account_id@);
                            }
                        }
                    } else {
                        let d = old(self).account_index_of(account_id@);
                        assert(work.account_at(d) == old(self).account_at(d));
                    }
                }
                let ghost before_save = work;
                work.save_account(account);
                proof {
                    let a = *old(self);
                    let d = prepared_index(a, account_id@);
                    let n = a.num_accounts as int;
                    assert forall|j: int| 0 <= j < n && j != d implies slot_view(
                        a.accounts@[j],
                        a.legacy_accounts@[j],
                    ) == (#[trigger] slot_view(work.accounts@[j], work.legacy_accounts@[j])) by {
                        assert(work.accounts@[j] == before_save.accounts@[j]);
                        assert(work.legacy_accounts@[j] == before_save.legacy_accounts@[j]);
                    }
                    assert(work.bought_balances@ =~= a.bought_balances@.update(
                        0,
                        (a.bought_balances@[0] + (if a.has_account(account_id@) {
                            0int
                        } else {
                            DEFAULT_AVOCADO_BALANCE as int
                        }) + amount) as u128,
                    ));
                    if a.has_account(account_id@) {
                        let p = a.account_at(d).farming_preference;
                        let f = crate::account::farmed_amount(a.account_at(d), now);
                        assert(work.account_at(d) == crate::account::credited(
                            crate::account::touched(a.account_at(d), now),
                            Berry::Avocado,
                            amount,
                        ));
                        lemma_wf_after_update(
                            a,
                            work,
                            d,
                            (if p == Berry::Avocado {
                                f
                            } else {
                                0int
                            }) + amount,
                            if p == Berry::Banana {
                                f
                            } else {
                                0
                            },
                            0,
                        );
                    } else {
                        assert(work.account_at(n) == crate::account::credited(
                            crate::account::fresh_account(account_id@, a.num_accounts, now),
                            Berry::Avocado,
                            amount,
                        ));
                        lemma_wf_after_append(
                            a,
                            work,
                            DEFAULT_AVOCADO_BALANCE + amount,
                            DEFAULT_BANANA_BALANCE as int,
                        );
                    }
                    assert forall|j: int| 0 <= j < work.num_accounts && j != d implies (
                    #[trigger] work.account_at(j)) == a.account_at(j) by {
                        assert(slot_view(a.accounts@[j], a.legacy_accounts@[j]) == slot_view(
                            work.accounts@[j],
                            work.legacy_accounts@[j],
                        ));
                    }
                }
                *self = work;
                Ok(amount)
            },
        }
    }

    /// The farmed counter of `berry` as it stands once the drawer's own
    /// accrual has been counted, before any displaced owner accrues.
    pub open spec fn drawer_farm_base(self, id: Seq<char>, now: u64, berry: Berry) -> int {
        self.farmed_balances@[berry_index(berry)] + (if self.has_account(id) && self.account_at(
            self.account_index_of(id),
        ).farming_preference == berry {
            crate::account::farmed_amount(self.account_at(self.account_index_of(id)), now)
        } else {
            0int
        })
    }

    /// Total accrual of `berry` owed to the first `n` displaced owners of
    /// a draw: every account other than the drawer's slot `d` that loses
    /// at least one cell and farms `berry`.
    pub open spec fn displaced_farm_total(
        self,
        d: int,
        owner: AccountIndex,
        pixels: Seq<SetPixelRequest>,
        now: u64,
        berry: Berry,
        n: int,
    ) -> int
        decreases n,
    {
        if n <= 0 {
            0
        } else {
            self.displaced_farm_total(d, owner, pixels, now, berry, n - 1) + (if n - 1 != d
                && crate::board::delta_count(self.board.grid(), owner, pixels, n - 1) > 0
                && self.account_at(n - 1).farming_preference == berry {
                crate::account::farmed_amount(self.account_at(n - 1), now)
            } else {
                0int
            })
        }
    }

    /// Whether some displaced owner's own accrual cannot be applied at
    /// `now`: its clock lies in the future or its credited slot would
    /// overflow.
    pub open spec fn displaced_touch_fail(
        self,
        d: int,
        owner: AccountIndex,
        pixels: Seq<SetPixelRequest>,
        now: u64,
    ) -> bool {
        exists|o: int|
            0 <= o < self.num_accounts && o != d && crate::board::delta_count(
                self.board.grid(),
                owner,
                pixels,
                o,
            ) > 0 && !crate::account::touch_fits(#[trigger] self.account_at(o), now)
    }

    /// Whether a draw of `pixels` by `id` at `now` must fail on a machine
    /// limit: the drawer cannot be loaded or accrued, a touched row's
    /// version counter is spent, the burned counter cannot take the
    /// charge, a displaced owner cannot be accrued, or a farmed counter
    /// cannot take the total accrual. Checked only after the cheaper
    /// rejections: a request out of range or an insufficient balance
    /// preempts everything but the drawer's own load.
    pub open spec fn draw_arith_fails(
        self,
        id: Seq<char>,
        pixels: Seq<SetPixelRequest>,
        now: u64,
    ) -> bool {
        let d = prepared_index(self, id);
        let owner = prepared_account(self, id, now).account_index;
        let cost = pixels.len() * PIXEL_COST;
        ||| prepare_fails(self, id, now)
        ||| (!prepare_fails(self, id, now) && prepared_account(self, id, now).balance(
            Berry::Avocado,
        ) >= cost && (forall|i: int| 0 <= i < pixels.len() ==> (#[trigger] pixels[i]).valid()) && ({
            ||| exists|y: int|
                0 <= y < BOARD_HEIGHT && crate::board::row_touched(pixels, y) && (
                #[trigger] self.board.line_versions@[y]) == u32::MAX
            ||| self.burned_balances@[0] + cost > u128::MAX
            ||| self.displaced_touch_fail(d, owner, pixels, now)
            ||| self.drawer_farm_base(id, now, Berry::Avocado) + self.displaced_farm_total(
                d,
                owner,
                pixels,
                now,
                Berry::Avocado,
                self.num_accounts as int,
            ) > u128::MAX
            ||| self.drawer_farm_base(id, now, Berry::Banana) + self.displaced_farm_total(
                d,
                owner,
                pixels,
                now,
                Berry::Banana,
                self.num_accounts as int,
            ) > u128::MAX
        }))
    }
}

/// The displaced-accrual total only grows with its range while every
/// displaced owner in the added stretch has a current clock.
pub proof fn lemma_farm_total_mono(
    a: Place,
    d: int,
    owner: AccountIndex,
    pixels: Seq<SetPixelRequest>,
    now: u64,
    berry: Berry,
    n1: int,
    n2: int,
)
    requires
        0 <= n1 <= n2,
        forall|j: int|
            n1 <= j < n2 && j != d && crate::board::delta_count(a.board.grid(), owner, pixels, j)
                > 0 ==> now >= (#[trigger] a.account_at(j)).claim_timestamp,
    ensures
        a.displaced_farm_total(d, owner, pixels, now, berry, n1) <= a.displaced_farm_total(
            d,
            owner,
            pixels,
            now,
            berry,
            n2,
        ),
    decreases n2 - n1,
{
    if n1 < n2 {
        lemma_farm_total_mono(a, d, owner, pixels, now, berry, n1, n2 - 1);
        if n2 - 1 != d && crate::board::delta_count(a.board.grid(), owner, pixels, n2 - 1) > 0
            && a.account_at(n2 - 1).farming_preference == berry {
            crate::account::lemma_farmed_nonneg(a.account_at(n2 - 1), now);
        }
    }
}

impl Place {
    /// Paints a batch of pixels for the caller: the drawer's account is
    /// loaded (or created), accrued and charged one pixel cost per
    /// request; the board is painted; every displaced owner's account is
    /// accrued and its pixel count lowered by what was taken; finally the
    /// periodic reward check runs, returning a payment for the host to
    /// emit if one is due. An empty batch is a no-op. Any failure leaves
    /// the whole state untouched.
    #[verifier::rlimit(100)]
    #[verifier::loop_isolation(false)]
    pub fn draw(
        &mut self,
        account_id: &String,
        pixels: &Vec<SetPixelRequest>,
        now: u64,
        contract_value: u128,
    ) -> (r: Result<Option<u128>, PlaceError>)
        requires
            old(self).wf(),
            pixels@.len() <= u32::MAX,
        ensures
            final(self).wf(),
            match r {
                Ok(reward) => if pixels@.len() == 0 {
                    &&& *final(self) == *old(self)
                    &&& reward is None
                } else {
                    let a = *old(self);
                    let d = prepared_index(a, account_id@);
                    let owner = prepared_account(a, account_id@, now).account_index;
                    let cost = pixels@.len() * PIXEL_COST;
                    &&& !prepare_fails(a, account_id@, now)
                    &&& forall|i: int| 0 <= i < pixels@.len() ==> (#[trigger] pixels@[i]).valid()
                    &&& prepared_account(a, account_id@, now).balance(Berry::Avocado) >= cost
                    &&& final(self).num_accounts == (if a.has_account(account_id@) {
                        a.num_accounts as int
                    } else {
                        a.num_accounts + 1
                    })
                    &&& final(self).board.grid() == crate::board::grid_after(
                        a.board.grid(),
                        owner,
                        pixels@,
                    )
                    &&& forall|y: int|
                        0 <= y < BOARD_HEIGHT ==> final(self).board.line_versions@[y] == a.board.line_versions@[y]
                            + (if crate::board::row_touched(pixels@, y) {
                            1int
                        } else {
                            0int
                        })
                    &&& final(self).account_at(d) == (AccountV {
                        num_pixels: count_grid(final(self).board.grid(), d) as u32,
                        ..crate::account::debited(
                            prepared_account(a, account_id@, now),
                            Berry::Avocado,
                            cost as u128,
                        )
                    })
                    &&& forall|j: int|
                        0 <= j < final(self).num_accounts && j != d
                            ==> (#[trigger] final(self).account_at(j)) == (if crate::board::delta_count(
                            a.board.grid(),
                            owner,
                            pixels@,
                            j,
                        ) > 0 {
                            AccountV {
                                num_pixels: count_grid(final(self).board.grid(), j) as u32,
                                ..crate::account::touched(a.account_at(j), now)
                            }
                        } else {
                            a.account_at(j)
                        })
                    &&& final(self).burned_balances@ == a.burned_balances@.update(
                        0,
                        (a.burned_balances@[0] + cost) as u128,
                    )
                    &&& final(self).bought_balances@ == (if a.has_account(account_id@) {
                        a.bought_balances@
                    } else {
                        a.bought_balances@.update(
                            0,
                            (a.bought_balances@[0] + DEFAULT_AVOCADO_BALANCE) as u128,
                        )
                    })
                    &&& final(self).vaults@ == a.vaults@
                    &&& final(self).next_vault_id == a.next_vault_id
                    &&& final(self).initialization_timestamp == a.initialization_timestamp
                    &&& if reward_is_due(a.last_reward_timestamp, now) {
                        &&& final(self).last_reward_timestamp == now
                        &&& reward == (if expected_reward_amount(contract_value) > 0 {
                            Some(expected_reward_amount(contract_value) as u128)
                        } else {
                            None::<u128>
                        })
                    } else {
                        &&& final(self).last_reward_timestamp == a.last_reward_timestamp
                        &&& reward is None
                    }
                },
                Err(e) => {
                    let a = *old(self);
                    let cost = pixels@.len() * PIXEL_COST;
                    &&& *final(self) == *old(self)
                    &&& pixels@.len() > 0
                    &&& (e == PlaceError::ValidationFailure || e == PlaceError::InsufficientBalance
                        || e == PlaceError::ArithmeticUnderflow || e
                        == PlaceError::ArithmeticOverflow)
                    &&& ((e == PlaceError::ArithmeticUnderflow || e
                        == PlaceError::ArithmeticOverflow) <==> a.draw_arith_fails(
                        account_id@,
                        pixels@,
                        now,
                    ))
                    &&& (e == PlaceError::InsufficientBalance <==> (!prepare_fails(
                        a,
                        account_id@,
                        now,
                    ) && prepared_account(a, account_id@, now).balance(Berry::Avocado) < cost))
                    &&& (e == PlaceError::ValidationFailure <==> (!prepare_fails(
                        a,
                        account_id@,
                        now,
                    ) && prepared_account(a, account_id@, now).balance(Berry::Avocado) >= cost
                        && exists|i: int|
                        0 <= i < pixels@.len() && !(#[trigger] pixels@[i]).valid()))
                    &&& (e == PlaceError::ArithmeticUnderflow ==> ((a.has_account(account_id@)
                        && now < a.account_at(a.account_index_of(account_id@)).claim_timestamp)
                        || exists|j: int|
                        0 <= j < a.num_accounts && j != prepared_index(a, account_id@)
                            && crate::board::delta_count(
                            a.board.grid(),
                            prepared_account(a, account_id@, now).account_index,
                            pixels@,
                            j,
                        ) > 0 && now < (#[trigger] a.account_at(j)).claim_timestamp))
                },
            },
    {
        if pixels.len() == 0 {
            return Ok(None);
        }
        let ghost a = *old(self);
        let ghost d = prepared_index(a, account_id@);
        let (mut work, mut account) = match self.load_account(account_id, now) {
            Ok(pair) => pair,
            Err(e) => {
                return Err(e);
            },
        };
        let ghost loaded = work;
        let cost = match account.charge(Berry::Avocado, pixels.len() as u32) {
            Ok(cost) => cost,
            Err(e) => {
                return Err(e);
            },
        };
        proof {
            assert(account@.account_id == account_id@);
            assert((account@.account_index as int) == d);
            if !a.has_account(account_id@) {
                assert(!work.has_account(account_id@)) by {
                    if work.has_account(account_id@) {
                        let k = choose|k: int|
                            0 <= k < work.num_accounts && (#[trigger] work.account_at(
                                k,
                            )).account_id == account_id@;
                        assert(a.account_at(k).account_id == account_id@);
                    }
                }
            } else {
                assert(work.account_at(d) == a.account_at(d));
            }
        }
        let drawer_index = account.account_index;
        let ghost before_first_save = work;
        work.save_account(account.clone());
        let ghost n = work.num_accounts;
        let ghost g_a = a.board.grid();
        proof {
            assert(work.board.grid() == g_a);
            assert(work.board.owners_below(n as int));
        }
        let ghost before_set = work;
        let deltas = match work.board.set_pixels(drawer_index, pixels, work.num_accounts) {
            Ok(deltas) => deltas,
            Err(e) => {
                proof {
                    if exists|i: int| 0 <= i < pixels@.len() && !(#[trigger] pixels@[i]).valid() {
                        assert(!a.draw_arith_fails(account_id@, pixels@, now));
                    } else {
                        assert(e == PlaceError::ArithmeticOverflow);
                        assert(before_set.board.line_versions@ == a.board.line_versions@);
                        let yw = choose|y: int|
                            0 <= y < BOARD_HEIGHT && crate::board::row_touched(pixels@, y)
                                && before_set.board.line_versions@[y] == u32::MAX;
                        assert((#[trigger] a.board.line_versions@[yw]) == u32::MAX);
                        assert(a.draw_arith_fails(account_id@, pixels@, now));
                    }
                }
                return Err(e);
            },
        };
        proof {
            assert forall|i: int| 0 <= i < work.num_accounts implies (#[trigger] work.account_at(
                i,
            )) == before_set.account_at(i) by {
                assert(work.accounts@ == before_set.accounts@);
                assert(work.legacy_accounts@ == before_set.legacy_accounts@);
                let x = before_set.account_at(i);
            }
            assert forall|i: int, j: int|
                0 <= i < work.num_accounts && 0 <= j < work.num_accounts && i != j implies (
            #[trigger] work.account_at(i)).account_id != (#[trigger] work.account_at(
                j,
            )).account_id by {
                assert(work.account_at(i) == before_set.account_at(i));
                assert(work.account_at(j) == before_set.account_at(j));
            }
            assert(work.basic_wf());
        }
        let burned = work.burned_balances[0];
        if burned > u128::MAX - cost {
            proof {
                assert(work.burned_balances@[0] == a.burned_balances@[0]);
                assert(a.draw_arith_fails(account_id@, pixels@, now));
            }
            return Err(PlaceError::ArithmeticOverflow);
        }
        let ghost before_burn = work;
        work.burned_balances.set(0, burned + cost);
        proof {
            lemma_basic_wf_transfer(before_burn, work);
        }
        let ghost gnew = work.board.grid();
        let ghost vnew = work.board.line_versions@;
        let replaced = deltas[drawer_index as usize];
        proof {
            assert(replaced <= pixels@.len());
            assert(count_grid(gnew, d) == count_grid(g_a, d) - replaced + pixels@.len());
            if a.has_account(account_id@) {
                assert(a.account_at(d).num_pixels == count_grid(g_a, d));
            } else {
                crate::board::lemma_count_grid_zero(g_a, d, d);
                assert(count_grid(g_a, d) == 0);
            }
            assert(account@.num_pixels == count_grid(g_a, d));
            crate::board::lemma_count_grid_bounds(gnew, d);
            assert(count_grid(gnew, d) <= BOARD_HEIGHT * BOARD_WIDTH);
        }
        let added = pixels.len() - replaced;
        let new_count = account.num_pixels as usize + added;
        proof {
            assert(new_count == count_grid(gnew, d));
        }
        account.num_pixels = new_count as u32;
        let ghost before_second_save = work;
        work.save_account(account);
        let ghost drawer_final = AccountV {
            num_pixels: count_grid(gnew, d) as u32,
            ..crate::account::debited(
                prepared_account(a, account_id@, now),
                Berry::Avocado,
                cost,
            )
        };
        proof {
            assert(work.account_at(d) == drawer_final);
            assert forall|j: int| 0 <= j < n && j != d implies (#[trigger] work.account_at(j))
                == a.account_at(j) by {
                assert(work.accounts@[j] == before_second_save.accounts@[j]);
                assert(work.legacy_accounts@[j] == before_second_save.legacy_accounts@[j]);
                assert(before_second_save.accounts@[j] == before_first_save.accounts@[j]);
                assert(before_second_save.legacy_accounts@[j]
                    == before_first_save.legacy_accounts@[j]);
                assert(before_first_save.account_at(j) == a.account_at(j));
            }
            assert forall|j: int| 0 <= j < a.num_accounts && j != d implies slot_view(
                a.accounts@[j],
                a.legacy_accounts@[j],
            ) == (#[trigger] slot_view(work.accounts@[j], work.legacy_accounts@[j])) by {
                assert(work.account_at(j) == a.account_at(j));
            }
            // conservation at loop entry: the drawer's slot moved by the
            // accrual already counted, minus the charge now in the burned
            // counter, plus the default grant for a fresh account.
            if a.has_account(account_id@) {
                let p = a.account_at(d).farming_preference;
                let f = crate::account::farmed_amount(a.account_at(d), now);
                lemma_sum_balances_update(
                    a.accounts@,
                    a.legacy_accounts@,
                    work.accounts@,
                    work.legacy_accounts@,
                    Berry::Avocado,
                    a.num_accounts as int,
                    d,
                );
                lemma_sum_balances_update(
                    a.accounts@,
                    a.legacy_accounts@,
                    work.accounts@,
                    work.legacy_accounts@,
                    Berry::Banana,
                    a.num_accounts as int,
                    d,
                );
                assert(work.conserved_for(Berry::Avocado));
                assert(work.conserved_for(Berry::Banana));
            } else {
                lemma_sum_balances_agree(
                    a.accounts@,
                    a.legacy_accounts@,
                    work.accounts@,
                    work.legacy_accounts@,
                    Berry::Avocado,
                    a.num_accounts as int,
                );
                lemma_sum_balances_agree(
                    a.accounts@,
                    a.legacy_accounts@,
                    work.accounts@,
                    work.legacy_accounts@,
                    Berry::Banana,
                    a.num_accounts as int,
                );
                assert(work.conserved_for(Berry::Avocado));
                assert(work.conserved_for(Berry::Banana));
            }
        }
        proof {
            assert(a.displaced_farm_total(d, drawer_index, pixels@, now, Berry::Avocado, 0) == 0);
            assert(a.displaced_farm_total(d, drawer_index, pixels@, now, Berry::Banana, 0) == 0);
            assert(work.farmed_balances@[0] == a.drawer_farm_base(account_id@, now, Berry::Avocado));
            assert(work.farmed_balances@[1] == a.drawer_farm_base(account_id@, now, Berry::Banana));
        }
        let mut o: u32 = 0;
        while o < work.num_accounts
            invariant
                *self == *old(self),
                work.basic_wf(),
                o <= n,
                work.num_accounts == n,
                n == (if a.has_account(account_id@) {
                    a.num_accounts as int
                } else {
                    a.num_accounts + 1
                }),
                a.basic_wf(),
                a.pixels_consistent(),
                0 <= d < n,
                pixels@.len() <= u32::MAX,
                work.board.grid() == gnew,
                work.board.line_versions@ == vnew,
                crate::board::grid_shaped(gnew),
                deltas@.len() == n,
                forall|j: int|
                    0 <= j < n ==> deltas@[j] == crate::board::delta_count(
                        g_a,
                        drawer_index,
                        pixels@,
                        j,
                    ),
                forall|j: int|
                    0 <= j < n ==> count_grid(gnew, j) == count_grid(g_a, j) - deltas@[j] + (if j
                        == drawer_index as int {
                        pixels@.len() as int
                    } else {
                        0int
                    }),
                drawer_index as int == d,
                work.account_at(d) == drawer_final,
                forall|j: int|
                    0 <= j < o && j != d ==> (#[trigger] work.account_at(j)) == (if deltas@[j] > 0 {
                        AccountV {
                            num_pixels: count_grid(gnew, j) as u32,
                            ..crate::account::touched(a.account_at(j), now)
                        }
                    } else {
                        a.account_at(j)
                    }),
                forall|j: int|
                    o <= j < n && j != d ==> (#[trigger] work.account_at(j)) == a.account_at(j),
                work.conserved_for(Berry::Avocado),
                work.conserved_for(Berry::Banana),
                work.burned_balances@ == a.burned_balances@.update(
                    0,
                    (a.burned_balances@[0] + cost) as u128,
                ),
                work.bought_balances@ == (if a.has_account(account_id@) {
                    a.bought_balances@
                } else {
                    a.bought_balances@.update(
                        0,
                        (a.bought_balances@[0] + DEFAULT_AVOCADO_BALANCE) as u128,
                    )
                }),
                work.vaults@ == a.vaults@,
                work.next_vault_id == a.next_vault_id,
                work.initialization_timestamp == a.initialization_timestamp,
                work.last_reward_timestamp == a.last_reward_timestamp,
                work.farmed_balances@.len() == 2,
                work.farmed_balances@[0] == a.drawer_farm_base(account_id@, now, Berry::Avocado)
                    + a.displaced_farm_total(
                    d,
                    drawer_index,
                    pixels@,
                    now,
                    Berry::Avocado,
                    o as int,
                ),
                work.farmed_balances@[1] == a.drawer_farm_base(account_id@, now, Berry::Banana)
                    + a.displaced_farm_total(
                    d,
                    drawer_index,
                    pixels@,
                    now,
                    Berry::Banana,
                    o as int,
                ),
            decreases n - o,
        {
            let delta = deltas[o as usize];
            if o != drawer_index && delta > 0 {
                let mut other = match work.get_internal_account_by_index(o) {
                    Some(other) => other,
                    None => {
                        proof {
                            assert(false);
                        }
                        return Err(PlaceError::ValidationFailure);
                    },
                };
                proof {
                    assert(o < n);
                    assert(drawer_index as int == d);
                    if a.has_account(account_id@) {
                        assert(n == a.num_accounts);
                        assert((o as int) < a.num_accounts as int);
                    } else {
                        assert(d == a.num_accounts as int);
                        assert((o as int) != d);
                        assert((o as int) < a.num_accounts as int);
                    }
                    assert(other@ == a.account_at(o as int));
                }
                let ghost before_touch = work;
                match work.touch(&mut other, now) {
                    Ok(()) => {},
                    Err(e) => {
                        proof {
                            if e == PlaceError::ArithmeticUnderflow {
                                assert(now < a.account_at(o as int).claim_timestamp);
                                assert(prepared_account(a, account_id@, now).account_index
                                    == drawer_index);
                                assert((o as int) != prepared_index(a, account_id@));
                                assert(crate::board::delta_count(
                                    a.board.grid(),
                                    prepared_account(a, account_id@, now).account_index,
                                    pixels@,
                                    o as int,
                                ) > 0);
                            }
                            let oi = o as int;
                            let owner = prepared_account(a, account_id@, now).account_index;
                            assert(owner == drawer_index);
                            if e == PlaceError::ArithmeticUnderflow {
                                assert(!crate::account::touch_fits(a.account_at(oi), now));
                                assert(a.displaced_touch_fail(d, owner, pixels@, now));
                            } else {
                                assert(e == PlaceError::ArithmeticOverflow);
                                if !crate::account::touch_fits(a.account_at(oi), now) {
                                    assert(a.displaced_touch_fail(d, owner, pixels@, now));
                                } else if !a.displaced_touch_fail(d, owner, pixels@, now) {
                                    let p = a.account_at(oi).farming_preference;
                                    let f = crate::account::farmed_amount(a.account_at(oi), now);
                                    assert(work.farmed_balances@[berry_index(p)] + f > u128::MAX);
                                    assert(a.displaced_farm_total(
                                        d,
                                        drawer_index,
                                        pixels@,
                                        now,
                                        p,
                                        oi + 1,
                                    ) == a.displaced_farm_total(
                                        d,
                                        drawer_index,
                                        pixels@,
                                        now,
                                        p,
                                        oi,
                                    ) + f);
                                    assert forall|j: int|
                                        oi + 1 <= j < a.num_accounts as int && j != d
                                            && crate::board::delta_count(
                                            a.board.grid(),
                                            drawer_index,
                                            pixels@,
                                            j,
                                        ) > 0 implies now >= (#[trigger] a.account_at(
                                        j,
                                    )).claim_timestamp by {
                                        assert(crate::account::touch_fits(a.account_at(j), now));
                                    }
                                    lemma_farm_total_mono(
                                        a,
                                        d,
                                        drawer_index,
                                        pixels@,
                                        now,
                                        p,
                                        oi + 1,
                                        a.num_accounts as int,
                                    );
                                    if p == Berry::Avocado {
                                        assert(a.drawer_farm_base(account_id@, now, Berry::Avocado)
                                            + a.displaced_farm_total(
                                            d,
                                            drawer_index,
                                            pixels@,
                                            now,
                                            Berry::Avocado,
                                            a.num_accounts as int,
                                        ) > u128::MAX);
                                    } else {
                                        assert(a.drawer_farm_base(account_id@, now, Berry::Banana)
                                            + a.displaced_farm_total(
                                            d,
                                            drawer_index,
                                            pixels@,
                                            now,
                                            Berry::Banana,
                                            a.num_accounts as int,
                                        ) > u128::MAX);
                                    }
                                }
                            }
                            assert(a.draw_arith_fails(account_id@, pixels@, now));
                        }
                        return Err(e);
                    },
                }
                proof {
                    lemma_basic_wf_transfer(before_touch, work);
                    assert((o as int) < a.num_accounts as int);
                    assert(a.account_at(o as int).num_pixels == count_grid(g_a, o as int));
                    assert(count_grid(gnew, o as int) == count_grid(g_a, o as int) - delta);
                    crate::board::lemma_count_grid_bounds(gnew, o as int);
                    crate::board::lemma_count_grid_bounds(g_a, o as int);
                }
                let lowered = other.num_pixels - (delta as u32);
                other.num_pixels = lowered;
                proof {
                    assert(other@.account_id == work.account_at(o as int).account_id);
                }
                let ghost before_other_save = work;
                work.save_account(other);
                proof {
                    let oi = o as int;
                    assert(work.account_at(oi) == (AccountV {
                        num_pixels: count_grid(gnew, oi) as u32,
                        ..crate::account::touched(a.account_at(oi), now)
                    }));
                    assert forall|j: int| 0 <= j < n && j != oi implies (
                    #[trigger] work.account_at(j)) == before_touch.account_at(j) by {
                        assert(work.accounts@[j] == before_other_save.accounts@[j]);
                        assert(work.legacy_accounts@[j] == before_other_save.legacy_accounts@[j]);
                    }
                    let p = a.account_at(oi).farming_preference;
                    let f = crate::account::farmed_amount(a.account_at(oi), now);
                    lemma_sum_balances_update(
                        before_touch.accounts@,
                        before_touch.legacy_accounts@,
                        work.accounts@,
                        work.legacy_accounts@,
                        Berry::Avocado,
                        n as int,
                        oi,
                    );
                    lemma_sum_balances_update(
                        before_touch.accounts@,
                        before_touch.legacy_accounts@,
                        work.accounts@,
                        work.legacy_accounts@,
                        Berry::Banana,
                        n as int,
                        oi,
                    );
                    assert(work.conserved_for(Berry::Avocado));
                    assert(work.conserved_for(Berry::Banana));
                    assert(a.displaced_farm_total(d, drawer_index, pixels@, now, Berry::Avocado, oi + 1)
                        == a.displaced_farm_total(d, drawer_index, pixels@, now, Berry::Avocado, oi)
                        + (if p == Berry::Avocado {
                        f
                    } else {
                        0int
                    }));
                    assert(a.displaced_farm_total(d, drawer_index, pixels@, now, Berry::Banana, oi + 1)
                        == a.displaced_farm_total(d, drawer_index, pixels@, now, Berry::Banana, oi)
                        + (if p == Berry::Banana {
                        f
                    } else {
                        0int
                    }));
                    assert(work.farmed_balances@ == before_touch.farmed_balances@.update(
                        berry_index(p),
                        (before_touch.farmed_balances@[berry_index(p)] + f) as u128,
                    ));
                }
            } else {
                proof {
                    let oi = o as int;
                    assert(a.displaced_farm_total(d, drawer_index, pixels@, now, Berry::Avocado, oi + 1)
                        == a.displaced_farm_total(d, drawer_index, pixels@, now, Berry::Avocado, oi));
                    assert(a.displaced_farm_total(d, drawer_index, pixels@, now, Berry::Banana, oi + 1)
                        == a.displaced_farm_total(d, drawer_index, pixels@, now, Berry::Banana, oi));
                }
            }
            o = o + 1;
        }
        proof {
            assert(work.pixels_consistent()) by {
                assert forall|j: int| 0 <= j < n implies (#[trigger] work.account_at(
                    j,
                )).num_pixels == count_grid(gnew, j) by {
                    crate::board::lemma_count_grid_bounds(gnew, j);
                    if j == d {
                    } else if deltas@[j] > 0 {
                    } else {
                        assert(work.account_at(j) == a.account_at(j));
                        assert((j as int) < a.num_accounts as int);
                        assert(a.account_at(j).num_pixels == count_grid(g_a, j));
                    }
                }
            }
            assert(work.wf());
        }
        let ghost before_reward = work;
        let reward = work.maybe_distribute(now, contract_value);
        proof {
            lemma_basic_wf_transfer(before_reward, work);
            lemma_pixels_consistent_transfer(before_reward, work);
            lemma_conserved_transfer(before_reward, work, Berry::Avocado);
            lemma_conserved_transfer(before_reward, work, Berry::Banana);
            assert forall|j: int| 0 <= j < n && j != d implies (#[trigger] work.account_at(j))
                == before_reward.account_at(j) by {}
        }
        *self = work;
        Ok(reward)
    }

    /// Loads or creates the account of `account_id` on a working copy of
    /// the state, with accrual applied and the aggregate counters already
    /// adjusted; the record itself is not yet persisted there.
    fn load_account(&self, account_id: &String, now: u64) -> (r: Result<
        (Place, Account),
        PlaceError,
    >)
        requires
            self.wf(),
        ensures
            match r {
                Ok(pair) => {
                    &&& !prepare_fails(*self, account_id@, now)
                    &&& pair.0.basic_wf()
                    &&& pair.0.num_accounts == self.num_accounts
                    &&& forall|j: int|
                        0 <= j < self.num_accounts ==> slot_view(
                            self.accounts@[j],
                            self.legacy_accounts@[j],
                        ) == (#[trigger] slot_view(pair.0.accounts@[j], pair.0.legacy_accounts@[j]))
                    &&& forall|j: int|
                        0 <= j < self.num_accounts ==> (#[trigger] pair.0.account_at(j))
                            == self.account_at(j)
                    &&& pair.1@ == prepared_account(*self, account_id@, now)
                    &&& pair.1@.wf()
                    &&& pair.1@.account_id == account_id@
                    &&& pair.1@.account_index as int == prepared_index(*self, account_id@)
                    &&& (!self.has_account(account_id@) ==> !pair.0.has_account(account_id@)
                        && self.num_accounts < u32::MAX)
                    &&& pair.0.board.grid() == self.board.grid()
                    &&& pair.0.board.line_versions@ == self.board.line_versions@
                    &&& pair.0.vaults@ == self.vaults@
                    &&& pair.0.next_vault_id == self.next_vault_id
                    &&& pair.0.initialization_timestamp == self.initialization_timestamp
                    &&& pair.0.last_reward_timestamp == self.last_reward_timestamp
                    &&& pair.0.burned_balances@ == self.burned_balances@
                    &&& prepared_counters(*self, pair.0, account_id@, now)
                    &&& (self.has_account(account_id@) ==> self.farmed_balances@[berry_index(
                        self.account_at(self.account_index_of(account_id@)).farming_preference,
                    )] + crate::account::farmed_amount(
                        self.account_at(self.account_index_of(account_id@)),
                        now,
                    ) <= u128::MAX)
                    &&& (!self.has_account(account_id@) ==> self.bought_balances@[0]
                        + DEFAULT_AVOCADO_BALANCE <= u128::MAX)
                },
                Err(e) => {
                    &&& prepare_fails(*self, account_id@, now)
                    &&& (e == PlaceError::ArithmeticUnderflow || e
                        == PlaceError::ArithmeticOverflow)
                    &&& (e == PlaceError::ArithmeticUnderflow <==> (self.has_account(account_id@)
                        && now < self.account_at(
                            self.account_index_of(account_id@),
                        ).claim_timestamp))
                },
            },
    {
        let mut work = self.snapshot();
        let ghost snap = work;
        proof {
            lemma_same_state_view_wf(*self, work);
            lemma_same_state_lookup(*self, work, account_id@);
        }
        let account = match work.get_mut_account(account_id.clone(), now) {
            Ok(a) => a,
            Err(e) => {
                return Err(e);
            },
        };
        if account.account_index == u32::MAX {
            return Err(PlaceError::ArithmeticOverflow);
        }
        proof {
            assert forall|k: int| 0 <= k < work.num_accounts implies (#[trigger] work.account_at(
                k,
            )) == self.account_at(k) by {
                assert(work.account_at(k) == snap.account_at(k));
                assert(self.account_at(k) == snap.account_at(k));
            }
            assert forall|k: int| 0 <= k < self.num_accounts implies slot_view(
                self.accounts@[k],
                self.legacy_accounts@[k],
            ) == (#[trigger] slot_view(work.accounts@[k], work.legacy_accounts@[k])) by {
                assert(work.account_at(k) == self.account_at(k));
            }
            if !self.has_account(account_id@) {
                assert(!work.has_account(account_id@)) by {
                    if work.has_account(account_id@) {
                        let k = choose|k: int|
                            0 <= k < work.num_accounts && (#[trigger] work.account_at(
                                k,
                            )).account_id == account_id@;
                        assert(self.account_at(k).account_id == account_id@);
                    }
                }
            } else {
                let d = self.account_index_of(account_id@);
                assert(snap.account_at(d) == self.account_at(d));
                assert(snap.account_index_of(account_id@) == d);
            }
        }
        Ok((work, account))
    }
    /// Copies of the requested rows, by row index.
    pub fn get_lines(&self, lines: Vec<u32>) -> (r: Result<Vec<PixelLine>, PlaceError>)
        requires
            self.basic_wf(),
        ensures
            match r {
                Ok(rows) => {
                    &&& rows@.len() == lines@.len()
                    &&& forall|i: int|
                        0 <= i < lines@.len() ==> (#[trigger] lines@[i]) < BOARD_HEIGHT
                    &&& forall|i: int|
                        0 <= i < lines@.len() ==> (#[trigger] rows@[i])@ == self.board.grid()[lines@[i] as int]
                },
                Err(e) => {
                    &&& e == PlaceError::ValidationFailure
                    &&& exists|i: int| 0 <= i < lines@.len() && (#[trigger] lines@[i]) >= BOARD_HEIGHT
                },
            },
    {
        let mut i: usize = 0;
        while i < lines.len()
            invariant
                i <= lines@.len(),
                forall|j: int| 0 <= j < i ==> (#[trigger] lines@[j]) < BOARD_HEIGHT,
            decreases lines@.len() - i,
        {
            if lines[i] >= BOARD_HEIGHT {
                return Err(PlaceError::ValidationFailure);
            }
            i = i + 1;
        }
        let mut rows: Vec<PixelLine> = Vec::new();
        i = 0;
        while i < lines.len()
            invariant
                self.basic_wf(),
                i <= lines@.len(),
                rows@.len() == i,
                forall|j: int| 0 <= j < lines@.len() ==> (#[trigger] lines@[j]) < BOARD_HEIGHT,
                forall|j: int|
                    0 <= j < i ==> (#[trigger] rows@[j])@ == self.board.grid()[lines@[j] as int],
            decreases lines@.len() - i,
        {
            rows.push(self.board.get_line(lines[i]));
            i = i + 1;
        }
        Ok(rows)
    }

    /// Every row's current version counter.
    pub fn get_line_versions(&self) -> (r: Vec<u32>)
        ensures
            r@ == self.board.line_versions@,
    {
        let r = self.board.line_versions.clone();
        proof {
            assert(r@ =~= self.board.line_versions@);
        }
        r
    }
}

/// The index an operation for `account_id` works on: the existing index,
/// or the next free one for a first-time caller.
pub open spec fn prepared_index(place: Place, id: Seq<char>) -> int {
    if place.has_account(id) {
        place.account_index_of(id)
    } else {
        place.num_accounts as int
    }
}

/// The account an operation for `account_id` starts from, accrual already
/// applied: the stored record touched at `now`, or a fresh record.
pub open spec fn prepared_account(place: Place, id: Seq<char>, now: u64) -> AccountV {
    if place.has_account(id) {
        crate::account::touched(place.account_at(place.account_index_of(id)), now)
    } else {
        crate::account::fresh_account(id, place.num_accounts, now)
    }
}

/// Whether the load-or-create step for `account_id` must fail: accrual
/// underflows or overflows, the farmed counter overflows, the bought
/// counter cannot take the default grant, or the index space is spent.
pub open spec fn prepare_fails(place: Place, id: Seq<char>, now: u64) -> bool {
    if place.has_account(id) {
        let account = place.account_at(place.account_index_of(id));
        ||| !crate::account::touch_fits(account, now)
        ||| place.farmed_balances@[berry_index(account.farming_preference)]
            + crate::account::farmed_amount(account, now) > u128::MAX
    } else {
        ||| place.bought_balances@[0] + DEFAULT_AVOCADO_BALANCE > u128::MAX
        ||| place.num_accounts == u32::MAX
    }
}

/// What an account-level operation never touches: the board, the vaults,
/// the timestamps and the burned counters.
pub open spec fn account_op_frame(pre: Place, post: Place) -> bool {
    &&& post.board.grid() == pre.board.grid()
    &&& post.board.line_versions@ == pre.board.line_versions@
    &&& post.vaults@ == pre.vaults@
    &&& post.next_vault_id == pre.next_vault_id
    &&& post.initialization_timestamp == pre.initialization_timestamp
    &&& post.last_reward_timestamp == pre.last_reward_timestamp
    &&& post.burned_balances@ == pre.burned_balances@
}

/// All accounts except the one at `d` read unchanged.
pub open spec fn accounts_unchanged_except(pre: Place, post: Place, d: int) -> bool {
    forall|j: int|
        0 <= j < post.num_accounts && j != d ==> (#[trigger] post.account_at(j)) == pre.account_at(
            j,
        )
}

/// How the load-or-create step moves the aggregate counters: accrual for
/// an existing account lands in the farmed counter of its preference; a
/// fresh account's default grant lands in the bought counter.
pub open spec fn prepared_counters(pre: Place, post: Place, id: Seq<char>, now: u64) -> bool {
    if pre.has_account(id) {
        &&& post.bought_balances@ == pre.bought_balances@
        &&& post.farmed_balances@ == pre.farmed_balances@.update(
            berry_index(pre.account_at(pre.account_index_of(id)).farming_preference),
            (pre.farmed_balances@[berry_index(
                pre.account_at(pre.account_index_of(id)).farming_preference,
            )] + crate::account::farmed_amount(
                pre.account_at(pre.account_index_of(id)),
                now,
            )) as u128,
        )
    } else {
        &&& post.bought_balances@ == pre.bought_balances@.update(
            0,
            (pre.bought_balances@[0] + DEFAULT_AVOCADO_BALANCE) as u128,
        )
        &&& post.farmed_balances@ == pre.farmed_balances@
    }
}

/// Identity lookup reads the same in two states that read the same.
pub proof fn lemma_same_state_lookup(a: Place, b: Place, id: Seq<char>)
    requires
        a.basic_wf(),
        same_state_view(a, b),
    ensures
        b.has_account(id) == a.has_account(id),
        a.has_account(id) ==> b.account_index_of(id) == a.account_index_of(id),
{
    assert forall|i: int| 0 <= i < b.num_accounts implies (#[trigger] b.account_at(i))
        == a.account_at(i) by {}
    if a.has_account(id) {
        let i = a.account_index_of(id);
        assert(a.account_at(i).account_id == id);
        assert(b.account_at(i).account_id == id);
        assert(b.has_account(id));
        let k = b.account_index_of(id);
        assert(b.account_at(k).account_id == id);
        assert(a.account_at(k).account_id == id);
        assert(k == i);
    } else if b.has_account(id) {
        let k = b.account_index_of(id);
        assert(a.account_at(k).account_id == id);
    }
}

/// The load-or-create step reads the same in two states that read the
/// same.
pub proof fn lemma_same_state_prepared(a: Place, b: Place, id: Seq<char>, now: u64)
    requires
        a.basic_wf(),
        same_state_view(a, b),
    ensures
        prepare_fails(b, id, now) == prepare_fails(a, id, now),
        prepared_index(b, id) == prepared_index(a, id),
        prepared_account(b, id, now) == prepared_account(a, id, now),
{
    lemma_same_state_lookup(a, b, id);
    if a.has_account(id) {
        let i = a.account_index_of(id);
        assert(b.account_at(i) == a.account_at(i));
    }
}

/// Identity lookup reads the same in two states whose accounts carry the
/// same identities slot by slot, whatever else changed.
pub proof fn lemma_lookup_ids(a: Place, b: Place, id: Seq<char>)
    requires
        a.basic_wf(),
        b.num_accounts == a.num_accounts,
        forall|j: int|
            0 <= j < a.num_accounts ==> (#[trigger] b.account_at(j)).account_id == a.account_at(
                j,
            ).account_id,
    ensures
        b.has_account(id) == a.has_account(id),
        a.has_account(id) ==> b.account_index_of(id) == a.account_index_of(id),
{
    if a.has_account(id) {
        let i = a.account_index_of(id);
        assert(a.account_at(i).account_id == id);
        assert(b.account_at(i).account_id == id);
        assert(b.has_account(id));
        let k = b.account_index_of(id);
        assert(b.account_at(k).account_id == id);
        assert(a.account_at(k).account_id == id);
        assert(k == i);
    } else if b.has_account(id) {
        let k = b.account_index_of(id);
        assert(a.account_at(k).account_id == id);
    }
}

/// Full well-formedness is re-established after one existing account's
/// balances changed in step with the aggregate counters and the vault
/// total, everything else reading the same.
pub proof fn lemma_wf_after_update(a: Place, b: Place, i: int, da: int, db: int, dv: int)
    requires
        a.wf(),
        b.basic_wf(),
        0 <= i < a.num_accounts,
        b.num_accounts == a.num_accounts,
        forall|j: int|
            0 <= j < a.num_accounts && j != i ==> slot_view(a.accounts@[j], a.legacy_accounts@[j])
                == (#[trigger] slot_view(b.accounts@[j], b.legacy_accounts@[j])),
        b.account_at(i).num_pixels == a.account_at(i).num_pixels,
        b.account_at(i).balance(Berry::Avocado) == a.account_at(i).balance(Berry::Avocado) + da,
        b.account_at(i).balance(Berry::Banana) == a.account_at(i).balance(Berry::Banana) + db,
        b.board.grid() == a.board.grid(),
        b.bought_balances@[0] + b.farmed_balances@[0] - b.burned_balances@[0]
            == a.bought_balances@[0] + a.farmed_balances@[0] - a.burned_balances@[0] + da,
        b.bought_balances@[1] + b.farmed_balances@[1] - b.burned_balances@[1]
            == a.bought_balances@[1] + a.farmed_balances@[1] - a.burned_balances@[1] + db + dv,
        vaults_total(b.vaults@) == vaults_total(a.vaults@) + dv,
    ensures
        b.wf(),
{
    assert forall|j: int|
        0 <= j < b.num_accounts && j != i implies (#[trigger] b.account_at(j)) == a.account_at(
        j,
    ) by {
        assert(slot_view(a.accounts@[j], a.legacy_accounts@[j]) == slot_view(
            b.accounts@[j],
            b.legacy_accounts@[j],
        ));
    }
    assert(b.pixels_consistent());
    lemma_sum_balances_update(
        a.accounts@,
        a.legacy_accounts@,
        b.accounts@,
        b.legacy_accounts@,
        Berry::Avocado,
        a.num_accounts as int,
        i,
    );
    lemma_sum_balances_update(
        a.accounts@,
        a.legacy_accounts@,
        b.accounts@,
        b.legacy_accounts@,
        Berry::Banana,
        a.num_accounts as int,
        i,
    );
    assert(b.conserved_for(Berry::Avocado));
    assert(b.conserved_for(Berry::Banana));
}

/// Full well-formedness is re-established after a fresh account was
/// appended with its starting balances counted as minted, everything else
/// reading the same.
pub proof fn lemma_wf_after_append(a: Place, b: Place, av: int, bn: int)
    requires
        a.wf(),
        b.basic_wf(),
        b.num_accounts == a.num_accounts + 1,
        forall|j: int|
            0 <= j < a.num_accounts ==> slot_view(a.accounts@[j], a.legacy_accounts@[j]) == (
            #[trigger] slot_view(b.accounts@[j], b.legacy_accounts@[j])),
        b.account_at(a.num_accounts as int).num_pixels == 0,
        b.account_at(a.num_accounts as int).balance(Berry::Avocado) == av,
        b.account_at(a.num_accounts as int).balance(Berry::Banana) == bn,
        b.board.grid() == a.board.grid(),
        b.bought_balances@[0] + b.farmed_balances@[0] - b.burned_balances@[0]
            == a.bought_balances@[0] + a.farmed_balances@[0] - a.burned_balances@[0] + av,
        b.bought_balances@[1] + b.farmed_balances@[1] - b.burned_balances@[1]
            == a.bought_balances@[1] + a.farmed_balances@[1] - a.burned_balances@[1] + bn,
        vaults_total(b.vaults@) == vaults_total(a.vaults@),
    ensures
        b.wf(),
{
    let n = a.num_accounts as int;
    assert forall|j: int| 0 <= j < n implies (#[trigger] b.account_at(j)) == a.account_at(j) by {
        assert(slot_view(a.accounts@[j], a.legacy_accounts@[j]) == slot_view(
            b.accounts@[j],
            b.legacy_accounts@[j],
        ));
    }
    assert(a.board.owners_below(n));
    assert(b.board.owners_below(n));
    crate::board::lemma_count_grid_zero(b.board.grid(), n, n);
    assert(b.pixels_consistent());
    lemma_sum_balances_agree(
        a.accounts@,
        a.legacy_accounts@,
        b.accounts@,
        b.legacy_accounts@,
        Berry::Avocado,
        n,
    );
    lemma_sum_balances_agree(
        a.accounts@,
        a.legacy_accounts@,
        b.accounts@,
        b.legacy_accounts@,
        Berry::Banana,
        n,
    );
    assert(sum_balances(b.accounts@, b.legacy_accounts@, Berry::Avocado, n + 1) == sum_balances(
        a.accounts@,
        a.legacy_accounts@,
        Berry::Avocado,
        n,
    ) + av);
    assert(sum_balances(b.accounts@, b.legacy_accounts@, Berry::Banana, n + 1) == sum_balances(
        a.accounts@,
        a.legacy_accounts@,
        Berry::Banana,
        n,
    ) + bn);
    assert(b.conserved_for(Berry::Avocado));
    assert(b.conserved_for(Berry::Banana));
}

/// Every account's pixel count equals the count of board cells owned by
/// its index, at every observation point of a well-formed ledger.
pub proof fn lemma_pixel_count_invariant(place: Place, i: int)
    requires
        place.wf(),
        0 <= i < place.num_accounts,
    ensures
        place.account_at(i).num_pixels == count_grid(place.board.grid(), i),
{
}

/// Conservation audit of a well-formed ledger: for each berry kind,
/// `bought - burned + farmed` equals the sum of all account balances of
/// that kind, plus the outstanding vault balances for the tradeable kind.
pub proof fn lemma_conservation(place: Place, berry: Berry)
    requires
        place.wf(),
    ensures
        place.bought_balances@[berry_index(berry)] - place.burned_balances@[berry_index(berry)]
            + place.farmed_balances@[berry_index(berry)] == sum_balances(
            place.accounts@,
            place.legacy_accounts@,
            berry,
            place.num_accounts as int,
        ) + (if berry == Berry::Banana {
            vaults_total(place.vaults@)
        } else {
            0int
        }),
{
    if berry == Berry::Avocado {
        assert(place.conserved_for(Berry::Avocado));
    } else {
        assert(place.conserved_for(Berry::Banana));
    }
}

} // verus!
