//! The mathematical model of the vault registry and, for each operation, the
//! step it takes: the host calls it makes, its result, its events and the
//! registry afterwards.
use vstd::prelude::*;
use crate::types::{EXPIRY_WARNING_THRESHOLD, Address, BeneficiaryEntry, ContractError, Event, Failure, HostCall, IndexRecord, Outcome, ReleaseEvent, ReleaseStatus, VaultView, WasmHash};
use crate::release::{first_overflow, payout_calls, release_events, release_shares};
use crate::index::{kept_record, lemma_without_record_complete, lemma_without_record_distinct, lemma_without_record_sound, without_record};

verus! {

/// The registry as a mathematical value. Vault `id` (counting from 1) is
/// `vaults[id - 1]`.
pub struct ContractView {
    pub token: Option<Address>,
    pub admin: Option<Address>,
    pub paused: bool,
    pub pending_admin: Option<Address>,
    pub min_interval: Option<u64>,
    pub max_interval: Option<u64>,
    pub vaults: Seq<VaultView>,
    pub owner_index: Seq<IndexRecord>,
    pub beneficiary_index: Seq<IndexRecord>,
}

/// One step of the registry.
pub struct Step<T> {
    pub calls: Seq<HostCall>,
    pub result: Result<T, Failure>,
    pub events: Seq<Event>,
    pub post: ContractView,
}

impl<T> Outcome<T> {
    /// This outcome reports the host calls, result and events of `s`.
    pub open spec fn reports(&self, s: Step<T>) -> bool {
        &&& self.calls@ == s.calls
        &&& self.result == s.result
        &&& self.events@ == s.events
    }
}

/// A step that stops with a contract error after `calls`, changing nothing.
pub open spec fn rejected<T>(c: ContractView, calls: Seq<HostCall>, e: ContractError) -> Step<T> {
    Step { calls, result: Err(Failure::Contract(e)), events: Seq::empty(), post: c }
}

/// A step that stops on an arithmetic overflow after `calls`, changing nothing.
pub open spec fn overflowed<T>(c: ContractView, calls: Seq<HostCall>) -> Step<T> {
    Step { calls, result: Err(Failure::ArithmeticOverflow), events: Seq::empty(), post: c }
}

/// A step that succeeds.
pub open spec fn accepted<T>(calls: Seq<HostCall>, value: T, events: Seq<Event>, post: ContractView) -> Step<T> {
    Step { calls, result: Ok(value), events, post }
}

pub open spec fn auth(a: Address) -> HostCall {
    HostCall::RequireAuth(a)
}

/// Sum of the basis points of `entries`.
pub open spec fn bps_total(entries: Seq<BeneficiaryEntry>) -> int
    decreases entries.len(),
{
    if entries.len() == 0 {
        0
    } else {
        bps_total(entries.drop_last()) + entries.last().bps
    }
}

/// The moment a vault expires: its last check-in plus its interval.
pub open spec fn deadline(v: VaultView) -> int {
    v.last_check_in + v.check_in_interval
}

/// The deadline of `v` is a 64-bit timestamp.
pub open spec fn deadline_fits(v: VaultView) -> bool {
    deadline(v) <= u64::MAX
}

/// Well-formed vault: non-negative balance, positive interval, no balance once
/// released or cancelled, and a beneficiary split (if any) of exactly 100%.
pub open spec fn vault_wf(v: VaultView) -> bool {
    &&& v.balance >= 0
    &&& v.check_in_interval > 0
    &&& v.status != ReleaseStatus::Locked ==> v.balance == 0
    &&& v.beneficiaries.len() > 0 ==> bps_total(v.beneficiaries) == 10_000
}

/// The party a vault is indexed under: its owner, or its primary beneficiary.
pub open spec fn party(v: VaultView, by_owner: bool) -> Address {
    if by_owner { v.owner } else { v.beneficiary }
}

impl ContractView {
    pub open spec fn vault_count(self) -> nat {
        self.vaults.len()
    }

    pub open spec fn has_vault(self, id: u64) -> bool {
        1 <= id <= self.vaults.len()
    }

    pub open spec fn vault(self, id: u64) -> VaultView {
        self.vaults[id - 1]
    }

    pub open spec fn with_vault(self, id: u64, v: VaultView) -> ContractView {
        ContractView { vaults: self.vaults.update(id - 1, v), ..self }
    }

    /// `index` lists each vault exactly once, under its party (its owner
    /// when `by_owner`, else its primary beneficiary).
    pub open spec fn indexes_each_vault_once(self, index: Seq<IndexRecord>, by_owner: bool) -> bool {
        &&& forall|i: int| 0 <= i < index.len() ==> {
            let r = #[trigger] index[i];
            self.has_vault(r.vault_id) && party(self.vault(r.vault_id), by_owner) == r.address
        }
        &&& forall|i: int, j: int| 0 <= i < j < index.len() ==>
            #[trigger] index[i].vault_id != #[trigger] index[j].vault_id
        &&& forall|id: u64| #[trigger] self.has_vault(id) ==>
            exists|i: int| 0 <= i < index.len() && #[trigger] index[i].vault_id == id
    }

    /// The owner index lists each vault exactly once, under its owner.
    pub open spec fn owner_index_wf(self) -> bool {
        self.indexes_each_vault_once(self.owner_index, true)
    }

    /// The beneficiary index lists each vault exactly once, under its primary
    /// beneficiary.
    pub open spec fn beneficiary_index_wf(self) -> bool {
        self.indexes_each_vault_once(self.beneficiary_index, false)
    }

    pub open spec fn wf(self) -> bool {
        &&& forall|i: int| 0 <= i < self.vaults.len() ==> vault_wf(#[trigger] self.vaults[i])
        &&& self.owner_index_wf()
        &&& self.beneficiary_index_wf()
    }
}

// ---- configuration ----

/// Registry before `initialize`.
pub open spec fn empty_registry() -> ContractView {
    ContractView {
        token: None,
        admin: None,
        paused: false,
        pending_admin: None,
        min_interval: None,
        max_interval: None,
        vaults: Seq::empty(),
        owner_index: Seq::empty(),
        beneficiary_index: Seq::empty(),
    }
}

pub open spec fn initialize_step(c: ContractView, token: Address, admin: Address) -> Step<()> {
    if c.token is Some || c.admin is Some {
        rejected(c, Seq::empty(), ContractError::AlreadyInitialized)
    } else {
        accepted(
            seq![auth(admin)],
            (),
            Seq::empty(),
            ContractView { token: Some(token), admin: Some(admin), paused: false, ..c },
        )
    }
}

/// An admin-only step: without an admin it fails with `VaultNotFound`;
/// otherwise the admin must authorize, then `then` applies.
pub open spec fn admin_step(c: ContractView, then: Step<()>) -> Step<()> {
    match c.admin {
        None => rejected(c, Seq::empty(), ContractError::VaultNotFound),
        Some(admin) => Step { calls: seq![auth(admin)] + then.calls, ..then },
    }
}

pub open spec fn set_paused_step(c: ContractView, paused: bool) -> Step<()> {
    admin_step(c, accepted(Seq::empty(), (), Seq::empty(), ContractView { paused, ..c }))
}

pub open spec fn set_min_interval_step(c: ContractView, min_interval: u64) -> Step<()> {
    admin_step(
        c,
        if min_interval == 0 {
            rejected(c, Seq::empty(), ContractError::InvalidInterval)
        } else {
            accepted(Seq::empty(), (), Seq::empty(), ContractView { min_interval: Some(min_interval), ..c })
        },
    )
}

pub open spec fn set_max_interval_step(c: ContractView, max_interval: u64) -> Step<()> {
    admin_step(
        c,
        if max_interval == 0 {
            rejected(c, Seq::empty(), ContractError::InvalidInterval)
        } else {
            accepted(Seq::empty(), (), Seq::empty(), ContractView { max_interval: Some(max_interval), ..c })
        },
    )
}

pub open spec fn upgrade_step(c: ContractView, wasm_hash: WasmHash) -> Step<()> {
    admin_step(c, accepted(seq![HostCall::UpdateContractWasm(wasm_hash)], (), Seq::empty(), c))
}

pub open spec fn propose_admin_step(c: ContractView, new_admin: Address) -> Step<()> {
    admin_step(c, accepted(Seq::empty(), (), Seq::empty(), ContractView { pending_admin: Some(new_admin), ..c }))
}

pub open spec fn accept_admin_step(c: ContractView) -> Step<()> {
    match c.pending_admin {
        None => rejected(c, Seq::empty(), ContractError::NoPendingAdmin),
        Some(p) => accepted(
            seq![auth(p)],
            (),
            Seq::empty(),
            ContractView { admin: Some(p), pending_admin: None, ..c },
        ),
    }
}


// ---- vault lifecycle ----

/// The bound that `interval` breaks, if any: below the minimum, then above the maximum.
pub open spec fn interval_bounds_error(c: ContractView, interval: u64) -> Option<ContractError> {
    if c.min_interval is Some && interval < c.min_interval->0 {
        Some(ContractError::IntervalTooLow)
    } else if c.max_interval is Some && interval > c.max_interval->0 {
        Some(ContractError::IntervalTooHigh)
    } else {
        None
    }
}

/// A fresh vault: empty, locked, checked in at `now`, with no split and no metadata.
pub open spec fn fresh_vault(owner: Address, beneficiary: Address, interval: u64, now: u64) -> VaultView {
    VaultView {
        owner,
        beneficiary,
        balance: 0,
        check_in_interval: interval,
        last_check_in: now,
        status: ReleaseStatus::Locked,
        beneficiaries: Seq::empty(),
        metadata: Seq::empty(),
    }
}

pub open spec fn create_vault_step(c: ContractView, owner: Address, beneficiary: Address, interval: u64, now: u64) -> Step<u64> {
    let calls = seq![auth(owner)];
    if interval == 0 {
        rejected(c, calls, ContractError::InvalidInterval)
    } else if interval_bounds_error(c, interval) is Some {
        rejected(c, calls, interval_bounds_error(c, interval)->0)
    } else if owner == beneficiary {
        rejected(c, calls, ContractError::InvalidBeneficiary)
    } else if c.vaults.len() + 1 > u64::MAX {
        overflowed(c, calls)
    } else {
        let id = (c.vaults.len() + 1) as u64;
        accepted(
            calls,
            id,
            seq![Event::VaultCreated { vault_id: id, owner, beneficiary, check_in_interval: interval }],
            ContractView {
                vaults: c.vaults.push(fresh_vault(owner, beneficiary, interval, now)),
                owner_index: c.owner_index.push(IndexRecord { address: owner, vault_id: id }),
                beneficiary_index: c.beneficiary_index.push(IndexRecord { address: beneficiary, vault_id: id }),
                ..c
            },
        )
    }
}

pub open spec fn check_in_step(c: ContractView, id: u64, caller: Address, now: u64) -> Step<()> {
    let calls = seq![auth(caller)];
    if c.paused {
        rejected(c, Seq::empty(), ContractError::Paused)
    } else if !c.has_vault(id) {
        rejected(c, calls, ContractError::VaultNotFound)
    } else if caller != c.vault(id).owner {
        rejected(c, calls, ContractError::NotOwner)
    } else if c.vault(id).status != ReleaseStatus::Locked {
        rejected(c, calls, ContractError::AlreadyReleased)
    } else {
        accepted(
            calls,
            (),
            seq![Event::CheckIn { vault_id: id, at: now }],
            c.with_vault(id, VaultView { last_check_in: now, ..c.vault(id) }),
        )
    }
}

pub open spec fn deposit_step(c: ContractView, id: u64, from: Address, amount: i128, now: u64) -> Step<()> {
    let calls = seq![auth(from)];
    let v = c.vault(id);
    if c.paused {
        rejected(c, Seq::empty(), ContractError::Paused)
    } else if amount <= 0 {
        rejected(c, Seq::empty(), ContractError::InvalidAmount)
    } else if !c.has_vault(id) {
        rejected(c, calls, ContractError::VaultNotFound)
    } else if v.status != ReleaseStatus::Locked {
        rejected(c, calls, ContractError::AlreadyReleased)
    } else if !deadline_fits(v) {
        overflowed(c, calls)
    } else if now >= deadline(v) {
        rejected(c, calls, ContractError::AlreadyReleased)
    } else if c.token is None {
        rejected(c, calls, ContractError::VaultNotFound)
    } else {
        let paid = calls.push(HostCall::CollectTokens { token: c.token->0, from, amount });
        let balance = v.balance + amount;
        if balance > i128::MAX {
            rejected(c, paid, ContractError::BalanceOverflow)
        } else {
            accepted(
                paid,
                (),
                seq![Event::Deposit { vault_id: id, amount, balance: balance as i128 }],
                c.with_vault(id, VaultView { balance: balance as i128, ..v }),
            )
        }
    }
}

/// Shared shape of `withdraw` and `partial_release`: the owner moves `amount`
/// out of a locked vault to `to(vault)`.
pub open spec fn payout_step(c: ContractView, id: u64, amount: i128, to_beneficiary: bool) -> Step<()> {
    let v = c.vault(id);
    let calls = seq![auth(v.owner)];
    if c.paused {
        rejected(c, Seq::empty(), ContractError::Paused)
    } else if amount <= 0 {
        rejected(c, Seq::empty(), ContractError::InvalidAmount)
    } else if !c.has_vault(id) {
        rejected(c, Seq::empty(), ContractError::VaultNotFound)
    } else if v.status != ReleaseStatus::Locked {
        rejected(c, calls, ContractError::AlreadyReleased)
    } else if v.balance < amount {
        rejected(c, calls, ContractError::InsufficientBalance)
    } else if c.token is None {
        rejected(c, calls, ContractError::VaultNotFound)
    } else {
        let to = if to_beneficiary { v.beneficiary } else { v.owner };
        let balance = (v.balance - amount) as i128;
        accepted(
            calls.push(HostCall::PayTokens { token: c.token->0, to, amount }),
            (),
            seq![
                if to_beneficiary {
                    Event::PartialRelease { vault_id: id, beneficiary: to, amount }
                } else {
                    Event::Withdraw { vault_id: id, amount, balance }
                },
            ],
            c.with_vault(id, VaultView { balance, ..v }),
        )
    }
}

pub open spec fn withdraw_step(c: ContractView, id: u64, amount: i128) -> Step<()> {
    payout_step(c, id, amount, false)
}

pub open spec fn partial_release_step(c: ContractView, id: u64, amount: i128) -> Step<()> {
    payout_step(c, id, amount, true)
}

/// Shared shape of the owner's edits that need no pause check: the vault must
/// exist, the owner must authorize, and the vault must be locked; then `edited`
/// (if it is `Ok`) replaces it.
pub open spec fn owner_edit_step(c: ContractView, id: u64, edited: Result<VaultView, ContractError>) -> Step<()> {
    let v = c.vault(id);
    let calls = seq![auth(v.owner)];
    if !c.has_vault(id) {
        rejected(c, Seq::empty(), ContractError::VaultNotFound)
    } else if v.status != ReleaseStatus::Locked {
        rejected(c, calls, ContractError::AlreadyReleased)
    } else if edited is Err {
        rejected(c, calls, edited->Err_0)
    } else {
        accepted(calls, (), Seq::empty(), c.with_vault(id, edited->Ok_0))
    }
}

pub open spec fn set_beneficiaries_step(c: ContractView, id: u64, entries: Seq<BeneficiaryEntry>) -> Step<()> {
    owner_edit_step(
        c,
        id,
        if bps_total(entries) != 10_000 {
            Err(ContractError::InvalidBps)
        } else {
            Ok(VaultView { beneficiaries: entries, ..c.vault(id) })
        },
    )
}

pub open spec fn update_metadata_step(c: ContractView, id: u64, metadata: Seq<u8>) -> Step<()> {
    owner_edit_step(c, id, Ok(VaultView { metadata, ..c.vault(id) }))
}

pub open spec fn update_beneficiary_step(c: ContractView, id: u64, new_beneficiary: Address) -> Step<()> {
    let s = owner_edit_step(
        c,
        id,
        if c.vault(id).owner == new_beneficiary {
            Err(ContractError::InvalidBeneficiary)
        } else {
            Ok(VaultView { beneficiary: new_beneficiary, ..c.vault(id) })
        },
    );
    if s.result is Ok {
        Step {
            post: ContractView {
                beneficiary_index: moved_record(c.beneficiary_index, id, c.vault(id).beneficiary, new_beneficiary),
                ..s.post
            },
            ..s
        }
    } else {
        s
    }
}

pub open spec fn update_check_in_interval_step(c: ContractView, id: u64, new_interval: u64) -> Step<()> {
    let v = c.vault(id);
    let calls = seq![auth(v.owner)];
    if c.paused {
        rejected(c, Seq::empty(), ContractError::Paused)
    } else if new_interval == 0 {
        rejected(c, Seq::empty(), ContractError::InvalidInterval)
    } else if interval_bounds_error(c, new_interval) is Some {
        rejected(c, Seq::empty(), interval_bounds_error(c, new_interval)->0)
    } else if !c.has_vault(id) {
        rejected(c, Seq::empty(), ContractError::VaultNotFound)
    } else if v.status != ReleaseStatus::Locked {
        rejected(c, calls, ContractError::AlreadyReleased)
    } else {
        accepted(calls, (), Seq::empty(), c.with_vault(id, VaultView { check_in_interval: new_interval, ..v }))
    }
}

pub open spec fn cancel_vault_step(c: ContractView, id: u64) -> Step<()> {
    let v = c.vault(id);
    let calls = seq![auth(v.owner)];
    if c.paused {
        rejected(c, Seq::empty(), ContractError::Paused)
    } else if !c.has_vault(id) {
        rejected(c, Seq::empty(), ContractError::VaultNotFound)
    } else if v.status != ReleaseStatus::Locked {
        rejected(c, calls, ContractError::AlreadyReleased)
    } else if v.balance > 0 && c.token is None {
        rejected(c, calls, ContractError::VaultNotFound)
    } else {
        accepted(
            if v.balance > 0 {
                calls.push(HostCall::PayTokens { token: c.token->0, to: v.owner, amount: v.balance })
            } else {
                calls
            },
            (),
            seq![Event::Cancel { vault_id: id, owner: v.owner, refund: v.balance }],
            c.with_vault(id, VaultView { balance: 0, status: ReleaseStatus::Cancelled, ..v }),
        )
    }
}

/// An index after vault `id` passes from `old_party` to `new_party`: its
/// record moves to the end, under the new party.
pub open spec fn moved_record(index: Seq<IndexRecord>, id: u64, old_party: Address, new_party: Address) -> Seq<IndexRecord> {
    if old_party != new_party {
        without_record(index, old_party, id).push(IndexRecord { address: new_party, vault_id: id })
    } else {
        index
    }
}

pub open spec fn transfer_ownership_step(c: ContractView, id: u64, new_owner: Address) -> Step<()> {
    let v = c.vault(id);
    let calls = seq![auth(v.owner), auth(new_owner)];
    if c.paused {
        rejected(c, Seq::empty(), ContractError::Paused)
    } else if !c.has_vault(id) {
        rejected(c, Seq::empty(), ContractError::VaultNotFound)
    } else if v.status != ReleaseStatus::Locked {
        rejected(c, calls, ContractError::AlreadyReleased)
    } else {
        accepted(
            calls,
            (),
            seq![Event::OwnershipTransfer { vault_id: id, old_owner: v.owner, new_owner }],
            ContractView {
                owner_index: moved_record(c.owner_index, id, v.owner, new_owner),
                ..c.with_vault(id, VaultView { owner: new_owner, ..v })
            },
        )
    }
}


// ---- well-formedness lemmas ----

/// Well-formedness depends on the vaults and the indexes alone.
pub proof fn lemma_wf_config_change(c: ContractView, d: ContractView)
    requires
        d.vaults == c.vaults,
        d.owner_index == c.owner_index,
        d.beneficiary_index == c.beneficiary_index,
    ensures
        c.wf() ==> d.wf(),
{
    if c.wf() {
        assert forall|id: u64| #[trigger] d.has_vault(id) implies
            exists|i: int| 0 <= i < d.owner_index.len() && #[trigger] d.owner_index[i].vault_id == id by {
            assert(c.has_vault(id));
        }
        assert forall|id: u64| #[trigger] d.has_vault(id) implies
            exists|i: int| 0 <= i < d.beneficiary_index.len() && #[trigger] d.beneficiary_index[i].vault_id == id by {
            assert(c.has_vault(id));
        }
    }
}

/// An index stays right when every vault keeps its party.
pub proof fn lemma_index_same_parties(c: ContractView, d: ContractView, index: Seq<IndexRecord>, by_owner: bool)
    requires
        c.indexes_each_vault_once(index, by_owner),
        d.vaults.len() == c.vaults.len(),
        forall|i: int| 0 <= i < c.vaults.len() ==> party(#[trigger] d.vaults[i], by_owner) == party(c.vaults[i], by_owner),
    ensures
        d.indexes_each_vault_once(index, by_owner),
{
    assert forall|i: int| 0 <= i < index.len() implies {
        let r = #[trigger] index[i];
        d.has_vault(r.vault_id) && party(d.vault(r.vault_id), by_owner) == r.address
    } by {
        let r = index[i];
        assert(c.has_vault(r.vault_id));
        assert(party(d.vaults[r.vault_id - 1], by_owner) == party(c.vaults[r.vault_id - 1], by_owner));
    }
    assert forall|k: u64| #[trigger] d.has_vault(k) implies
        exists|i: int| 0 <= i < index.len() && #[trigger] index[i].vault_id == k by {
        assert(c.has_vault(k));
    }
}

/// Appending a vault and its record keeps an index right.
pub proof fn lemma_index_push(c: ContractView, d: ContractView, index: Seq<IndexRecord>, by_owner: bool, v: VaultView)
    requires
        c.indexes_each_vault_once(index, by_owner),
        d.vaults == c.vaults.push(v),
        c.vaults.len() + 1 <= u64::MAX,
    ensures
        d.indexes_each_vault_once(index.push(IndexRecord { address: party(v, by_owner), vault_id: (c.vaults.len() + 1) as u64 }), by_owner),
{
    let id = (c.vaults.len() + 1) as u64;
    let e = index.push(IndexRecord { address: party(v, by_owner), vault_id: id });
    assert forall|i: int| 0 <= i < e.len() implies {
        let r = #[trigger] e[i];
        d.has_vault(r.vault_id) && party(d.vault(r.vault_id), by_owner) == r.address
    } by {
        if i < index.len() {
            let r = index[i];
            assert(e[i] == r);
            assert(c.has_vault(r.vault_id));
            assert(d.vaults[r.vault_id - 1] == c.vaults[r.vault_id - 1]);
        }
    }
    assert forall|i: int, j: int| 0 <= i < j < e.len() implies
        #[trigger] e[i].vault_id != #[trigger] e[j].vault_id by {
        if j < index.len() {
            assert(e[i] == index[i] && e[j] == index[j]);
        } else {
            let r = index[i];
            assert(e[i] == r);
            assert(c.has_vault(r.vault_id));
        }
    }
    assert forall|k: u64| #[trigger] d.has_vault(k) implies
        exists|i: int| 0 <= i < e.len() && #[trigger] e[i].vault_id == k by {
        if k == id {
            assert(e[index.len() as int].vault_id == k);
        } else {
            assert(c.has_vault(k));
            let i = choose|i: int| 0 <= i < index.len() && #[trigger] index[i].vault_id == k;
            assert(e[i] == index[i]);
        }
    }
}

/// Giving vault `id` a new party and moving its record keeps an index right.
pub proof fn lemma_index_move(c: ContractView, d: ContractView, index: Seq<IndexRecord>, by_owner: bool, id: u64, new_party: Address)
    requires
        c.indexes_each_vault_once(index, by_owner),
        c.has_vault(id),
        d.vaults.len() == c.vaults.len(),
        party(d.vault(id), by_owner) == new_party,
        forall|i: int| 0 <= i < c.vaults.len() && i != id - 1 ==>
            party(#[trigger] d.vaults[i], by_owner) == party(c.vaults[i], by_owner),
    ensures
        d.indexes_each_vault_once(moved_record(index, id, party(c.vault(id), by_owner), new_party), by_owner),
{
    let old_party = party(c.vault(id), by_owner);
    if old_party == new_party {
        assert forall|i: int| 0 <= i < c.vaults.len() implies
            party(#[trigger] d.vaults[i], by_owner) == party(c.vaults[i], by_owner) by {
            if i == id - 1 {
                assert(d.vaults[i] == d.vault(id));
            }
        }
        lemma_index_same_parties(c, d, index, by_owner);
    } else {
        let w = without_record(index, old_party, id);
        let rec = IndexRecord { address: new_party, vault_id: id };
        let e = moved_record(index, id, old_party, new_party);
        lemma_without_record_sound(index, old_party, id);
        lemma_without_record_complete(index, old_party, id);
        lemma_without_record_distinct(index, old_party, id);
        assert(e == w.push(rec));
        // No kept record lists `id`: the only record of `id` is (old party, id).
        assert forall|i: int| 0 <= i < w.len() implies (#[trigger] w[i]).vault_id != id by {
            assert(kept_record(index, w[i], old_party, id));
            let j = choose|j: int| 0 <= j < index.len() && index[j] == w[i];
            let r = index[j];
            assert(c.has_vault(r.vault_id) && party(c.vault(r.vault_id), by_owner) == r.address);
        }
        assert forall|i: int| 0 <= i < e.len() implies {
            let r = #[trigger] e[i];
            d.has_vault(r.vault_id) && party(d.vault(r.vault_id), by_owner) == r.address
        } by {
            if i < w.len() {
                assert(e[i] == w[i]);
                assert(kept_record(index, w[i], old_party, id));
                let j = choose|j: int| 0 <= j < index.len() && index[j] == w[i];
                let r = index[j];
                assert(c.has_vault(r.vault_id));
                assert(party(d.vaults[r.vault_id - 1], by_owner) == party(c.vaults[r.vault_id - 1], by_owner));
            }
        }
        assert forall|i: int, j: int| 0 <= i < j < e.len() implies
            #[trigger] e[i].vault_id != #[trigger] e[j].vault_id by {
            assert(e[i] == w[i]);
            if j < w.len() {
                assert(e[j] == w[j]);
            }
        }
        assert forall|k: u64| #[trigger] d.has_vault(k) implies
            exists|i: int| 0 <= i < e.len() && #[trigger] e[i].vault_id == k by {
            if k == id {
                assert(e[w.len() as int].vault_id == k);
            } else {
                assert(c.has_vault(k));
                let j = choose|j: int| 0 <= j < index.len() && #[trigger] index[j].vault_id == k;
                let i = choose|i: int| 0 <= i < w.len() && #[trigger] w[i] == #[trigger] index[j];
                assert(e[i] == w[i]);
            }
        }
    }
}

/// Replacing a vault by a well-formed one with the same owner and primary
/// beneficiary keeps the registry well-formed.
pub proof fn lemma_with_vault_wf(c: ContractView, id: u64, v: VaultView)
    requires
        c.wf(),
        c.has_vault(id),
        vault_wf(v),
        v.owner == c.vault(id).owner,
        v.beneficiary == c.vault(id).beneficiary,
    ensures
        c.with_vault(id, v).wf(),
{
    let d = c.with_vault(id, v);
    assert forall|i: int| 0 <= i < d.vaults.len() implies vault_wf(#[trigger] d.vaults[i]) by {
        if i != id - 1 {
            assert(d.vaults[i] == c.vaults[i]);
        }
    }
    assert forall|i: int| 0 <= i < c.vaults.len() implies
        party(#[trigger] d.vaults[i], true) == party(c.vaults[i], true)
        && party(d.vaults[i], false) == party(c.vaults[i], false) by {
        if i != id - 1 {
            assert(d.vaults[i] == c.vaults[i]);
        }
    }
    lemma_index_same_parties(c, d, c.owner_index, true);
    lemma_index_same_parties(c, d, c.beneficiary_index, false);
}

/// A prefix of a split never weighs more than the whole split.
pub proof fn lemma_bps_total_prefix(entries: Seq<BeneficiaryEntry>, k: int)
    requires
        0 <= k <= entries.len(),
    ensures
        bps_total(entries.take(k)) <= bps_total(entries),
        bps_total(entries.take(k)) >= 0,
    decreases entries.len(),
{
    if entries.len() > 0 {
        if k == entries.len() {
            assert(entries.take(k) =~= entries);
            lemma_bps_total_prefix(entries.drop_last(), k - 1);
            assert(entries.drop_last().take(k - 1) =~= entries.drop_last());
        } else {
            lemma_bps_total_prefix(entries.drop_last(), k);
            assert(entries.drop_last().take(k) =~= entries.take(k));
        }
    }
}


/// A successful `create_vault` keeps the registry well-formed.
pub proof fn lemma_create_vault_wf(c: ContractView, owner: Address, beneficiary: Address, interval: u64, now: u64)
    requires
        c.wf(),
        create_vault_step(c, owner, beneficiary, interval, now).result is Ok,
    ensures
        create_vault_step(c, owner, beneficiary, interval, now).post.wf(),
{
    let d = create_vault_step(c, owner, beneficiary, interval, now).post;
    let v = fresh_vault(owner, beneficiary, interval, now);
    assert forall|i: int| 0 <= i < d.vaults.len() implies vault_wf(#[trigger] d.vaults[i]) by {
        if i < c.vaults.len() {
            assert(d.vaults[i] == c.vaults[i]);
        }
    }
    lemma_index_push(c, d, c.owner_index, true, v);
    lemma_index_push(c, d, c.beneficiary_index, false, v);
}

/// A successful `transfer_ownership` keeps the registry well-formed.
pub proof fn lemma_transfer_ownership_wf(c: ContractView, id: u64, new_owner: Address)
    requires
        c.wf(),
        transfer_ownership_step(c, id, new_owner).result is Ok,
    ensures
        transfer_ownership_step(c, id, new_owner).post.wf(),
{
    let d = transfer_ownership_step(c, id, new_owner).post;
    assert forall|i: int| 0 <= i < d.vaults.len() implies vault_wf(#[trigger] d.vaults[i]) by {
        if i != id - 1 {
            assert(d.vaults[i] == c.vaults[i]);
        }
    }
    assert forall|i: int| 0 <= i < c.vaults.len() && i != id - 1 implies
        party(#[trigger] d.vaults[i], true) == party(c.vaults[i], true) by {
        assert(d.vaults[i] == c.vaults[i]);
    }
    assert forall|i: int| 0 <= i < c.vaults.len() implies
        party(#[trigger] d.vaults[i], false) == party(c.vaults[i], false) by {
        if i != id - 1 {
            assert(d.vaults[i] == c.vaults[i]);
        }
    }
    lemma_index_move(c, d, c.owner_index, true, id, new_owner);
    lemma_index_same_parties(c, d, c.beneficiary_index, false);
}

/// A successful `update_beneficiary` keeps the registry well-formed.
pub proof fn lemma_update_beneficiary_wf(c: ContractView, id: u64, new_beneficiary: Address)
    requires
        c.wf(),
        update_beneficiary_step(c, id, new_beneficiary).result is Ok,
    ensures
        update_beneficiary_step(c, id, new_beneficiary).post.wf(),
{
    let d = update_beneficiary_step(c, id, new_beneficiary).post;
    assert(vault_wf(c.vaults[id - 1]));
    assert forall|i: int| 0 <= i < d.vaults.len() implies vault_wf(#[trigger] d.vaults[i]) by {
        if i != id - 1 {
            assert(d.vaults[i] == c.vaults[i]);
        }
    }
    assert forall|i: int| 0 <= i < c.vaults.len() && i != id - 1 implies
        party(#[trigger] d.vaults[i], false) == party(c.vaults[i], false) by {
        assert(d.vaults[i] == c.vaults[i]);
    }
    assert forall|i: int| 0 <= i < c.vaults.len() implies
        party(#[trigger] d.vaults[i], true) == party(c.vaults[i], true) by {
        if i != id - 1 {
            assert(d.vaults[i] == c.vaults[i]);
        }
    }
    lemma_index_same_parties(c, d, c.owner_index, true);
    lemma_index_move(c, d, c.beneficiary_index, false, id, new_beneficiary);
}


// ---- expiry and release ----

/// Time left before vault `id` expires: `None` when there is no such vault or
/// it has expired; an overflow when its deadline is not a 64-bit timestamp.
pub open spec fn ttl_remaining(c: ContractView, id: u64, now: u64) -> Result<Option<u64>, Failure> {
    let v = c.vault(id);
    if !c.has_vault(id) {
        Ok(None)
    } else if !deadline_fits(v) {
        Err(Failure::ArithmeticOverflow)
    } else if now >= deadline(v) {
        Ok(None)
    } else {
        Ok(Some((deadline(v) - now) as u64))
    }
}

/// Whether vault `id` has expired at `now` (its deadline has been reached).
pub open spec fn expired(c: ContractView, id: u64, now: u64) -> Result<bool, Failure> {
    let v = c.vault(id);
    if !c.has_vault(id) {
        Err(Failure::Contract(ContractError::VaultNotFound))
    } else if !deadline_fits(v) {
        Err(Failure::ArithmeticOverflow)
    } else {
        Ok(now >= deadline(v))
    }
}

pub open spec fn ping_expiry_step(c: ContractView, id: u64, now: u64) -> Step<u64> {
    if !c.has_vault(id) {
        rejected(c, Seq::empty(), ContractError::VaultNotFound)
    } else if ttl_remaining(c, id, now) is Err {
        overflowed(c, Seq::empty())
    } else {
        let ttl = match ttl_remaining(c, id, now) {
            Ok(Some(t)) => t,
            _ => 0u64,
        };
        accepted(
            Seq::empty(),
            ttl,
            if ttl < EXPIRY_WARNING_THRESHOLD { seq![Event::PingExpiry { vault_id: id, ttl }] } else { Seq::empty() },
            c,
        )
    }
}

pub open spec fn trigger_release_step(c: ContractView, id: u64, now: u64) -> Step<()> {
    let v = c.vault(id);
    if c.paused {
        rejected(c, Seq::empty(), ContractError::Paused)
    } else if !c.has_vault(id) {
        rejected(c, Seq::empty(), ContractError::VaultNotFound)
    } else if v.status != ReleaseStatus::Locked {
        rejected(c, Seq::empty(), ContractError::AlreadyReleased)
    } else if !deadline_fits(v) {
        overflowed(c, Seq::empty())
    } else if now < deadline(v) {
        rejected(c, Seq::empty(), ContractError::NotExpired)
    } else if v.balance == 0 {
        rejected(c, Seq::empty(), ContractError::EmptyVault)
    } else if c.token is None {
        rejected(c, Seq::empty(), ContractError::VaultNotFound)
    } else {
        let token = c.token->0;
        let total = v.balance;
        let post = c.with_vault(id, VaultView { balance: 0, status: ReleaseStatus::Released, ..v });
        let entries = v.beneficiaries;
        if entries.len() == 0 {
            accepted(
                seq![HostCall::PayTokens { token, to: v.beneficiary, amount: total }],
                (),
                seq![Event::Release(ReleaseEvent { vault_id: id, beneficiary: v.beneficiary, amount: total })],
                post,
            )
        } else {
            let shares = release_shares(total as int, entries);
            let k = first_overflow(total as int, entries, 0);
            if k < entries.len() - 1 {
                overflowed(c, payout_calls(token, entries, shares, k))
            } else {
                accepted(payout_calls(token, entries, shares, entries.len() as int), (), release_events(id, entries, shares), post)
            }
        }
    }
}


// ---- batch deposit ----

/// Validation of a batch of (vault id, amount) deposits, item by item: the
/// total to collect when every item is valid, else the first item's error
/// (amount not positive, no such vault, vault not locked, or total beyond
/// the 128-bit range).
pub open spec fn batch_total(c: ContractView, deposits: Seq<(u64, i128)>) -> Result<int, ContractError>
    decreases deposits.len(),
{
    if deposits.len() == 0 {
        Ok(0)
    } else {
        match batch_total(c, deposits.drop_last()) {
            Err(e) => Err(e),
            Ok(t) => {
                let (id, amount) = deposits.last();
                if amount <= 0 {
                    Err(ContractError::InvalidAmount)
                } else if !c.has_vault(id) {
                    Err(ContractError::VaultNotFound)
                } else if c.vault(id).status != ReleaseStatus::Locked {
                    Err(ContractError::AlreadyReleased)
                } else if t + amount > i128::MAX {
                    Err(ContractError::InvalidAmount)
                } else {
                    Ok(t + amount)
                }
            },
        }
    }
}

/// The registry after crediting a batch item by item, each amount added to
/// its vault's current balance (a vault named twice is credited twice);
/// `None` when a credit leaves the 128-bit range.
pub open spec fn batch_credit(c: ContractView, deposits: Seq<(u64, i128)>) -> Option<ContractView>
    decreases deposits.len(),
{
    if deposits.len() == 0 {
        Some(c)
    } else {
        match batch_credit(c, deposits.drop_last()) {
            None => None,
            Some(p) => {
                let (id, amount) = deposits.last();
                let balance = p.vault(id).balance + amount;
                if balance > i128::MAX {
                    None
                } else {
                    Some(p.with_vault(id, VaultView { balance: balance as i128, ..p.vault(id) }))
                }
            },
        }
    }
}

pub open spec fn batch_deposit_step(c: ContractView, from: Address, deposits: Seq<(u64, i128)>) -> Step<()> {
    let calls = seq![auth(from)];
    if c.paused {
        rejected(c, Seq::empty(), ContractError::Paused)
    } else if batch_total(c, deposits) is Err {
        rejected(c, calls, batch_total(c, deposits)->Err_0)
    } else if batch_total(c, deposits)->Ok_0 == 0 {
        accepted(calls, (), Seq::empty(), c)
    } else if c.token is None {
        rejected(c, calls, ContractError::VaultNotFound)
    } else {
        let total = batch_total(c, deposits)->Ok_0;
        let collected = calls.push(HostCall::CollectTokens { token: c.token->0, from, amount: total as i128 });
        match batch_credit(c, deposits) {
            None => rejected(c, collected, ContractError::BalanceOverflow),
            Some(post) => accepted(collected, (), Seq::empty(), post),
        }
    }
}

/// A batch item for an existing locked vault with a positive amount.
pub open spec fn valid_item(c: ContractView, item: (u64, i128)) -> bool {
    &&& item.1 > 0
    &&& c.has_vault(item.0)
    &&& c.vault(item.0).status == ReleaseStatus::Locked
}

/// `b` is `a` with, at most, another balance.
pub open spec fn only_balance_differs(a: VaultView, b: VaultView) -> bool {
    b == VaultView { balance: b.balance, ..a }
}

/// Once a prefix of the batch fails validation, the whole batch fails the same way.
pub proof fn lemma_batch_total_prefix_err(c: ContractView, deposits: Seq<(u64, i128)>, k: int)
    requires
        0 <= k <= deposits.len(),
        batch_total(c, deposits.take(k)) is Err,
    ensures
        batch_total(c, deposits) == batch_total(c, deposits.take(k)),
    decreases deposits.len(),
{
    if k < deposits.len() {
        assert(deposits.drop_last().take(k) =~= deposits.take(k));
        lemma_batch_total_prefix_err(c, deposits.drop_last(), k);
    } else {
        assert(deposits.take(k) =~= deposits);
    }
}

/// A batch that validates has only positive amounts for existing locked vaults.
pub proof fn lemma_batch_total_ok(c: ContractView, deposits: Seq<(u64, i128)>)
    requires
        batch_total(c, deposits) is Ok,
    ensures
        0 <= batch_total(c, deposits)->Ok_0 <= i128::MAX,
        deposits.len() > 0 ==> batch_total(c, deposits)->Ok_0 > 0,
        forall|i: int| 0 <= i < deposits.len() ==> valid_item(c, #[trigger] deposits[i]),
    decreases deposits.len(),
{
    if deposits.len() > 0 {
        lemma_batch_total_ok(c, deposits.drop_last());
        assert forall|i: int| 0 <= i < deposits.len() implies valid_item(c, #[trigger] deposits[i]) by {
            if i < deposits.len() - 1 {
                assert(deposits[i] == deposits.drop_last()[i]);
            }
        }
    }
}

/// Once crediting a prefix of the batch overflows, crediting the whole batch does.
pub proof fn lemma_batch_credit_prefix_none(c: ContractView, deposits: Seq<(u64, i128)>, k: int)
    requires
        0 <= k <= deposits.len(),
        batch_credit(c, deposits.take(k)) is None,
    ensures
        batch_credit(c, deposits) is None,
    decreases deposits.len(),
{
    if k < deposits.len() {
        assert(deposits.drop_last().take(k) =~= deposits.take(k));
        lemma_batch_credit_prefix_none(c, deposits.drop_last(), k);
    } else {
        assert(deposits.take(k) =~= deposits);
    }
}

/// Crediting a batch of items for existing locked vaults with positive
/// amounts only raises balances: vaults that no item names are untouched,
/// and a well-formed registry stays well-formed.
pub proof fn lemma_batch_credit(c: ContractView, deposits: Seq<(u64, i128)>)
    requires
        forall|i: int| 0 <= i < deposits.len() ==> valid_item(c, #[trigger] deposits[i]),
        batch_credit(c, deposits) is Some,
    ensures
        ({
            let p = batch_credit(c, deposits)->Some_0;
            &&& p == ContractView { vaults: p.vaults, ..c }
            &&& p.vaults.len() == c.vaults.len()
            &&& forall|i: int| 0 <= i < c.vaults.len() ==> only_balance_differs(c.vaults[i], #[trigger] p.vaults[i])
            &&& forall|i: int| 0 <= i < c.vaults.len() ==> c.vaults[i].balance <= (#[trigger] p.vaults[i]).balance
            &&& forall|k: u64| c.has_vault(k) && (forall|i: int| 0 <= i < deposits.len() ==> (#[trigger] deposits[i]).0 != k)
                ==> p.vault(k) == c.vault(k)
            &&& c.wf() ==> p.wf()
        }),
    decreases deposits.len(),
{
    if deposits.len() > 0 {
        let init = deposits.drop_last();
        assert forall|i: int| 0 <= i < init.len() implies valid_item(c, #[trigger] init[i]) by {
            assert(init[i] == deposits[i]);
        }
        lemma_batch_credit(c, init);
        let p = batch_credit(c, init)->Some_0;
        let (id, amount) = deposits.last();
        assert(deposits.last() == deposits[deposits.len() - 1]);
        assert(valid_item(c, deposits[deposits.len() - 1]));
        let v = VaultView { balance: (p.vault(id).balance + amount) as i128, ..p.vault(id) };
        let q = p.with_vault(id, v);
        assert(only_balance_differs(c.vaults[id - 1], p.vaults[id - 1]));
        assert forall|i: int| 0 <= i < c.vaults.len() implies only_balance_differs(c.vaults[i], #[trigger] q.vaults[i])
            && c.vaults[i].balance <= q.vaults[i].balance by {
            if i != id - 1 {
                assert(q.vaults[i] == p.vaults[i]);
            }
        }
        assert forall|k: u64| c.has_vault(k) && (forall|i: int| 0 <= i < deposits.len() ==> (#[trigger] deposits[i]).0 != k)
            implies q.vault(k) == c.vault(k) by {
            assert forall|i: int| 0 <= i < init.len() implies (#[trigger] init[i]).0 != k by {
                assert(init[i] == deposits[i]);
            }
            assert(deposits[deposits.len() - 1].0 != k);
        }
        if c.wf() {
            assert(vault_wf(c.vaults[id - 1]));
            assert(vault_wf(p.vaults[id - 1]));
            lemma_with_vault_wf(p, id, v);
        }
    }
}

} // verus!
