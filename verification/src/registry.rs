//! The vault registry: its state, its operations and its queries.
use vstd::prelude::*;
use crate::types::{EXPIRY_WARNING_THRESHOLD, Address, BeneficiaryEntry, ContractError, Event, Failure, HostCall, IndexRecord, Outcome, ReleaseEvent, ReleaseStatus, Vault, VaultView, WasmHash};
use crate::model::{
    accept_admin_step, auth, batch_credit, batch_deposit_step, batch_total, bps_total,
    cancel_vault_step, check_in_step, create_vault_step, deadline, deadline_fits, deposit_step,
    empty_registry, expired, fresh_vault, initialize_step, interval_bounds_error,
    lemma_batch_credit, lemma_batch_credit_prefix_none, lemma_batch_total_ok, lemma_batch_total_prefix_err, lemma_bps_total_prefix,
    lemma_create_vault_wf, lemma_wf_config_change, lemma_transfer_ownership_wf, lemma_update_beneficiary_wf, lemma_with_vault_wf, only_balance_differs,
    partial_release_step, payout_step, ping_expiry_step, propose_admin_step, rejected,
    set_beneficiaries_step, set_max_interval_step, set_min_interval_step, set_paused_step,
    transfer_ownership_step, trigger_release_step, ttl_remaining, update_beneficiary_step,
    update_check_in_interval_step, update_metadata_step, upgrade_step, valid_item, vault_wf,
    withdraw_step, party, ContractView,
};
use crate::release::{lemma_first_overflow_at_most_last, pay_split};
use crate::index::{ids_for, ids_of, page_of, paginate, remove_record};

verus! {

/// The state of the time-locked vault contract: its configuration, its vaults
/// (vault `id` is `vaults[id - 1]`) and the indexes of vault ids by owner and
/// by beneficiary.
pub struct TtlVaultContract {
    pub token: Option<Address>,
    pub admin: Option<Address>,
    pub paused: bool,
    pub pending_admin: Option<Address>,
    pub min_check_in_interval: Option<u64>,
    pub max_check_in_interval: Option<u64>,
    pub vaults: Vec<Vault>,
    pub owner_index: Vec<IndexRecord>,
    pub beneficiary_index: Vec<IndexRecord>,
}

impl View for TtlVaultContract {
    type V = ContractView;

    open spec fn view(&self) -> ContractView {
        ContractView {
            token: self.token,
            admin: self.admin,
            paused: self.paused,
            pending_admin: self.pending_admin,
            min_interval: self.min_check_in_interval,
            max_interval: self.max_check_in_interval,
            vaults: self.vaults@.map_values(|v: Vault| v@),
            owner_index: self.owner_index@,
            beneficiary_index: self.beneficiary_index@,
        }
    }
}

fn reject<T>(calls: Vec<HostCall>, e: ContractError) -> (out: Outcome<T>)
    ensures
        out.calls@ == calls@,
        out.result == Err::<T, Failure>(Failure::Contract(e)),
        out.events@ == Seq::<Event>::empty(),
{
    Outcome { calls, result: Err(Failure::Contract(e)), events: Vec::new() }
}

fn overflow<T>(calls: Vec<HostCall>) -> (out: Outcome<T>)
    ensures
        out.calls@ == calls@,
        out.result == Err::<T, Failure>(Failure::ArithmeticOverflow),
        out.events@ == Seq::<Event>::empty(),
{
    Outcome { calls, result: Err(Failure::ArithmeticOverflow), events: Vec::new() }
}

fn accept<T>(calls: Vec<HostCall>, value: T, events: Vec<Event>) -> (out: Outcome<T>)
    ensures
        out.calls@ == calls@,
        out.result == Ok::<T, Failure>(value),
        out.events@ == events@,
{
    Outcome { calls, result: Ok(value), events }
}

fn one_call(call: HostCall) -> (calls: Vec<HostCall>)
    ensures
        calls@ == seq![call],
{
    let mut calls = Vec::new();
    calls.push(call);
    calls
}

impl TtlVaultContract {
    /// The registry before `initialize`: no configuration and no vaults.
    pub fn new() -> (c: Self)
        ensures
            c@ == empty_registry(),
            c@.wf(),
    {
        let c = TtlVaultContract {
            token: None,
            admin: None,
            paused: false,
            pending_admin: None,
            min_check_in_interval: None,
            max_check_in_interval: None,
            vaults: Vec::new(),
            owner_index: Vec::new(),
            beneficiary_index: Vec::new(),
        };
        assert(c@.vaults =~= Seq::<VaultView>::empty());
        c
    }

    // --- admin/config ---

    /// Initializes the contract with the token address and the admin address.
    /// Fails with `AlreadyInitialized` when either is already set; otherwise the
    /// admin must authorize, and the contract starts unpaused.
    pub fn initialize(&mut self, xlm_token: Address, admin: Address) -> (out: Outcome<()>)
        ensures
            out.reports(initialize_step(old(self)@, xlm_token, admin)),
            final(self)@ == initialize_step(old(self)@, xlm_token, admin).post,
            old(self)@.wf() ==> final(self)@.wf(),
    {
        if self.token.is_some() || self.admin.is_some() {
            return reject(Vec::new(), ContractError::AlreadyInitialized);
        }
        self.token = Some(xlm_token);
        self.admin = Some(admin);
        self.paused = false;
        proof {
            lemma_wf_config_change(old(self)@, self@);
        }
        accept(one_call(HostCall::RequireAuth(admin)), (), Vec::new())
    }

    /// The admin, which must authorize an admin-only operation; fails with
    /// `VaultNotFound` before initialization.
    fn require_admin(&self) -> (r: Result<Vec<HostCall>, Outcome<()>>)
        ensures
            match r {
                Ok(calls) => self.admin matches Some(a) && calls@ == seq![auth(a)],
                Err(out) => self.admin is None && out.reports(rejected::<()>(self@, Seq::empty(), ContractError::VaultNotFound)),
            },
    {
        match self.admin {
            Some(a) => Ok(one_call(HostCall::RequireAuth(a))),
            None => Err(reject(Vec::new(), ContractError::VaultNotFound)),
        }
    }

    /// Pauses the contract, blocking its state-changing operations. Admin only.
    pub fn pause(&mut self) -> (out: Outcome<()>)
        ensures
            out.reports(set_paused_step(old(self)@, true)),
            final(self)@ == set_paused_step(old(self)@, true).post,
            old(self)@.wf() ==> final(self)@.wf(),
    {
        let calls = match self.require_admin() {
            Ok(calls) => calls,
            Err(out) => return out,
        };
        self.paused = true;
        proof {
            lemma_wf_config_change(old(self)@, self@);
        }
        accept(calls, (), Vec::new())
    }

    /// Unpauses the contract. Admin only.
    pub fn unpause(&mut self) -> (out: Outcome<()>)
        ensures
            out.reports(set_paused_step(old(self)@, false)),
            final(self)@ == set_paused_step(old(self)@, false).post,
            old(self)@.wf() ==> final(self)@.wf(),
    {
        let calls = match self.require_admin() {
            Ok(calls) => calls,
            Err(out) => return out,
        };
        self.paused = false;
        proof {
            lemma_wf_config_change(old(self)@, self@);
        }
        accept(calls, (), Vec::new())
    }

    /// Sets the minimum allowed check-in interval (seconds, must be > 0). Admin only.
    pub fn set_min_check_in_interval(&mut self, min_interval: u64) -> (out: Outcome<()>)
        ensures
            out.reports(set_min_interval_step(old(self)@, min_interval)),
            final(self)@ == set_min_interval_step(old(self)@, min_interval).post,
            old(self)@.wf() ==> final(self)@.wf(),
    {
        let calls = match self.require_admin() {
            Ok(calls) => calls,
            Err(out) => return out,
        };
        if min_interval == 0 {
            return reject(calls, ContractError::InvalidInterval);
        }
        self.min_check_in_interval = Some(min_interval);
        proof {
            lemma_wf_config_change(old(self)@, self@);
        }
        accept(calls, (), Vec::new())
    }

    /// Sets the maximum allowed check-in interval (seconds, must be > 0). Admin only.
    pub fn set_max_check_in_interval(&mut self, max_interval: u64) -> (out: Outcome<()>)
        ensures
            out.reports(set_max_interval_step(old(self)@, max_interval)),
            final(self)@ == set_max_interval_step(old(self)@, max_interval).post,
            old(self)@.wf() ==> final(self)@.wf(),
    {
        let calls = match self.require_admin() {
            Ok(calls) => calls,
            Err(out) => return out,
        };
        if max_interval == 0 {
            return reject(calls, ContractError::InvalidInterval);
        }
        self.max_check_in_interval = Some(max_interval);
        proof {
            lemma_wf_config_change(old(self)@, self@);
        }
        accept(calls, (), Vec::new())
    }

    /// The minimum check-in interval, if set.
    pub fn get_min_check_in_interval(&self) -> (r: Option<u64>)
        ensures
            r == self@.min_interval,
    {
        self.min_check_in_interval
    }

    /// The maximum check-in interval, if set.
    pub fn get_max_check_in_interval(&self) -> (r: Option<u64>)
        ensures
            r == self@.max_interval,
    {
        self.max_check_in_interval
    }

    /// Admin only: on success the host replaces the contract's code with the
    /// uploaded code of `new_wasm_hash`.
    pub fn upgrade(&self, new_wasm_hash: WasmHash) -> (out: Outcome<()>)
        ensures
            out.reports(upgrade_step(self@, new_wasm_hash)),
            upgrade_step(self@, new_wasm_hash).post == self@,
    {
        let mut calls = match self.require_admin() {
            Ok(calls) => calls,
            Err(out) => return out,
        };
        let ghost before = calls@;
        calls.push(HostCall::UpdateContractWasm(new_wasm_hash));
        assert(calls@ =~= before + seq![HostCall::UpdateContractWasm(new_wasm_hash)]);
        accept(calls, (), Vec::new())
    }

    /// Whether the contract is paused.
    pub fn is_paused(&self) -> (r: bool)
        ensures
            r == self@.paused,
    {
        self.paused
    }

    /// The admin; `VaultNotFound` before initialization.
    pub fn get_admin(&self) -> (r: Result<Address, Failure>)
        ensures
            r == (match self@.admin {
                Some(a) => Ok::<Address, Failure>(a),
                None => Err(Failure::Contract(ContractError::VaultNotFound)),
            }),
    {
        match self.admin {
            Some(a) => Ok(a),
            None => Err(Failure::Contract(ContractError::VaultNotFound)),
        }
    }

    /// Proposes a new admin, who completes the handover with `accept_admin`. Admin only.
    pub fn propose_admin(&mut self, new_admin: Address) -> (out: Outcome<()>)
        ensures
            out.reports(propose_admin_step(old(self)@, new_admin)),
            final(self)@ == propose_admin_step(old(self)@, new_admin).post,
            old(self)@.wf() ==> final(self)@.wf(),
    {
        let calls = match self.require_admin() {
            Ok(calls) => calls,
            Err(out) => return out,
        };
        self.pending_admin = Some(new_admin);
        proof {
            lemma_wf_config_change(old(self)@, self@);
        }
        accept(calls, (), Vec::new())
    }

    /// Completes the admin handover; the pending admin must authorize.
    pub fn accept_admin(&mut self) -> (out: Outcome<()>)
        ensures
            out.reports(accept_admin_step(old(self)@)),
            final(self)@ == accept_admin_step(old(self)@).post,
            old(self)@.wf() ==> final(self)@.wf(),
    {
        match self.pending_admin {
            None => reject(Vec::new(), ContractError::NoPendingAdmin),
            Some(p) => {
                self.admin = Some(p);
                self.pending_admin = None;
                proof {
            lemma_wf_config_change(old(self)@, self@);
        }
        accept(one_call(HostCall::RequireAuth(p)), (), Vec::new())
            },
        }
    }

    /// The pending admin, if any.
    pub fn get_pending_admin(&self) -> (r: Option<Address>)
        ensures
            r == self@.pending_admin,
    {
        self.pending_admin
    }
}


impl TtlVaultContract {
    /// Position of vault `id` in `vaults`, if it exists.
    fn vault_index(&self, id: u64) -> (r: Option<usize>)
        ensures
            r is Some <==> self@.has_vault(id),
            r matches Some(i) ==> i == id - 1 && i < self.vaults@.len(),
    {
        if id >= 1 && id <= self.vaults.len() as u64 {
            Some((id - 1) as usize)
        } else {
            None
        }
    }

    /// Records a check-in, resetting the vault's expiry timer. The caller must
    /// authorize and be the owner, and the vault must be locked.
    pub fn check_in(&mut self, vault_id: u64, caller: Address, now: u64) -> (out: Outcome<()>)
        requires
            old(self)@.wf(),
        ensures
            out.reports(check_in_step(old(self)@, vault_id, caller, now)),
            final(self)@ == check_in_step(old(self)@, vault_id, caller, now).post,
            final(self)@.wf(),
    {
        if self.paused {
            return reject(Vec::new(), ContractError::Paused);
        }
        let calls = one_call(HostCall::RequireAuth(caller));
        let idx = match self.vault_index(vault_id) {
            Some(i) => i,
            None => return reject(calls, ContractError::VaultNotFound),
        };
        if caller != self.vaults[idx].owner {
            return reject(calls, ContractError::NotOwner);
        }
        if self.vaults[idx].status != ReleaseStatus::Locked {
            return reject(calls, ContractError::AlreadyReleased);
        }
        let ghost c = self@;
        self.vaults[idx].last_check_in = now;
        proof {
            assert(self@.vaults =~= c.vaults.update(idx as int, VaultView { last_check_in: now, ..c.vault(vault_id) }));
            lemma_with_vault_wf(c, vault_id, VaultView { last_check_in: now, ..c.vault(vault_id) });
        }
        let mut events = Vec::new();
        events.push(Event::CheckIn { vault_id, at: now });
        accept(calls, (), events)
    }

    /// Deposits `amount` (> 0) from `from` into a locked, unexpired vault: the
    /// tokens move to the contract and the vault's balance grows by `amount`.
    /// A vault that is no longer locked, or whose deadline has passed, is
    /// refused with `AlreadyReleased`.
    pub fn deposit(&mut self, vault_id: u64, from: Address, amount: i128, now: u64) -> (out: Outcome<()>)
        requires
            old(self)@.wf(),
        ensures
            out.reports(deposit_step(old(self)@, vault_id, from, amount, now)),
            final(self)@ == deposit_step(old(self)@, vault_id, from, amount, now).post,
            final(self)@.wf(),
    {
        if self.paused {
            return reject(Vec::new(), ContractError::Paused);
        }
        if amount <= 0 {
            return reject(Vec::new(), ContractError::InvalidAmount);
        }
        let mut calls = one_call(HostCall::RequireAuth(from));
        let idx = match self.vault_index(vault_id) {
            Some(i) => i,
            None => return reject(calls, ContractError::VaultNotFound),
        };
        if self.vaults[idx].status != ReleaseStatus::Locked {
            return reject(calls, ContractError::AlreadyReleased);
        }
        let deadline = match self.vaults[idx].last_check_in.checked_add(self.vaults[idx].check_in_interval) {
            Some(d) => d,
            None => return overflow(calls),
        };
        if now >= deadline {
            return reject(calls, ContractError::AlreadyReleased);
        }
        let token = match self.token {
            Some(t) => t,
            None => return reject(calls, ContractError::VaultNotFound),
        };
        calls.push(HostCall::CollectTokens { token, from, amount });
        let balance = match self.vaults[idx].balance.checked_add(amount) {
            Some(b) => b,
            None => return reject(calls, ContractError::BalanceOverflow),
        };
        let ghost c = self@;
        self.vaults[idx].balance = balance;
        proof {
            let v = VaultView { balance, ..c.vault(vault_id) };
            assert(self@.vaults =~= c.vaults.update(idx as int, v));
            lemma_with_vault_wf(c, vault_id, v);
        }
        let mut events = Vec::new();
        events.push(Event::Deposit { vault_id, amount, balance });
        accept(calls, (), events)
    }

    /// Moves `amount` out of a locked vault, to its owner or to its primary
    /// beneficiary; the owner must authorize.
    fn pay_out(&mut self, vault_id: u64, amount: i128, to_beneficiary: bool) -> (out: Outcome<()>)
        requires
            old(self)@.wf(),
        ensures
            out.reports(payout_step(old(self)@, vault_id, amount, to_beneficiary)),
            final(self)@ == payout_step(old(self)@, vault_id, amount, to_beneficiary).post,
            final(self)@.wf(),
    {
        if self.paused {
            return reject(Vec::new(), ContractError::Paused);
        }
        if amount <= 0 {
            return reject(Vec::new(), ContractError::InvalidAmount);
        }
        let idx = match self.vault_index(vault_id) {
            Some(i) => i,
            None => return reject(Vec::new(), ContractError::VaultNotFound),
        };
        let owner = self.vaults[idx].owner;
        let mut calls = one_call(HostCall::RequireAuth(owner));
        if self.vaults[idx].status != ReleaseStatus::Locked {
            return reject(calls, ContractError::AlreadyReleased);
        }
        if self.vaults[idx].balance < amount {
            return reject(calls, ContractError::InsufficientBalance);
        }
        let token = match self.token {
            Some(t) => t,
            None => return reject(calls, ContractError::VaultNotFound),
        };
        let to = if to_beneficiary { self.vaults[idx].beneficiary } else { owner };
        calls.push(HostCall::PayTokens { token, to, amount });
        let balance = self.vaults[idx].balance - amount;
        let ghost c = self@;
        self.vaults[idx].balance = balance;
        proof {
            let v = VaultView { balance, ..c.vault(vault_id) };
            assert(self@.vaults =~= c.vaults.update(idx as int, v));
            lemma_with_vault_wf(c, vault_id, v);
        }
        let mut events = Vec::new();
        if to_beneficiary {
            events.push(Event::PartialRelease { vault_id, beneficiary: to, amount });
        } else {
            events.push(Event::Withdraw { vault_id, amount, balance });
        }
        accept(calls, (), events)
    }

    /// The owner withdraws `amount` (> 0, at most the balance) from a locked vault.
    pub fn withdraw(&mut self, vault_id: u64, amount: i128) -> (out: Outcome<()>)
        requires
            old(self)@.wf(),
        ensures
            out.reports(withdraw_step(old(self)@, vault_id, amount)),
            final(self)@ == withdraw_step(old(self)@, vault_id, amount).post,
            final(self)@.wf(),
    {
        self.pay_out(vault_id, amount, false)
    }

    /// The owner sends `amount` (> 0, at most the balance) to the primary
    /// beneficiary; the vault stays locked.
    pub fn partial_release(&mut self, vault_id: u64, amount: i128) -> (out: Outcome<()>)
        requires
            old(self)@.wf(),
        ensures
            out.reports(partial_release_step(old(self)@, vault_id, amount)),
            final(self)@ == partial_release_step(old(self)@, vault_id, amount).post,
            final(self)@.wf(),
    {
        self.pay_out(vault_id, amount, true)
    }

    /// Replaces the beneficiary split of a locked vault; the owner must
    /// authorize and the basis points must sum to exactly 10_000.
    pub fn set_beneficiaries(&mut self, vault_id: u64, beneficiaries: Vec<BeneficiaryEntry>) -> (out: Outcome<()>)
        requires
            old(self)@.wf(),
        ensures
            out.reports(set_beneficiaries_step(old(self)@, vault_id, beneficiaries@)),
            final(self)@ == set_beneficiaries_step(old(self)@, vault_id, beneficiaries@).post,
            final(self)@.wf(),
    {
        let idx = match self.vault_index(vault_id) {
            Some(i) => i,
            None => return reject(Vec::new(), ContractError::VaultNotFound),
        };
        let calls = one_call(HostCall::RequireAuth(self.vaults[idx].owner));
        if self.vaults[idx].status != ReleaseStatus::Locked {
            return reject(calls, ContractError::AlreadyReleased);
        }
        if !splits_whole(&beneficiaries) {
            return reject(calls, ContractError::InvalidBps);
        }
        let ghost c = self@;
        let ghost entries = beneficiaries@;
        self.vaults[idx].beneficiaries = beneficiaries;
        proof {
            let v = VaultView { beneficiaries: entries, ..c.vault(vault_id) };
            assert(self@.vaults =~= c.vaults.update(idx as int, v));
            lemma_with_vault_wf(c, vault_id, v);
        }
        accept(calls, (), Vec::new())
    }

    /// Replaces the metadata of a locked vault; the owner must authorize.
    pub fn update_metadata(&mut self, vault_id: u64, metadata: Vec<u8>) -> (out: Outcome<()>)
        requires
            old(self)@.wf(),
        ensures
            out.reports(update_metadata_step(old(self)@, vault_id, metadata@)),
            final(self)@ == update_metadata_step(old(self)@, vault_id, metadata@).post,
            final(self)@.wf(),
    {
        let idx = match self.vault_index(vault_id) {
            Some(i) => i,
            None => return reject(Vec::new(), ContractError::VaultNotFound),
        };
        let calls = one_call(HostCall::RequireAuth(self.vaults[idx].owner));
        if self.vaults[idx].status != ReleaseStatus::Locked {
            return reject(calls, ContractError::AlreadyReleased);
        }
        let ghost c = self@;
        let ghost bytes = metadata@;
        self.vaults[idx].metadata = metadata;
        proof {
            let v = VaultView { metadata: bytes, ..c.vault(vault_id) };
            assert(self@.vaults =~= c.vaults.update(idx as int, v));
            lemma_with_vault_wf(c, vault_id, v);
        }
        accept(calls, (), Vec::new())
    }

    /// Replaces the primary beneficiary of a locked vault; the owner must
    /// authorize and cannot name themself. The beneficiary index follows the
    /// vault to its new beneficiary.
    pub fn update_beneficiary(&mut self, vault_id: u64, new_beneficiary: Address) -> (out: Outcome<()>)
        requires
            old(self)@.wf(),
        ensures
            out.reports(update_beneficiary_step(old(self)@, vault_id, new_beneficiary)),
            final(self)@ == update_beneficiary_step(old(self)@, vault_id, new_beneficiary).post,
            final(self)@.wf(),
    {
        let idx = match self.vault_index(vault_id) {
            Some(i) => i,
            None => return reject(Vec::new(), ContractError::VaultNotFound),
        };
        let calls = one_call(HostCall::RequireAuth(self.vaults[idx].owner));
        if self.vaults[idx].status != ReleaseStatus::Locked {
            return reject(calls, ContractError::AlreadyReleased);
        }
        if self.vaults[idx].owner == new_beneficiary {
            return reject(calls, ContractError::InvalidBeneficiary);
        }
        let ghost c = self@;
        let old_beneficiary = self.vaults[idx].beneficiary;
        if old_beneficiary != new_beneficiary {
            let mut moved = remove_record(&self.beneficiary_index, old_beneficiary, vault_id);
            moved.push(IndexRecord { address: new_beneficiary, vault_id });
            self.beneficiary_index = moved;
        }
        self.vaults[idx].beneficiary = new_beneficiary;
        proof {
            let v = VaultView { beneficiary: new_beneficiary, ..c.vault(vault_id) };
            assert(self@.vaults =~= c.vaults.update(idx as int, v));
            lemma_update_beneficiary_wf(c, vault_id, new_beneficiary);
        }
        accept(calls, (), Vec::new())
    }

    /// The interval bound that `interval` breaks, if any.
    fn check_interval_bounds(&self, interval: u64) -> (r: Option<ContractError>)
        ensures
            r == interval_bounds_error(self@, interval),
    {
        if let Some(min) = self.min_check_in_interval {
            if interval < min {
                return Some(ContractError::IntervalTooLow);
            }
        }
        if let Some(max) = self.max_check_in_interval {
            if interval > max {
                return Some(ContractError::IntervalTooHigh);
            }
        }
        None
    }

    /// Sets a new check-in interval (> 0, within the configured bounds) on a
    /// locked vault; the owner must authorize.
    pub fn update_check_in_interval(&mut self, vault_id: u64, new_interval: u64) -> (out: Outcome<()>)
        requires
            old(self)@.wf(),
        ensures
            out.reports(update_check_in_interval_step(old(self)@, vault_id, new_interval)),
            final(self)@ == update_check_in_interval_step(old(self)@, vault_id, new_interval).post,
            final(self)@.wf(),
    {
        if self.paused {
            return reject(Vec::new(), ContractError::Paused);
        }
        if new_interval == 0 {
            return reject(Vec::new(), ContractError::InvalidInterval);
        }
        if let Some(e) = self.check_interval_bounds(new_interval) {
            return reject(Vec::new(), e);
        }
        let idx = match self.vault_index(vault_id) {
            Some(i) => i,
            None => return reject(Vec::new(), ContractError::VaultNotFound),
        };
        let calls = one_call(HostCall::RequireAuth(self.vaults[idx].owner));
        if self.vaults[idx].status != ReleaseStatus::Locked {
            return reject(calls, ContractError::AlreadyReleased);
        }
        let ghost c = self@;
        self.vaults[idx].check_in_interval = new_interval;
        proof {
            let v = VaultView { check_in_interval: new_interval, ..c.vault(vault_id) };
            assert(self@.vaults =~= c.vaults.update(idx as int, v));
            lemma_with_vault_wf(c, vault_id, v);
        }
        accept(calls, (), Vec::new())
    }

    /// Cancels a locked vault: the owner authorizes, the whole balance goes
    /// back to the owner, and the vault ends cancelled with a zero balance.
    pub fn cancel_vault(&mut self, vault_id: u64) -> (out: Outcome<()>)
        requires
            old(self)@.wf(),
        ensures
            out.reports(cancel_vault_step(old(self)@, vault_id)),
            final(self)@ == cancel_vault_step(old(self)@, vault_id).post,
            final(self)@.wf(),
    {
        if self.paused {
            return reject(Vec::new(), ContractError::Paused);
        }
        let idx = match self.vault_index(vault_id) {
            Some(i) => i,
            None => return reject(Vec::new(), ContractError::VaultNotFound),
        };
        let owner = self.vaults[idx].owner;
        let mut calls = one_call(HostCall::RequireAuth(owner));
        if self.vaults[idx].status != ReleaseStatus::Locked {
            return reject(calls, ContractError::AlreadyReleased);
        }
        let refund = self.vaults[idx].balance;
        if refund > 0 {
            let token = match self.token {
                Some(t) => t,
                None => return reject(calls, ContractError::VaultNotFound),
            };
            calls.push(HostCall::PayTokens { token, to: owner, amount: refund });
        }
        let ghost c = self@;
        self.vaults[idx].balance = 0;
        self.vaults[idx].status = ReleaseStatus::Cancelled;
        proof {
            let v = VaultView { balance: 0, status: ReleaseStatus::Cancelled, ..c.vault(vault_id) };
            assert(self@.vaults =~= c.vaults.update(idx as int, v));
            lemma_with_vault_wf(c, vault_id, v);
        }
        let mut events = Vec::new();
        events.push(Event::Cancel { vault_id, owner, refund });
        accept(calls, (), events)
    }
}

/// Whether the basis points of `entries` sum to exactly 10_000.
fn splits_whole(entries: &Vec<BeneficiaryEntry>) -> (r: bool)
    ensures
        r == (bps_total(entries@) == 10_000),
{
    let n = entries.len();
    let mut total: u64 = 0;
    for i in 0..n
        invariant
            n == entries@.len(),
            total == bps_total(entries@.take(i as int)),
            total <= 10_000,
    {
        assert(entries@.take(i + 1).drop_last() =~= entries@.take(i as int));
        total = total + entries[i].bps as u64;
        if total > 10_000 {
            proof {
                lemma_bps_total_prefix(entries@, i + 1);
            }
            return false;
        }
    }
    assert(entries@.take(n as int) =~= entries@);
    total == 10_000
}


/// Whether a vault is well-formed (as `vault_wf` says).
fn vault_ok(v: &Vault) -> (r: bool)
    ensures
        r == vault_wf(v@),
{
    if v.balance < 0 || v.check_in_interval == 0 {
        return false;
    }
    if v.status != ReleaseStatus::Locked && v.balance != 0 {
        return false;
    }
    v.beneficiaries.len() == 0 || splits_whole(&v.beneficiaries)
}

impl TtlVaultContract {
    /// Whether `index` lists each vault exactly once, under its owner (when
    /// `by_owner`) or its primary beneficiary.
    fn index_ok(&self, index: &Vec<IndexRecord>, by_owner: bool) -> (r: bool)
        ensures
            r == self@.indexes_each_vault_once(index@, by_owner),
    {
        let n = self.vaults.len();
        // `seen[t]`: some record so far lists vault `t + 1`.
        let mut seen: Vec<bool> = Vec::new();
        for k in 0..n
            invariant
                seen@.len() == k,
                forall|j: int| 0 <= j < k ==> !(#[trigger] seen@[j]),
        {
            seen.push(false);
        }
        let m = index.len();
        for i in 0..m
            invariant
                n == self.vaults@.len(),
                m == index@.len(),
                seen@.len() == n,
                forall|j: int| 0 <= j < i ==> {
                    let r = #[trigger] index@[j];
                    self@.has_vault(r.vault_id) && party(self@.vault(r.vault_id), by_owner) == r.address
                },
                forall|j: int, k: int| 0 <= j < k < i ==> #[trigger] index@[j].vault_id != #[trigger] index@[k].vault_id,
                forall|t: int| 0 <= t < n ==>
                    (#[trigger] seen@[t] <==> exists|j: int| 0 <= j < i && #[trigger] index@[j].vault_id == t + 1),
        {
            let r = index[i];
            if r.vault_id < 1 || r.vault_id > n as u64 {
                assert(!self@.has_vault(index@[i as int].vault_id));
                return false;
            }
            let t = (r.vault_id - 1) as usize;
            let p = if by_owner { self.vaults[t].owner } else { self.vaults[t].beneficiary };
            if p != r.address {
                assert(party(self@.vault(index@[i as int].vault_id), by_owner) != index@[i as int].address);
                return false;
            }
            if seen[t] {
                assert(seen@[t as int]);
                let ghost j = choose|j: int| 0 <= j < i && #[trigger] index@[j].vault_id == t + 1;
                assert(index@[j].vault_id == index@[i as int].vault_id);
                return false;
            }
            let ghost before = seen@;
            seen.set(t, true);
            assert forall|u: int| 0 <= u < n implies
                (#[trigger] seen@[u] <==> exists|j: int| 0 <= j < i + 1 && #[trigger] index@[j].vault_id == u + 1) by {
                if u == t as int {
                    assert(index@[i as int].vault_id == u + 1);
                } else {
                    assert(seen@[u] == before[u]);
                    if exists|j: int| 0 <= j < i + 1 && #[trigger] index@[j].vault_id == u + 1 {
                        let j = choose|j: int| 0 <= j < i + 1 && #[trigger] index@[j].vault_id == u + 1;
                        assert(j != i);
                    }
                }
            }
        }
        for t in 0..n
            invariant
                n == self.vaults@.len(),
                m == index@.len(),
                seen@.len() == n,
                forall|u: int| 0 <= u < n ==>
                    (#[trigger] seen@[u] <==> exists|j: int| 0 <= j < m && #[trigger] index@[j].vault_id == u + 1),
                forall|u: int| 0 <= u < t ==> #[trigger] seen@[u],
        {
            if !seen[t] {
                assert(self@.has_vault((t + 1) as u64));
                assert(!exists|j: int| 0 <= j < m && #[trigger] index@[j].vault_id == (t + 1) as u64);
                return false;
            }
        }
        assert forall|id: u64| #[trigger] self@.has_vault(id) implies
            exists|i: int| 0 <= i < index@.len() && #[trigger] index@[i].vault_id == id by {
            assert(seen@[id - 1]);
        }
        true
    }

    /// Whether the registry is well-formed (as `wf` says), for state that
    /// was assembled outside the library, such as state read from storage.
    pub fn is_well_formed(&self) -> (r: bool)
        ensures
            r == self@.wf(),
    {
        let n = self.vaults.len();
        for i in 0..n
            invariant
                n == self.vaults@.len(),
                forall|j: int| 0 <= j < i ==> vault_wf(#[trigger] self@.vaults[j]),
        {
            if !vault_ok(&self.vaults[i]) {
                assert(!vault_wf(self@.vaults[i as int]));
                return false;
            }
        }
        self.index_ok(&self.owner_index, true) && self.index_ok(&self.beneficiary_index, false)
    }
}

impl TtlVaultContract {
    /// Creates a new locked, empty vault and returns its id (one more than
    /// the number of vaults so far). The owner must authorize; the interval
    /// must be positive and within the configured bounds, and the owner cannot
    /// be the beneficiary.
    pub fn create_vault(&mut self, owner: Address, beneficiary: Address, check_in_interval: u64, now: u64) -> (out: Outcome<u64>)
        requires
            old(self)@.wf(),
        ensures
            out.reports(create_vault_step(old(self)@, owner, beneficiary, check_in_interval, now)),
            final(self)@ == create_vault_step(old(self)@, owner, beneficiary, check_in_interval, now).post,
            final(self)@.wf(),
    {
        let calls = one_call(HostCall::RequireAuth(owner));
        if check_in_interval == 0 {
            return reject(calls, ContractError::InvalidInterval);
        }
        if let Some(e) = self.check_interval_bounds(check_in_interval) {
            return reject(calls, e);
        }
        if owner == beneficiary {
            return reject(calls, ContractError::InvalidBeneficiary);
        }
        let count = self.vaults.len() as u64;
        if count == u64::MAX {
            return overflow(calls);
        }
        let vault_id = count + 1;
        let ghost c = self@;
        let vault = Vault {
            owner,
            beneficiary,
            balance: 0,
            check_in_interval,
            last_check_in: now,
            status: ReleaseStatus::Locked,
            beneficiaries: Vec::new(),
            metadata: Vec::new(),
        };
        self.vaults.push(vault);
        self.owner_index.push(IndexRecord { address: owner, vault_id });
        self.beneficiary_index.push(IndexRecord { address: beneficiary, vault_id });
        proof {
            assert(self@.vaults =~= c.vaults.push(fresh_vault(owner, beneficiary, check_in_interval, now)));
            lemma_create_vault_wf(c, owner, beneficiary, check_in_interval, now);
        }
        let mut events = Vec::new();
        events.push(Event::VaultCreated { vault_id, owner, beneficiary, check_in_interval });
        accept(calls, vault_id, events)
    }

    /// Hands a locked vault to `new_owner`; both the current and the new owner
    /// must authorize, and the owner index follows the vault.
    pub fn transfer_ownership(&mut self, vault_id: u64, new_owner: Address) -> (out: Outcome<()>)
        requires
            old(self)@.wf(),
        ensures
            out.reports(transfer_ownership_step(old(self)@, vault_id, new_owner)),
            final(self)@ == transfer_ownership_step(old(self)@, vault_id, new_owner).post,
            final(self)@.wf(),
    {
        if self.paused {
            return reject(Vec::new(), ContractError::Paused);
        }
        let idx = match self.vault_index(vault_id) {
            Some(i) => i,
            None => return reject(Vec::new(), ContractError::VaultNotFound),
        };
        let old_owner = self.vaults[idx].owner;
        let mut calls = one_call(HostCall::RequireAuth(old_owner));
        calls.push(HostCall::RequireAuth(new_owner));
        assert(calls@ =~= seq![auth(old_owner), auth(new_owner)]);
        if self.vaults[idx].status != ReleaseStatus::Locked {
            return reject(calls, ContractError::AlreadyReleased);
        }
        let ghost c = self@;
        if old_owner != new_owner {
            let mut moved = remove_record(&self.owner_index, old_owner, vault_id);
            moved.push(IndexRecord { address: new_owner, vault_id });
            self.owner_index = moved;
        }
        self.vaults[idx].owner = new_owner;
        proof {
            let v = VaultView { owner: new_owner, ..c.vault(vault_id) };
            assert(self@.vaults =~= c.vaults.update(idx as int, v));
            lemma_transfer_ownership_wf(c, vault_id, new_owner);
        }
        let mut events = Vec::new();
        events.push(Event::OwnershipTransfer { vault_id, old_owner, new_owner });
        accept(calls, (), events)
    }
}


impl TtlVaultContract {
    /// The deadline of the vault at `idx`, if it is a 64-bit timestamp.
    fn deadline_at(&self, idx: usize) -> (d: Option<u64>)
        requires
            idx < self.vaults@.len(),
        ensures
            d is Some <==> deadline_fits(self@.vaults[idx as int]),
            d matches Some(t) ==> t == deadline(self@.vaults[idx as int]),
    {
        self.vaults[idx].last_check_in.checked_add(self.vaults[idx].check_in_interval)
    }

    /// Whether a vault has expired: the ledger time has reached its last
    /// check-in plus its interval.
    pub fn is_expired(&self, vault_id: u64, now: u64) -> (r: Result<bool, Failure>)
        ensures
            r == expired(self@, vault_id, now),
    {
        let idx = match self.vault_index(vault_id) {
            Some(i) => i,
            None => return Err(Failure::Contract(ContractError::VaultNotFound)),
        };
        match self.deadline_at(idx) {
            Some(d) => Ok(now >= d),
            None => Err(Failure::ArithmeticOverflow),
        }
    }

    /// The vault with this id.
    pub fn get_vault(&self, vault_id: u64) -> (r: Result<&Vault, Failure>)
        ensures
            match r {
                Ok(v) => self@.has_vault(vault_id) && v@ == self@.vault(vault_id),
                Err(e) => !self@.has_vault(vault_id) && e == Failure::Contract(ContractError::VaultNotFound),
            },
    {
        match self.vault_index(vault_id) {
            Some(i) => Ok(&self.vaults[i]),
            None => Err(Failure::Contract(ContractError::VaultNotFound)),
        }
    }

    /// Whether a vault with this id exists.
    pub fn vault_exists(&self, vault_id: u64) -> (r: bool)
        ensures
            r == self@.has_vault(vault_id),
    {
        self.vault_index(vault_id).is_some()
    }

    /// One page of the ids of the vaults that `owner` holds, in the order they
    /// came to the owner.
    pub fn get_vaults_by_owner(&self, owner: Address, page: u32, page_size: u32) -> (ids: Vec<u64>)
        ensures
            ids@ == page_of(ids_of(self@.owner_index, owner), page, page_size),
    {
        let all = ids_for(&self.owner_index, owner);
        paginate(&all, page, page_size)
    }

    /// One page of the ids of the vaults whose primary beneficiary is
    /// `beneficiary`, in the order they came to it.
    pub fn get_vaults_by_beneficiary(&self, beneficiary: Address, page: u32, page_size: u32) -> (ids: Vec<u64>)
        ensures
            ids@ == page_of(ids_of(self@.beneficiary_index, beneficiary), page, page_size),
    {
        let all = ids_for(&self.beneficiary_index, beneficiary);
        paginate(&all, page, page_size)
    }

    /// Seconds left before a vault expires; `None` when the vault does not
    /// exist or has expired.
    pub fn get_ttl_remaining(&self, vault_id: u64, now: u64) -> (r: Result<Option<u64>, Failure>)
        ensures
            r == ttl_remaining(self@, vault_id, now),
    {
        let idx = match self.vault_index(vault_id) {
            Some(i) => i,
            None => return Ok(None),
        };
        match self.deadline_at(idx) {
            None => Err(Failure::ArithmeticOverflow),
            Some(d) => if now >= d { Ok(None) } else { Ok(Some(d - now)) },
        }
    }

    /// The status of a vault.
    pub fn get_release_status(&self, vault_id: u64) -> (r: Result<ReleaseStatus, Failure>)
        ensures
            r == (if self@.has_vault(vault_id) {
                Ok::<ReleaseStatus, Failure>(self@.vault(vault_id).status)
            } else {
                Err(Failure::Contract(ContractError::VaultNotFound))
            }),
    {
        match self.vault_index(vault_id) {
            Some(i) => Ok(self.vaults[i].status),
            None => Err(Failure::Contract(ContractError::VaultNotFound)),
        }
    }

    /// The number of vaults created so far (also the id of the newest).
    pub fn vault_count(&self) -> (n: u64)
        ensures
            n == self@.vault_count(),
    {
        self.vaults.len() as u64
    }

    /// The token the contract holds; `VaultNotFound` before initialization.
    pub fn get_contract_token(&self) -> (r: Result<Address, Failure>)
        ensures
            r == (match self@.token {
                Some(t) => Ok::<Address, Failure>(t),
                None => Err(Failure::Contract(ContractError::VaultNotFound)),
            }),
    {
        match self.token {
            Some(t) => Ok(t),
            None => Err(Failure::Contract(ContractError::VaultNotFound)),
        }
    }

    /// Returns the seconds left before a vault expires (0 once expired) and
    /// warns, with an event, when less than a day is left.
    pub fn ping_expiry(&self, vault_id: u64, now: u64) -> (out: Outcome<u64>)
        ensures
            out.reports(ping_expiry_step(self@, vault_id, now)),
            ping_expiry_step(self@, vault_id, now).post == self@,
    {
        if !self.vault_exists(vault_id) {
            return reject(Vec::new(), ContractError::VaultNotFound);
        }
        let ttl = match self.get_ttl_remaining(vault_id, now) {
            Err(_) => return overflow(Vec::new()),
            Ok(Some(t)) => t,
            Ok(None) => 0,
        };
        let mut events = Vec::new();
        if ttl < EXPIRY_WARNING_THRESHOLD {
            events.push(Event::PingExpiry { vault_id, ttl });
        }
        accept(Vec::new(), ttl, events)
    }

    /// Releases an expired, locked vault that holds a balance (an empty one is
    /// refused with `EmptyVault`): its whole balance goes to the
    /// primary beneficiary, or is split by basis points among the beneficiary
    /// entries (the last one taking what rounding leaves); the vault ends
    /// released with a zero balance. Anyone may call it.
    pub fn trigger_release(&mut self, vault_id: u64, now: u64) -> (out: Outcome<()>)
        requires
            old(self)@.wf(),
        ensures
            out.reports(trigger_release_step(old(self)@, vault_id, now)),
            final(self)@ == trigger_release_step(old(self)@, vault_id, now).post,
            final(self)@.wf(),
    {
        if self.paused {
            return reject(Vec::new(), ContractError::Paused);
        }
        let idx = match self.vault_index(vault_id) {
            Some(i) => i,
            None => return reject(Vec::new(), ContractError::VaultNotFound),
        };
        if self.vaults[idx].status != ReleaseStatus::Locked {
            return reject(Vec::new(), ContractError::AlreadyReleased);
        }
        let deadline = match self.deadline_at(idx) {
            Some(d) => d,
            None => return overflow(Vec::new()),
        };
        if now < deadline {
            return reject(Vec::new(), ContractError::NotExpired);
        }
        if self.vaults[idx].balance == 0 {
            return reject(Vec::new(), ContractError::EmptyVault);
        }
        let token = match self.token {
            Some(t) => t,
            None => return reject(Vec::new(), ContractError::VaultNotFound),
        };
        let total = self.vaults[idx].balance;
        let mut calls: Vec<HostCall> = Vec::new();
        let mut events: Vec<Event> = Vec::new();
        let ghost c = self@;
        assert(vault_wf(c.vaults[idx as int]));
        if self.vaults[idx].beneficiaries.len() == 0 {
            let beneficiary = self.vaults[idx].beneficiary;
            calls.push(HostCall::PayTokens { token, to: beneficiary, amount: total });
            events.push(Event::Release(ReleaseEvent { vault_id, beneficiary, amount: total }));
            assert(calls@ =~= seq![HostCall::PayTokens { token, to: beneficiary, amount: total }]);
        } else {
            if !pay_split(token, vault_id, total, &self.vaults[idx].beneficiaries, &mut calls, &mut events) {
                assert(calls@ =~= Seq::<HostCall>::empty() + calls@);
                proof {
                    lemma_first_overflow_at_most_last(total as int, c.vaults[idx as int].beneficiaries, 0);
                }
                return overflow(calls);
            }
            assert(calls@ =~= Seq::<HostCall>::empty() + calls@);
            assert(events@ =~= Seq::<Event>::empty() + events@);
        }
        self.vaults[idx].balance = 0;
        self.vaults[idx].status = ReleaseStatus::Released;
        proof {
            let v = VaultView { balance: 0, status: ReleaseStatus::Released, ..c.vault(vault_id) };
            assert(self@.vaults =~= c.vaults.update(idx as int, v));
            lemma_with_vault_wf(c, vault_id, v);
        }
        accept(calls, (), events)
    }
}


impl TtlVaultContract {
    /// Deposits into several vaults with a single token transfer. Every item
    /// is validated first (positive amount, existing locked vault, total
    /// within range); then `from` pays the total once, and each item is
    /// credited to its vault, as that many deposits would be.
    pub fn batch_deposit(&mut self, from: Address, deposits: Vec<(u64, i128)>) -> (out: Outcome<()>)
        requires
            old(self)@.wf(),
        ensures
            out.reports(batch_deposit_step(old(self)@, from, deposits@)),
            final(self)@ == batch_deposit_step(old(self)@, from, deposits@).post,
            final(self)@.wf(),
    {
        if self.paused {
            return reject(Vec::new(), ContractError::Paused);
        }
        let ghost c = self@;
        let mut calls = one_call(HostCall::RequireAuth(from));
        let n = deposits.len();
        let mut total: i128 = 0;
        for i in 0..n
            invariant
                n == deposits@.len(),
                self@ == c,
                c == old(self)@,
                !c.paused,
                c.wf(),
                calls@ == seq![auth(from)],
                batch_total(c, deposits@.take(i as int)) == Ok::<int, ContractError>(total as int),
        {
            assert(deposits@.take(i + 1).drop_last() =~= deposits@.take(i as int));
            assert(deposits@.take(i + 1).last() == deposits@[i as int]);
            let (vault_id, amount) = deposits[i];
            if amount <= 0 {
                proof {
                    lemma_batch_total_prefix_err(c, deposits@, i + 1);
                }
                return reject(calls, ContractError::InvalidAmount);
            }
            let idx = match self.vault_index(vault_id) {
                Some(k) => k,
                None => {
                    proof {
                        lemma_batch_total_prefix_err(c, deposits@, i + 1);
                    }
                    return reject(calls, ContractError::VaultNotFound);
                },
            };
            if self.vaults[idx].status != ReleaseStatus::Locked {
                proof {
                    lemma_batch_total_prefix_err(c, deposits@, i + 1);
                }
                return reject(calls, ContractError::AlreadyReleased);
            }
            total = match total.checked_add(amount) {
                Some(t) => t,
                None => {
                    proof {
                        lemma_batch_total_prefix_err(c, deposits@, i + 1);
                    }
                    return reject(calls, ContractError::InvalidAmount);
                },
            };
        }
        assert(deposits@.take(n as int) =~= deposits@);
        proof {
            lemma_batch_total_ok(c, deposits@);
        }
        if total == 0 {
            return accept(calls, (), Vec::new());
        }
        let token = match self.token {
            Some(t) => t,
            None => return reject(calls, ContractError::VaultNotFound),
        };
        calls.push(HostCall::CollectTokens { token, from, amount: total });
        assert(batch_total(c, deposits@) == Ok::<int, ContractError>(total as int));
        // Credit the items, in order, on a copy of the balances.
        let len = self.vaults.len();
        let mut balances: Vec<i128> = Vec::new();
        for k in 0..len
            invariant
                len == self.vaults@.len(),
                self@ == c,
                balances@.len() == k,
                forall|j: int| 0 <= j < k ==> balances@[j] == c.vaults[j].balance,
        {
            balances.push(self.vaults[k].balance);
        }
        assert(deposits@.take(0) =~= Seq::<(u64, i128)>::empty());
        for i in 0..n
            invariant
                n == deposits@.len(),
                len == c.vaults.len(),
                self@ == c,
                c == old(self)@,
                c.token == Some(token),
                batch_total(c, deposits@) is Ok,
                batch_total(c, deposits@)->Ok_0 == total,
                total != 0,
                !c.paused,
                calls@ == seq![auth(from)].push(HostCall::CollectTokens { token, from, amount: total }),
                forall|j: int| 0 <= j < n ==> valid_item(c, #[trigger] deposits@[j]),
                c.wf(),
                batch_credit(c, deposits@.take(i as int)) is Some,
                balances@.len() == len,
                forall|j: int| 0 <= j < len ==>
                    #[trigger] balances@[j] == batch_credit(c, deposits@.take(i as int))->Some_0.vaults[j].balance,
        {
            let ghost d = deposits@.take(i as int);
            assert(deposits@.take(i + 1).drop_last() =~= d);
            assert(deposits@.take(i + 1).last() == deposits@[i as int]);
            assert forall|j: int| 0 <= j < d.len() implies valid_item(c, #[trigger] d[j]) by {
                assert(d[j] == deposits@[j]);
            }
            proof {
                lemma_batch_credit(c, d);
            }
            let (vault_id, amount) = deposits[i];
            assert(valid_item(c, deposits@[i as int]));
            let idx = (vault_id - 1) as usize;
            let ghost p = batch_credit(c, d)->Some_0;
            assert(balances@[idx as int] == p.vaults[idx as int].balance);
            assert(batch_credit(c, deposits@.take(i + 1)) == (if p.vault(vault_id).balance + amount > i128::MAX {
                None
            } else {
                Some(p.with_vault(vault_id, VaultView { balance: (p.vault(vault_id).balance + amount) as i128, ..p.vault(vault_id) }))
            }));
            match balances[idx].checked_add(amount) {
                Some(b) => {
                    balances.set(idx, b);
                    assert forall|j: int| 0 <= j < len implies
                        #[trigger] balances@[j] == batch_credit(c, deposits@.take(i + 1))->Some_0.vaults[j].balance by {
                        if j != idx as int {
                            assert(batch_credit(c, deposits@.take(i + 1))->Some_0.vaults[j] == p.vaults[j]);
                        }
                    }
                },
                None => {
                    proof {
                        lemma_batch_credit_prefix_none(c, deposits@, i + 1);
                    }
                    return reject(calls, ContractError::BalanceOverflow);
                },
            }
        }
        assert(deposits@.take(n as int) =~= deposits@);
        let ghost post = batch_credit(c, deposits@)->Some_0;
        proof {
            lemma_batch_credit(c, deposits@);
        }
        assert(post.wf());
        for k in 0..len
            invariant
                len == c.vaults.len(),
                len == self.vaults@.len(),
                post == (ContractView { vaults: post.vaults, ..c }),
                post.vaults.len() == len,
                forall|j: int| 0 <= j < len ==> only_balance_differs(c.vaults[j], #[trigger] post.vaults[j]),
                balances@.len() == len,
                forall|j: int| 0 <= j < len ==> #[trigger] balances@[j] == post.vaults[j].balance,
                self@ == (ContractView { vaults: self@.vaults, ..c }),
                forall|j: int| 0 <= j < k ==> #[trigger] self@.vaults[j] == post.vaults[j],
                forall|j: int| k <= j < len ==> #[trigger] self@.vaults[j] == c.vaults[j],
        {
            let ghost before = self@;
            assert(before.vaults[k as int] == c.vaults[k as int]);
            assert(only_balance_differs(c.vaults[k as int], post.vaults[k as int]));
            assert(balances@[k as int] == post.vaults[k as int].balance);
            self.vaults[k].balance = balances[k];
            proof {
                assert(self@.vaults =~= before.vaults.update(k as int, post.vaults[k as int]));
            }
        }
        assert(self@.vaults =~= post.vaults);
        accept(calls, (), Vec::new())
    }
}

} // verus!
