use std::collections::HashMap;

use ttl_vault::registry::TtlVaultContract;
use ttl_vault::types::{
    Address, BeneficiaryEntry, ContractError, Event, Failure, HostCall, Outcome, ReleaseEvent, ReleaseStatus,
    WasmHash,
};

fn account(n: u128) -> Address {
    Address { is_contract: false, key_hi: 0, key_lo: n }
}

fn contract(n: u128) -> Address {
    Address { is_contract: true, key_hi: 7, key_lo: n }
}

/// Token balances of a toy ledger, moved by the host calls of an outcome.
struct Ledger {
    balances: HashMap<Address, i128>,
    vault_holdings: i128,
}

impl Ledger {
    fn balance(&self, a: Address) -> i128 {
        *self.balances.get(&a).unwrap_or(&0)
    }

    fn apply<T>(&mut self, out: &Outcome<T>) {
        if out.result.is_err() {
            return;
        }
        for call in out.calls.iter() {
            match *call {
                HostCall::CollectTokens { from, amount, .. } => {
                    *self.balances.entry(from).or_insert(0) -= amount;
                    self.vault_holdings += amount;
                },
                HostCall::PayTokens { to, amount, .. } => {
                    *self.balances.entry(to).or_insert(0) += amount;
                    self.vault_holdings -= amount;
                },
                _ => {},
            }
        }
    }
}

struct Setup {
    c: TtlVaultContract,
    owner: Address,
    beneficiary: Address,
    admin: Address,
    token: Address,
    ledger: Ledger,
}

fn setup() -> Setup {
    let owner = account(1);
    let beneficiary = account(2);
    let admin = account(3);
    let token = contract(99);
    let mut c = TtlVaultContract::new();
    let out = c.initialize(token, admin);
    assert_eq!(out.result, Ok(()));
    assert_eq!(out.calls, vec![HostCall::RequireAuth(admin)]);
    let mut balances = HashMap::new();
    balances.insert(owner, 1_000_000);
    Setup { c, owner, beneficiary, admin, token, ledger: Ledger { balances, vault_holdings: 0 } }
}

fn contract_err(e: ContractError) -> Failure {
    Failure::Contract(e)
}

#[test]
fn test_initialize_guard_against_double_init() {
    let mut s = setup();
    let out = s.c.initialize(contract(100), s.admin);
    assert_eq!(out.result, Err(contract_err(ContractError::AlreadyInitialized)));
    assert_eq!(out.result.unwrap_err(), Failure::Contract(ContractError::AlreadyInitialized));
    assert!(out.calls.is_empty());
    assert_eq!(ContractError::AlreadyInitialized.code(), 1);
    assert_eq!(s.c.get_contract_token(), Ok(s.token));
}

#[test]
fn test_vault_count_view() {
    let mut s = setup();
    assert_eq!(s.c.vault_count(), 0);
    let id_1 = s.c.create_vault(s.owner, s.beneficiary, 100, 0).result.unwrap();
    let id_2 = s.c.create_vault(s.owner, s.beneficiary, 200, 0).result.unwrap();
    assert_eq!(id_1, 1);
    assert_eq!(id_2, 2);
    assert_eq!(s.c.vault_count(), 2);
}

#[test]
fn test_vault_exists_for_existing_and_missing_ids() {
    let mut s = setup();
    assert!(!s.c.vault_exists(1));
    let vault_id = s.c.create_vault(s.owner, s.beneficiary, 100, 0).result.unwrap();
    assert!(s.c.vault_exists(vault_id));
    assert!(!s.c.vault_exists(vault_id + 1));
    assert!(!s.c.vault_exists(0));
}

#[test]
fn test_get_release_status_view() {
    let mut s = setup();
    let vault_id = s.c.create_vault(s.owner, s.beneficiary, 100, 0).result.unwrap();
    assert_eq!(s.c.get_release_status(vault_id), Ok(ReleaseStatus::Locked));

    let out = s.c.deposit(vault_id, s.owner, 500, 0);
    s.ledger.apply(&out);
    let out = s.c.trigger_release(vault_id, 200);
    assert_eq!(out.result, Ok(()));
    s.ledger.apply(&out);

    assert_eq!(s.c.get_release_status(vault_id), Ok(ReleaseStatus::Released));
    assert_eq!(s.ledger.balance(s.beneficiary), 500);
    assert_eq!(
        out.events,
        vec![Event::Release(ReleaseEvent { vault_id, beneficiary: s.beneficiary, amount: 500 })]
    );
}

#[test]
fn test_batch_deposit_updates_multiple_vaults() {
    let mut s = setup();
    let vault_id_1 = s.c.create_vault(s.owner, s.beneficiary, 100, 0).result.unwrap();
    let vault_id_2 = s.c.create_vault(s.owner, s.beneficiary, 200, 0).result.unwrap();

    let out = s.c.batch_deposit(s.owner, vec![(vault_id_1, 150), (vault_id_2, 250)]);
    assert_eq!(out.result, Ok(()));
    assert_eq!(
        out.calls,
        vec![HostCall::RequireAuth(s.owner), HostCall::CollectTokens { token: s.token, from: s.owner, amount: 400 }]
    );
    s.ledger.apply(&out);

    assert_eq!(s.c.get_vault(vault_id_1).unwrap().balance, 150);
    assert_eq!(s.c.get_vault(vault_id_2).unwrap().balance, 250);
    assert_eq!(s.ledger.balance(s.owner), 999_600);
}

#[test]
fn test_batch_deposit_validates_all_items_before_transfer() {
    let mut s = setup();
    let vault_id = s.c.create_vault(s.owner, s.beneficiary, 100, 0).result.unwrap();

    let out = s.c.batch_deposit(s.owner, vec![(vault_id, 100), (999, 200)]);
    assert_eq!(out.result, Err(contract_err(ContractError::VaultNotFound)));
    s.ledger.apply(&out);
    assert_eq!(s.c.get_vault(vault_id).unwrap().balance, 0);
    assert_eq!(s.ledger.balance(s.owner), 1_000_000);

    let out = s.c.batch_deposit(s.owner, vec![(vault_id, 100), (vault_id, 0)]);
    assert_eq!(out.result, Err(contract_err(ContractError::InvalidAmount)));
    assert_eq!(out.calls, vec![HostCall::RequireAuth(s.owner)]);
    assert_eq!(s.c.get_vault(vault_id).unwrap().balance, 0);
}

#[test]
fn test_pause_and_unpause_toggle() {
    let mut s = setup();
    assert!(!s.c.is_paused());
    assert_eq!(s.c.pause().result, Ok(()));
    assert!(s.c.is_paused());
    assert_eq!(s.c.unpause().result, Ok(()));
    assert!(!s.c.is_paused());
}

#[test]
fn test_get_admin_view() {
    let s = setup();
    assert_eq!(s.c.get_admin(), Ok(s.admin));
}

#[test]
fn test_paused_blocks_check_in_withdraw_and_trigger_release() {
    let mut s = setup();
    let vault_id = s.c.create_vault(s.owner, s.beneficiary, 100, 0).result.unwrap();
    assert_eq!(s.c.deposit(vault_id, s.owner, 200, 0).result, Ok(()));

    s.c.pause();
    let paused = Err(contract_err(ContractError::Paused));
    assert_eq!(s.c.check_in(vault_id, s.owner, 200).result, paused);
    assert_eq!(s.c.withdraw(vault_id, 10).result, paused);
    assert_eq!(s.c.trigger_release(vault_id, 200).result, paused);
    assert_eq!(ContractError::Paused.code(), 10);

    s.c.unpause();
    assert_eq!(s.c.trigger_release(vault_id, 200).result, Ok(()));
    assert_eq!(s.c.get_release_status(vault_id), Ok(ReleaseStatus::Released));
}

#[test]
fn test_get_vaults_by_owner_tracks_multiple_vaults() {
    let mut s = setup();
    let vault_id_1 = s.c.create_vault(s.owner, s.beneficiary, 100, 0).result.unwrap();
    let vault_id_2 = s.c.create_vault(s.owner, s.beneficiary, 200, 0).result.unwrap();
    assert_eq!(s.c.get_vaults_by_owner(s.owner, 0, 10), vec![vault_id_1, vault_id_2]);
}

#[test]
fn test_update_check_in_interval() {
    let mut s = setup();
    let vault_id = s.c.create_vault(s.owner, s.beneficiary, 100, 0).result.unwrap();
    assert_eq!(s.c.update_check_in_interval(vault_id, 300).result, Ok(()));
    assert_eq!(s.c.get_vault(vault_id).unwrap().check_in_interval, 300);
    assert_eq!(
        s.c.update_check_in_interval(vault_id, 0).result,
        Err(contract_err(ContractError::InvalidInterval))
    );
}

#[test]
fn test_transfer_ownership_updates_owner_and_owner_index() {
    let mut s = setup();
    let new_owner = account(4);
    let vault_id = s.c.create_vault(s.owner, s.beneficiary, 100, 0).result.unwrap();
    assert_eq!(s.c.get_vaults_by_owner(s.owner, 0, 10), vec![vault_id]);
    assert_eq!(s.c.get_vaults_by_owner(new_owner, 0, 10), Vec::<u64>::new());

    let out = s.c.transfer_ownership(vault_id, new_owner);
    assert_eq!(out.result, Ok(()));
    assert_eq!(out.calls, vec![HostCall::RequireAuth(s.owner), HostCall::RequireAuth(new_owner)]);

    assert_eq!(s.c.get_vault(vault_id).unwrap().owner, new_owner);
    assert_eq!(s.c.get_vaults_by_owner(s.owner, 0, 10), Vec::<u64>::new());
    assert_eq!(s.c.get_vaults_by_owner(new_owner, 0, 10), vec![vault_id]);
}

#[test]
fn test_cancel_vault_refunds_owner_and_marks_cancelled() {
    let mut s = setup();
    let vault_id = s.c.create_vault(s.owner, s.beneficiary, 100, 0).result.unwrap();
    let out = s.c.deposit(vault_id, s.owner, 400, 0);
    s.ledger.apply(&out);
    assert_eq!(s.ledger.balance(s.owner), 999_600);

    let out = s.c.cancel_vault(vault_id);
    assert_eq!(out.result, Ok(()));
    s.ledger.apply(&out);
    assert_eq!(s.ledger.balance(s.owner), 1_000_000);
    assert_eq!(s.c.get_release_status(vault_id), Ok(ReleaseStatus::Cancelled));
    assert_eq!(out.events, vec![Event::Cancel { vault_id, owner: s.owner, refund: 400 }]);
}

#[test]
fn test_admin_transfer_full_flow() {
    let mut s = setup();
    let new_admin = account(5);
    assert_eq!(s.c.get_admin(), Ok(s.admin));
    assert_eq!(s.c.get_pending_admin(), None);

    assert_eq!(s.c.propose_admin(new_admin).result, Ok(()));
    assert_eq!(s.c.get_pending_admin(), Some(new_admin));

    let out = s.c.accept_admin();
    assert_eq!(out.result, Ok(()));
    assert_eq!(out.calls, vec![HostCall::RequireAuth(new_admin)]);
    assert_eq!(s.c.get_admin(), Ok(new_admin));
    assert_eq!(s.c.get_pending_admin(), None);

    let out = s.c.pause();
    assert_eq!(out.calls, vec![HostCall::RequireAuth(new_admin)]);
    assert!(s.c.is_paused());
    s.c.unpause();
    assert!(!s.c.is_paused());
}

#[test]
fn test_create_vault_rejects_owner_as_beneficiary() {
    let mut s = setup();
    let out = s.c.create_vault(s.owner, s.owner, 1000, 0);
    assert_eq!(out.result, Err(contract_err(ContractError::InvalidBeneficiary)));
    assert_eq!(ContractError::InvalidBeneficiary.code(), 11);
}

#[test]
fn test_propose_admin_can_be_called_multiple_times() {
    let mut s = setup();
    let new_admin_1 = account(6);
    let new_admin_2 = account(7);
    s.c.propose_admin(new_admin_1);
    assert_eq!(s.c.get_pending_admin(), Some(new_admin_1));
    s.c.propose_admin(new_admin_2);
    assert_eq!(s.c.get_pending_admin(), Some(new_admin_2));
    assert_eq!(s.c.accept_admin().calls, vec![HostCall::RequireAuth(new_admin_2)]);
    assert_eq!(s.c.get_admin(), Ok(new_admin_2));
    assert_eq!(s.c.get_pending_admin(), None);
    assert_eq!(s.c.pause().calls, vec![HostCall::RequireAuth(new_admin_2)]);
    assert!(s.c.is_paused());
}

#[test]
fn test_ping_expiry_emits_event_when_near_expiry() {
    let mut s = setup();
    let vault_id = s.c.create_vault(s.owner, s.beneficiary, 100, 0).result.unwrap();
    let out = s.c.ping_expiry(vault_id, 50);
    assert_eq!(out.result, Ok(50));
    assert_eq!(out.events, vec![Event::PingExpiry { vault_id, ttl: 50 }]);
}

#[test]
fn test_ping_expiry_no_event_when_far_from_expiry() {
    let mut s = setup();
    let vault_id = s.c.create_vault(s.owner, s.beneficiary, 200_000, 0).result.unwrap();
    let out = s.c.ping_expiry(vault_id, 0);
    assert_eq!(out.result, Ok(200_000));
    assert!(out.events.is_empty());
}

#[test]
fn test_ping_expiry_returns_zero_when_expired() {
    let mut s = setup();
    let vault_id = s.c.create_vault(s.owner, s.beneficiary, 100, 0).result.unwrap();
    let out = s.c.ping_expiry(vault_id, 200);
    assert_eq!(out.result, Ok(0));
    assert_eq!(out.events, vec![Event::PingExpiry { vault_id, ttl: 0 }]);
}

#[test]
fn test_partial_release_transfers_amount_to_beneficiary() {
    let mut s = setup();
    let vault_id = s.c.create_vault(s.owner, s.beneficiary, 100, 0).result.unwrap();
    let out = s.c.deposit(vault_id, s.owner, 1_000, 0);
    s.ledger.apply(&out);

    let out = s.c.partial_release(vault_id, 300);
    assert_eq!(out.result, Ok(()));
    s.ledger.apply(&out);

    assert_eq!(s.ledger.balance(s.beneficiary), 300);
    assert_eq!(s.c.get_vault(vault_id).unwrap().balance, 700);
    assert_eq!(s.c.get_release_status(vault_id), Ok(ReleaseStatus::Locked));
}

#[test]
fn test_partial_release_fails_if_insufficient_balance() {
    let mut s = setup();
    let vault_id = s.c.create_vault(s.owner, s.beneficiary, 100, 0).result.unwrap();
    s.c.deposit(vault_id, s.owner, 100, 0);
    let out = s.c.partial_release(vault_id, 101);
    assert_eq!(out.result, Err(contract_err(ContractError::InsufficientBalance)));
    assert_eq!(s.c.get_vault(vault_id).unwrap().balance, 100);
}

#[test]
fn test_update_beneficiary_rejects_owner_as_beneficiary() {
    let mut s = setup();
    let vault_id = s.c.create_vault(s.owner, s.beneficiary, 1000, 0).result.unwrap();
    assert_eq!(
        s.c.update_beneficiary(vault_id, s.owner).result,
        Err(contract_err(ContractError::InvalidBeneficiary))
    );
}

#[test]
fn test_deposit_into_expired_vault_is_rejected() {
    let mut s = setup();
    let vault_id = s.c.create_vault(s.owner, s.beneficiary, 100, 0).result.unwrap();
    let out = s.c.deposit(vault_id, s.owner, 500, 200);
    assert_eq!(out.result, Err(contract_err(ContractError::AlreadyReleased)));
    assert_eq!(ContractError::AlreadyReleased.code(), 7);
    assert_eq!(out.calls, vec![HostCall::RequireAuth(s.owner)]);
    s.ledger.apply(&out);
    assert_eq!(s.c.get_vault(vault_id).unwrap().balance, 0);
    assert_eq!(s.ledger.balance(s.owner), 1_000_000);
}

#[test]
fn release_of_an_empty_vault_is_refused() {
    let mut s = setup();
    let vault_id = s.c.create_vault(s.owner, s.beneficiary, 100, 0).result.unwrap();
    let out = s.c.trigger_release(vault_id, 400);
    assert_eq!(out.result, Err(contract_err(ContractError::EmptyVault)));
    assert_eq!(ContractError::EmptyVault.code(), 4);
    assert!(out.calls.is_empty());
    assert!(out.events.is_empty());
    assert_eq!(s.c.get_release_status(vault_id), Ok(ReleaseStatus::Locked));
}

#[test]
fn test_update_metadata_can_be_overwritten() {
    let mut s = setup();
    let vault_id = s.c.create_vault(s.owner, s.beneficiary, 100, 0).result.unwrap();
    s.c.update_metadata(vault_id, b"v1".to_vec());
    s.c.update_metadata(vault_id, b"v2".to_vec());
    assert_eq!(s.c.get_vault(vault_id).unwrap().metadata, b"v2".to_vec());
}

#[test]
fn test_get_contract_token_returns_correct_address() {
    let s = setup();
    assert_eq!(s.c.get_contract_token(), Ok(s.token));
}

#[test]
fn test_create_vault_zero_interval_fails() {
    let mut s = setup();
    assert_eq!(
        s.c.create_vault(s.owner, s.beneficiary, 0, 0).result,
        Err(contract_err(ContractError::InvalidInterval))
    );
}

#[test]
fn test_get_vaults_by_beneficiary_tracks_vaults() {
    let mut s = setup();
    let other_beneficiary = account(8);
    assert_eq!(s.c.get_vaults_by_beneficiary(s.beneficiary, 0, 10), Vec::<u64>::new());
    let vault_id_1 = s.c.create_vault(s.owner, s.beneficiary, 100, 0).result.unwrap();
    let vault_id_2 = s.c.create_vault(s.owner, s.beneficiary, 200, 0).result.unwrap();
    let vault_id_3 = s.c.create_vault(s.owner, other_beneficiary, 300, 0).result.unwrap();
    assert_eq!(s.c.get_vaults_by_beneficiary(s.beneficiary, 0, 10), vec![vault_id_1, vault_id_2]);
    assert_eq!(s.c.get_vaults_by_beneficiary(other_beneficiary, 0, 10), vec![vault_id_3]);
}

#[test]
fn test_get_vaults_by_beneficiary_empty_for_unknown() {
    let s = setup();
    assert_eq!(s.c.get_vaults_by_beneficiary(account(9), 0, 10), Vec::<u64>::new());
}

#[test]
fn test_upgrade_requires_admin_authorization() {
    let s = setup();
    let hash = WasmHash { hi: 0x0102, lo: 0xfeed };
    let out = s.c.upgrade(hash);
    assert_eq!(out.result, Ok(()));
    // The admin's authorization is asked before the code is replaced, so a
    // call that only the owner signed is refused by the host.
    assert_eq!(out.calls, vec![HostCall::RequireAuth(s.admin), HostCall::UpdateContractWasm(hash)]);
    assert_ne!(out.calls[0], HostCall::RequireAuth(s.owner));
    let uninitialized = TtlVaultContract::new();
    assert_eq!(uninitialized.upgrade(hash).result, Err(contract_err(ContractError::VaultNotFound)));
}

#[test]
fn test_set_and_get_max_check_in_interval() {
    let mut s = setup();
    assert_eq!(s.c.get_max_check_in_interval(), None);
    assert_eq!(s.c.set_max_check_in_interval(86_400).result, Ok(()));
    assert_eq!(s.c.get_max_check_in_interval(), Some(86_400));
}

#[test]
fn test_create_vault_fails_when_interval_exceeds_max() {
    let mut s = setup();
    s.c.set_max_check_in_interval(1_000);
    assert_eq!(
        s.c.create_vault(s.owner, s.beneficiary, 2_000, 0).result,
        Err(contract_err(ContractError::IntervalTooHigh))
    );
}

#[test]
fn test_create_vault_succeeds_at_max_boundary() {
    let mut s = setup();
    s.c.set_max_check_in_interval(1_000);
    let vault_id = s.c.create_vault(s.owner, s.beneficiary, 1_000, 0).result.unwrap();
    assert_eq!(s.c.get_vault(vault_id).unwrap().check_in_interval, 1_000);
}

#[test]
fn test_update_check_in_interval_fails_when_exceeds_max() {
    let mut s = setup();
    let vault_id = s.c.create_vault(s.owner, s.beneficiary, 100, 0).result.unwrap();
    s.c.set_max_check_in_interval(500);
    assert_eq!(
        s.c.update_check_in_interval(vault_id, 600).result,
        Err(contract_err(ContractError::IntervalTooHigh))
    );
}

#[test]
fn test_set_and_get_min_check_in_interval() {
    let mut s = setup();
    assert_eq!(s.c.get_min_check_in_interval(), None);
    s.c.set_min_check_in_interval(60);
    assert_eq!(s.c.get_min_check_in_interval(), Some(60));
}

#[test]
fn test_create_vault_fails_when_interval_below_min() {
    let mut s = setup();
    s.c.set_min_check_in_interval(3_600);
    assert_eq!(
        s.c.create_vault(s.owner, s.beneficiary, 100, 0).result,
        Err(contract_err(ContractError::IntervalTooLow))
    );
}

#[test]
fn test_create_vault_succeeds_at_min_boundary() {
    let mut s = setup();
    s.c.set_min_check_in_interval(3_600);
    let vault_id = s.c.create_vault(s.owner, s.beneficiary, 3_600, 0).result.unwrap();
    assert_eq!(s.c.get_vault(vault_id).unwrap().check_in_interval, 3_600);
}

#[test]
fn test_update_check_in_interval_fails_when_below_min() {
    let mut s = setup();
    s.c.set_min_check_in_interval(3_600);
    let vault_id = s.c.create_vault(s.owner, s.beneficiary, 3_600, 0).result.unwrap();
    assert_eq!(
        s.c.update_check_in_interval(vault_id, 100).result,
        Err(contract_err(ContractError::IntervalTooLow))
    );
}

#[test]
fn test_min_and_max_both_enforced() {
    let mut s = setup();
    s.c.set_min_check_in_interval(60);
    s.c.set_max_check_in_interval(3_600);
    assert!(s.c.create_vault(s.owner, s.beneficiary, 30, 0).result.is_err());
    assert!(s.c.create_vault(s.owner, s.beneficiary, 7_200, 0).result.is_err());
    let vault_id = s.c.create_vault(s.owner, s.beneficiary, 1_800, 0).result.unwrap();
    assert_eq!(s.c.get_vault(vault_id).unwrap().check_in_interval, 1_800);
}

#[test]
fn split_release_pays_each_entry_and_the_rest_to_the_last() {
    let mut s = setup();
    let a = account(20);
    let b = account(21);
    let d = account(22);
    let vault_id = s.c.create_vault(s.owner, s.beneficiary, 100, 0).result.unwrap();
    let entries = vec![
        BeneficiaryEntry { address: a, bps: 3_333 },
        BeneficiaryEntry { address: b, bps: 3_333 },
        BeneficiaryEntry { address: d, bps: 3_334 },
    ];
    assert_eq!(s.c.set_beneficiaries(vault_id, entries).result, Ok(()));
    let out = s.c.deposit(vault_id, s.owner, 1_000, 10);
    s.ledger.apply(&out);
    let out = s.c.trigger_release(vault_id, 150);
    assert_eq!(out.result, Ok(()));
    s.ledger.apply(&out);
    // 1000 * 3333 / 10000 = 333 (rounded down), twice; the last takes 334.
    assert_eq!(s.ledger.balance(a), 333);
    assert_eq!(s.ledger.balance(b), 333);
    assert_eq!(s.ledger.balance(d), 334);
    assert_eq!(s.ledger.vault_holdings, 0);
    assert_eq!(s.c.get_vault(vault_id).unwrap().balance, 0);
    assert_eq!(out.events.len(), 3);
}

#[test]
fn set_beneficiaries_requires_a_whole_split() {
    let mut s = setup();
    let vault_id = s.c.create_vault(s.owner, s.beneficiary, 100, 0).result.unwrap();
    let short = vec![BeneficiaryEntry { address: account(30), bps: 9_999 }];
    assert_eq!(s.c.set_beneficiaries(vault_id, short).result, Err(contract_err(ContractError::InvalidBps)));
    assert_eq!(s.c.set_beneficiaries(vault_id, Vec::new()).result, Err(contract_err(ContractError::InvalidBps)));
    let huge = vec![
        BeneficiaryEntry { address: account(30), bps: u32::MAX },
        BeneficiaryEntry { address: account(31), bps: 10_001 },
    ];
    assert_eq!(s.c.set_beneficiaries(vault_id, huge).result, Err(contract_err(ContractError::InvalidBps)));
    assert!(s.c.get_vault(vault_id).unwrap().beneficiaries.is_empty());
    assert_eq!(ContractError::InvalidBps.code(), 12);
}

#[test]
fn release_before_expiry_is_refused() {
    let mut s = setup();
    let vault_id = s.c.create_vault(s.owner, s.beneficiary, 100, 10).result.unwrap();
    assert_eq!(s.c.deposit(vault_id, s.owner, 5, 10).result, Ok(()));
    assert_eq!(s.c.is_expired(vault_id, 109), Ok(false));
    assert_eq!(s.c.is_expired(vault_id, 110), Ok(true));
    assert_eq!(s.c.trigger_release(vault_id, 109).result, Err(contract_err(ContractError::NotExpired)));
    assert_eq!(s.c.trigger_release(vault_id, 110).result, Ok(()));
    assert_eq!(s.c.trigger_release(vault_id, 110).result, Err(contract_err(ContractError::AlreadyReleased)));
}

#[test]
fn check_in_by_non_owner_is_refused() {
    let mut s = setup();
    let vault_id = s.c.create_vault(s.owner, s.beneficiary, 100, 0).result.unwrap();
    let out = s.c.check_in(vault_id, s.beneficiary, 50);
    assert_eq!(out.result, Err(contract_err(ContractError::NotOwner)));
    assert_eq!(out.calls, vec![HostCall::RequireAuth(s.beneficiary)]);
    let out = s.c.check_in(vault_id, s.owner, 50);
    assert_eq!(out.result, Ok(()));
    assert_eq!(out.events, vec![Event::CheckIn { vault_id, at: 50 }]);
    assert_eq!(s.c.get_ttl_remaining(vault_id, 50), Ok(Some(100)));
}

#[test]
fn missing_vaults_are_reported() {
    let mut s = setup();
    let not_found = Err(contract_err(ContractError::VaultNotFound));
    assert_eq!(s.c.deposit(1, s.owner, 5, 0).result, not_found);
    assert_eq!(s.c.withdraw(1, 5).result, not_found);
    assert_eq!(s.c.is_expired(1, 0), Err(contract_err(ContractError::VaultNotFound)));
    assert!(s.c.get_vault(1).is_err());
    assert_eq!(s.c.get_ttl_remaining(1, 0), Ok(None));
    assert_eq!(s.c.ping_expiry(1, 0).result, Err(contract_err(ContractError::VaultNotFound)));
    assert_eq!(ContractError::VaultNotFound.code(), 3);
}

#[test]
fn withdraw_checks_amount_and_balance() {
    let mut s = setup();
    let vault_id = s.c.create_vault(s.owner, s.beneficiary, 100, 0).result.unwrap();
    assert_eq!(s.c.withdraw(vault_id, 0).result, Err(contract_err(ContractError::InvalidAmount)));
    assert_eq!(s.c.deposit(vault_id, s.owner, -5, 0).result, Err(contract_err(ContractError::InvalidAmount)));
    assert_eq!(s.c.withdraw(vault_id, 1).result, Err(contract_err(ContractError::InsufficientBalance)));
    assert_eq!(ContractError::InsufficientBalance.code(), 8);
    assert_eq!(ContractError::InvalidAmount.code(), 5);
}

#[test]
fn accept_admin_without_proposal_is_refused() {
    let mut s = setup();
    assert_eq!(s.c.accept_admin().result, Err(contract_err(ContractError::NoPendingAdmin)));
    assert_eq!(ContractError::NoPendingAdmin.code(), 11);
}

#[test]
fn huge_interval_overflows_the_deadline() {
    let mut s = setup();
    let vault_id = s.c.create_vault(s.owner, s.beneficiary, u64::MAX, 5).result.unwrap();
    assert_eq!(s.c.is_expired(vault_id, 5), Err(Failure::ArithmeticOverflow));
    assert_eq!(s.c.deposit(vault_id, s.owner, 1, 5).result, Err(Failure::ArithmeticOverflow));
}

#[test]
fn deposit_overflowing_the_balance_is_refused_after_collecting() {
    let mut s = setup();
    let vault_id = s.c.create_vault(s.owner, s.beneficiary, 100, 0).result.unwrap();
    assert_eq!(s.c.deposit(vault_id, s.owner, i128::MAX, 0).result, Ok(()));
    let out = s.c.deposit(vault_id, s.owner, 1, 0);
    assert_eq!(out.result, Err(contract_err(ContractError::BalanceOverflow)));
    assert_eq!(out.calls.len(), 2);
    assert_eq!(s.c.get_vault(vault_id).unwrap().balance, i128::MAX);
}

#[test]
fn operations_before_initialization_lack_the_token() {
    let mut c = TtlVaultContract::new();
    let owner = account(1);
    let vault_id = c.create_vault(owner, account(2), 100, 0).result.unwrap();
    assert_eq!(c.deposit(vault_id, owner, 10, 0).result, Err(contract_err(ContractError::VaultNotFound)));
    assert_eq!(c.get_contract_token(), Err(contract_err(ContractError::VaultNotFound)));
    assert_eq!(c.get_admin(), Err(contract_err(ContractError::VaultNotFound)));
    assert_eq!(c.pause().result, Err(contract_err(ContractError::VaultNotFound)));
}
