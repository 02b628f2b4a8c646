use ttl_vault::index::paginate;
use ttl_vault::registry::TtlVaultContract;
use ttl_vault::storage_ttl::{vault_ttl_ledgers, MAX_PERSISTENT_TTL, VAULT_TTL_LEDGERS};
use ttl_vault::types::{Address, BeneficiaryEntry, ContractError, Failure, HostCall, IndexRecord, Outcome, ReleaseStatus};

fn account(n: u128) -> Address {
    Address { is_contract: false, key_hi: 0, key_lo: n }
}

fn ready() -> (TtlVaultContract, Address, Address) {
    let mut c = TtlVaultContract::new();
    c.initialize(Address { is_contract: true, key_hi: 1, key_lo: 1 }, account(100));
    (c, account(1), account(2))
}

fn net_flow<T>(out: &Outcome<T>) -> i128 {
    let mut net = 0;
    for call in out.calls.iter() {
        match *call {
            HostCall::CollectTokens { amount, .. } => net += amount,
            HostCall::PayTokens { amount, .. } => net -= amount,
            _ => {},
        }
    }
    net
}

fn funds(c: &TtlVaultContract) -> i128 {
    c.vaults.iter().map(|v| v.balance).sum()
}

#[test]
fn vault_ttl_ledgers_exact_values() {
    // 2 * 1_000_000 s / 5 s per ledger = 400_000 ledgers.
    assert_eq!(vault_ttl_ledgers(1_000_000), 400_000);
    // Short intervals are raised to the floor.
    assert_eq!(vault_ttl_ledgers(100), VAULT_TTL_LEDGERS);
    assert_eq!(vault_ttl_ledgers(0), 200_000);
    // Long intervals are capped.
    assert_eq!(vault_ttl_ledgers(100_000_000), MAX_PERSISTENT_TTL);
    // Right at the cap: 2 * 7_776_000 / 5 = 3_110_400.
    assert_eq!(vault_ttl_ledgers(7_776_000), 3_110_400);
    assert_eq!(vault_ttl_ledgers(7_775_995), 3_110_398);
    // Very long intervals stay at the cap, whatever their size.
    assert_eq!(vault_ttl_ledgers(3_000_000_000), 3_110_400);
    assert_eq!(vault_ttl_ledgers((1u64 << 32) - 1), 3_110_400);
    assert_eq!(vault_ttl_ledgers(1u64 << 32), 3_110_400);
    assert_eq!(vault_ttl_ledgers((1u64 << 32) + 1_000_000), 3_110_400);
    assert_eq!(vault_ttl_ledgers(u64::MAX), 3_110_400);
}

#[test]
fn storage_ttl_never_shrinks_as_the_interval_grows() {
    let samples = [0u64, 1, 499_999, 500_000, 500_001, 1_000_000, 7_775_999, 7_776_000, 1 << 32, u64::MAX];
    for pair in samples.windows(2) {
        assert!(vault_ttl_ledgers(pair[0]) <= vault_ttl_ledgers(pair[1]));
    }
}

#[test]
fn paginate_exact_pages() {
    let all: Vec<u64> = (1..=7).collect();
    assert_eq!(paginate(&all, 0, 3), vec![1, 2, 3]);
    assert_eq!(paginate(&all, 1, 3), vec![4, 5, 6]);
    assert_eq!(paginate(&all, 2, 3), vec![7]);
    assert_eq!(paginate(&all, 3, 3), Vec::<u64>::new());
    assert_eq!(paginate(&all, 0, 0), Vec::<u64>::new());
    assert_eq!(paginate(&all, u32::MAX, u32::MAX), Vec::<u64>::new());
}

#[test]
fn funds_follow_the_token_flows() {
    let (mut c, owner, beneficiary) = ready();
    let id1 = c.create_vault(owner, beneficiary, 100, 0).result.unwrap();
    let id2 = c.create_vault(owner, beneficiary, 100, 0).result.unwrap();
    let mut expected = 0;
    let out = c.deposit(id1, owner, 700, 0);
    expected += net_flow(&out);
    assert_eq!(funds(&c), expected);
    let out = c.batch_deposit(owner, vec![(id1, 10), (id2, 20)]);
    expected += net_flow(&out);
    assert_eq!(funds(&c), expected);
    let out = c.withdraw(id1, 5);
    expected += net_flow(&out);
    assert_eq!(funds(&c), expected);
    let out = c.partial_release(id2, 7);
    expected += net_flow(&out);
    assert_eq!(funds(&c), expected);
    let out = c.trigger_release(id1, 100);
    expected += net_flow(&out);
    assert_eq!(funds(&c), expected);
    let out = c.cancel_vault(id2);
    expected += net_flow(&out);
    assert_eq!(funds(&c), expected);
    assert_eq!(expected, 0);
}

#[test]
fn batch_with_repeated_vault_credits_every_item() {
    let (mut c, owner, beneficiary) = ready();
    let id = c.create_vault(owner, beneficiary, 100, 0).result.unwrap();
    let other = c.create_vault(owner, beneficiary, 100, 0).result.unwrap();
    c.deposit(id, owner, 7, 0);
    let out = c.batch_deposit(owner, vec![(id, 100), (other, 5), (id, 50)]);
    assert_eq!(out.result, Ok(()));
    assert_eq!(net_flow(&out), 155);
    assert_eq!(c.get_vault(id).unwrap().balance, 157);
    assert_eq!(c.get_vault(other).unwrap().balance, 5);
}

#[test]
fn batch_overflowing_a_vault_on_its_second_item_changes_nothing() {
    let (mut c, owner, beneficiary) = ready();
    let id = c.create_vault(owner, beneficiary, 100, 0).result.unwrap();
    let half = i128::MAX / 2 + 1;
    let out = c.batch_deposit(owner, vec![(id, half), (id, half - 1)]);
    assert_eq!(out.result, Ok(()));
    assert_eq!(c.get_vault(id).unwrap().balance, i128::MAX);
    let out = c.batch_deposit(owner, vec![(id, 1)]);
    assert_eq!(out.result, Err(Failure::Contract(ContractError::BalanceOverflow)));
    assert_eq!(c.get_vault(id).unwrap().balance, i128::MAX);
}

#[test]
fn closed_vaults_do_not_change() {
    let (mut c, owner, beneficiary) = ready();
    let id = c.create_vault(owner, beneficiary, 100, 0).result.unwrap();
    c.deposit(id, owner, 40, 0);
    assert_eq!(c.cancel_vault(id).result, Ok(()));
    let closed = Err(Failure::Contract(ContractError::AlreadyReleased));
    assert_eq!(c.deposit(id, owner, 1, 0).result, closed);
    assert_eq!(c.check_in(id, owner, 1).result, closed);
    assert_eq!(c.withdraw(id, 1).result, closed);
    assert_eq!(c.update_beneficiary(id, account(3)).result, closed);
    assert_eq!(c.update_check_in_interval(id, 5).result, closed);
    assert_eq!(c.transfer_ownership(id, account(3)).result, closed);
    assert_eq!(c.trigger_release(id, 1_000).result, closed);
    assert_eq!(c.batch_deposit(owner, vec![(id, 1)]).result, closed);
    let entries = vec![BeneficiaryEntry { address: account(3), bps: 10_000 }];
    assert_eq!(c.set_beneficiaries(id, entries).result, closed);
    let v = c.get_vault(id).unwrap();
    assert_eq!(v.status, ReleaseStatus::Cancelled);
    assert_eq!(v.balance, 0);
    assert_eq!(v.owner, owner);
}

#[test]
fn withdraw_restores_the_vault_after_deposit() {
    let (mut c, owner, beneficiary) = ready();
    let id = c.create_vault(owner, beneficiary, 100, 0).result.unwrap();
    c.deposit(id, owner, 30, 0);
    c.deposit(id, owner, 12, 1);
    assert_eq!(c.withdraw(id, 12).result, Ok(()));
    assert_eq!(c.get_vault(id).unwrap().balance, 30);
}

#[test]
fn pause_blocks_every_state_change_it_covers() {
    let (mut c, owner, beneficiary) = ready();
    let id = c.create_vault(owner, beneficiary, 100, 0).result.unwrap();
    c.pause();
    let paused = Err(Failure::Contract(ContractError::Paused));
    assert_eq!(c.batch_deposit(owner, vec![(id, 1)]).result, paused);
    assert_eq!(c.partial_release(id, 1).result, paused);
    assert_eq!(c.cancel_vault(id).result, paused);
    assert_eq!(c.transfer_ownership(id, account(3)).result, paused);
    assert_eq!(c.update_check_in_interval(id, 50).result, paused);
    assert_eq!(c.deposit(id, owner, 1, 0).calls, Vec::<HostCall>::new());
}

#[test]
fn owner_index_follows_transfers_in_order() {
    let (mut c, a, b) = ready();
    let d = account(3);
    let id1 = c.create_vault(a, d, 100, 0).result.unwrap();
    let id2 = c.create_vault(b, d, 100, 0).result.unwrap();
    c.transfer_ownership(id1, b);
    // The transferred vault comes after the vaults `b` already held.
    assert_eq!(c.get_vaults_by_owner(b, 0, 10), vec![id2, id1]);
    assert_eq!(c.get_vaults_by_owner(a, 0, 10), Vec::<u64>::new());
    // Transferring to the current owner changes nothing.
    c.transfer_ownership(id2, b);
    assert_eq!(c.get_vaults_by_owner(b, 0, 10), vec![id2, id1]);
    assert_eq!(c.get_vaults_by_owner(b, 1, 1), vec![id1]);
}

#[test]
fn beneficiary_index_follows_beneficiary_updates() {
    let (mut c, owner, beneficiary) = ready();
    let id = c.create_vault(owner, beneficiary, 100, 0).result.unwrap();
    let later = c.create_vault(owner, account(9), 100, 0).result.unwrap();
    assert_eq!(c.update_beneficiary(id, account(9)).result, Ok(()));
    assert_eq!(c.get_vaults_by_beneficiary(beneficiary, 0, 10), Vec::<u64>::new());
    assert_eq!(c.get_vaults_by_beneficiary(account(9), 0, 10), vec![later, id]);
    // Naming the same beneficiary again changes nothing.
    assert_eq!(c.update_beneficiary(id, account(9)).result, Ok(()));
    assert_eq!(c.get_vaults_by_beneficiary(account(9), 0, 10), vec![later, id]);
    assert!(c.is_well_formed());
}

#[test]
fn well_formedness_check_spots_broken_state() {
    let (mut c, owner, beneficiary) = ready();
    let id = c.create_vault(owner, beneficiary, 100, 0).result.unwrap();
    assert!(c.is_well_formed());
    let mut broken = c.beneficiary_index.clone();
    broken.push(broken[0]);
    let saved = std::mem::replace(&mut c.beneficiary_index, broken);
    assert!(!c.is_well_formed());
    c.beneficiary_index = saved;
    c.owner_index.clear();
    assert!(!c.is_well_formed());
    c.owner_index.push(IndexRecord { address: owner, vault_id: id });
    assert!(c.is_well_formed());
    c.vaults[0].balance = -1;
    assert!(!c.is_well_formed());
}

#[test]
fn set_beneficiaries_is_not_blocked_by_pause() {
    let (mut c, owner, beneficiary) = ready();
    let id = c.create_vault(owner, beneficiary, 100, 0).result.unwrap();
    c.pause();
    let entries = vec![BeneficiaryEntry { address: account(3), bps: 10_000 }];
    assert_eq!(c.set_beneficiaries(id, entries).result, Ok(()));
    assert_eq!(c.update_metadata(id, vec![1, 2]).result, Ok(()));
}

#[test]
fn release_only_pays_and_needs_no_authorization() {
    let (mut c, owner, beneficiary) = ready();
    let id = c.create_vault(owner, beneficiary, 100, 0).result.unwrap();
    c.deposit(id, owner, 90, 0);
    let entries = vec![
        BeneficiaryEntry { address: account(5), bps: 5_000 },
        BeneficiaryEntry { address: account(6), bps: 5_000 },
    ];
    c.set_beneficiaries(id, entries);
    let out = c.trigger_release(id, 100);
    assert_eq!(out.result, Ok(()));
    assert!(out.calls.iter().all(|call| matches!(call, HostCall::PayTokens { .. })));
    assert_eq!(out.calls.len(), 2);
    assert_eq!(net_flow(&out), -90);
}

#[test]
fn owner_operations_ask_the_owner_first() {
    let (mut c, owner, beneficiary) = ready();
    let id = c.create_vault(owner, beneficiary, 100, 0).result.unwrap();
    c.deposit(id, owner, 50, 0);
    let first = HostCall::RequireAuth(owner);
    assert_eq!(c.withdraw(id, 1).calls[0], first);
    assert_eq!(c.partial_release(id, 1).calls[0], first);
    assert_eq!(c.update_metadata(id, vec![7]).calls[0], first);
    assert_eq!(c.update_beneficiary(id, account(4)).calls[0], first);
    assert_eq!(c.update_check_in_interval(id, 60).calls[0], first);
    assert_eq!(c.cancel_vault(id).calls[0], first);
}

#[test]
fn second_initialize_changes_nothing() {
    let (mut c, _, _) = ready();
    let out = c.initialize(account(50), account(51));
    assert_eq!(out.result, Err(Failure::Contract(ContractError::AlreadyInitialized)));
    assert_eq!(c.get_admin(), Ok(account(100)));
}

#[test]
fn zero_share_entries_get_no_payment_but_an_event() {
    let (mut c, owner, beneficiary) = ready();
    let id = c.create_vault(owner, beneficiary, 100, 0).result.unwrap();
    c.deposit(id, owner, 3, 0);
    let entries = vec![
        BeneficiaryEntry { address: account(5), bps: 1 },
        BeneficiaryEntry { address: account(6), bps: 9_999 },
    ];
    c.set_beneficiaries(id, entries);
    let out = c.trigger_release(id, 100);
    // 3 * 1 / 10000 rounds down to 0: no payment for the first entry.
    assert_eq!(out.calls.len(), 1);
    assert_eq!(out.events.len(), 2);
    assert_eq!(net_flow(&out), -3);
}

#[test]
fn a_page_as_large_as_the_vault_count_holds_a_whole_list() {
    let (mut c, owner, beneficiary) = ready();
    let mut ids = Vec::new();
    for _ in 0..5 {
        ids.push(c.create_vault(owner, beneficiary, 100, 0).result.unwrap());
    }
    let n = c.vault_count() as u32;
    assert_eq!(c.get_vaults_by_owner(owner, 0, n), ids);
    assert_eq!(c.get_vaults_by_beneficiary(beneficiary, 0, n), ids);
    assert_eq!(c.update_beneficiary(ids[1], account(9)).result, Ok(()));
    assert_eq!(c.get_vaults_by_beneficiary(account(9), 0, n), vec![ids[1]]);
    assert!(!c.get_vaults_by_beneficiary(beneficiary, 0, n).contains(&ids[1]));
    assert_eq!(c.get_vaults_by_beneficiary(beneficiary, 0, n).len(), 4);
}

#[test]
fn configuration_changes_keep_the_registry_well_formed() {
    let (mut c, owner, beneficiary) = ready();
    c.create_vault(owner, beneficiary, 100, 0);
    c.pause();
    c.unpause();
    c.set_min_check_in_interval(10);
    c.set_max_check_in_interval(1_000);
    c.propose_admin(account(7));
    c.accept_admin();
    assert_eq!(c.get_admin(), Ok(account(7)));
    assert!(c.is_well_formed());
}
