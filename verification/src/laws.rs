//! Properties of the vault registry that span its operations.
use vstd::prelude::*;
use crate::types::{Address, BeneficiaryEntry, ContractError, Event, Failure, HostCall, IndexRecord, ReleaseEvent, ReleaseStatus, VaultView, WasmHash};
use crate::release::{lemma_share_bound, lemma_shares_before_within_total, payout_calls, release_shares, shares_before};
use crate::index::{ids_of, page_of, lemma_distinct_ids_bounded, lemma_ids_of_contains, lemma_ids_of_distinct, lemma_ids_of_push, lemma_ids_of_without, without_id, without_record};
use crate::storage_ttl::ttl_ledgers_for;
use crate::model::{
    accept_admin_step, initialize_step, batch_credit, lemma_batch_credit, only_balance_differs, party, valid_item, set_beneficiaries_step, update_metadata_step, lemma_batch_total_ok,
    bps_total, auth, batch_deposit_step, batch_total, cancel_vault_step, check_in_step,
    create_vault_step, deadline, deposit_step, expired, partial_release_step, propose_admin_step,
    set_max_interval_step, set_min_interval_step, set_paused_step, transfer_ownership_step,
    trigger_release_step, ttl_remaining, ping_expiry_step, update_check_in_interval_step, update_beneficiary_step,
    upgrade_step, vault_wf, lemma_update_beneficiary_wf, withdraw_step, ContractView, Step,
};

verus! {

/// While the contract is paused, check-ins, deposits (single or batched),
/// withdrawals, partial releases, releases, interval updates, cancellations
/// and ownership transfers all fail with `Paused`, before any host call and
/// without changing anything.
pub proof fn law_pause_blocks_operations(
    c: ContractView,
    id: u64,
    who: Address,
    amount: i128,
    now: u64,
    interval: u64,
    deposits: Seq<(u64, i128)>,
)
    requires
        c.paused,
    ensures
        blocked(c, check_in_step(c, id, who, now)),
        blocked(c, deposit_step(c, id, who, amount, now)),
        blocked(c, batch_deposit_step(c, who, deposits)),
        blocked(c, withdraw_step(c, id, amount)),
        blocked(c, partial_release_step(c, id, amount)),
        blocked(c, trigger_release_step(c, id, now)),
        blocked(c, update_check_in_interval_step(c, id, interval)),
        blocked(c, cancel_vault_step(c, id)),
        blocked(c, transfer_ownership_step(c, id, who)),
{
}

/// `s` failed with `Paused` before any host call, leaving `c` as it was.
pub open spec fn blocked(c: ContractView, s: Step<()>) -> bool {
    &&& s.result == Err::<(), Failure>(Failure::Contract(ContractError::Paused))
    &&& s.calls.len() == 0
    &&& s.post == c
}

/// Pausing, unpausing, setting the interval bounds, upgrading and proposing a
/// new admin succeed only for an initialized contract, and only after the
/// admin has authorized (their first host call).
pub proof fn law_admin_operations_need_the_admin(c: ContractView, x: u64, new_admin: Address, paused: bool, wasm_hash: WasmHash)
    ensures
        set_paused_step(c, paused).result is Ok ==> admin_authorized(c, set_paused_step(c, paused)),
        set_min_interval_step(c, x).result is Ok ==> admin_authorized(c, set_min_interval_step(c, x)),
        set_max_interval_step(c, x).result is Ok ==> admin_authorized(c, set_max_interval_step(c, x)),
        upgrade_step(c, wasm_hash).result is Ok ==> admin_authorized(c, upgrade_step(c, wasm_hash)),
        propose_admin_step(c, new_admin).result is Ok ==> admin_authorized(c, propose_admin_step(c, new_admin)),
{
}

/// The first host call of `s` is the authorization of the admin of `c`.
pub open spec fn admin_authorized(c: ContractView, s: Step<()>) -> bool {
    &&& c.admin is Some
    &&& s.calls.len() > 0
    &&& s.calls[0] == auth(c.admin->0)
}

/// The contract is initialized once: after a successful `initialize`, every
/// further `initialize` fails with `AlreadyInitialized` and changes nothing.
pub proof fn law_initialize_only_once(c: ContractView, token: Address, admin: Address, token2: Address, admin2: Address)
    requires
        initialize_step(c, token, admin).result is Ok,
    ensures
        ({
            let d = initialize_step(c, token, admin).post;
            &&& d.token == Some(token)
            &&& d.admin == Some(admin)
            &&& !d.paused
            &&& initialize_step(d, token2, admin2).result == Err::<(), Failure>(Failure::Contract(ContractError::AlreadyInitialized))
            &&& initialize_step(d, token2, admin2).post == d
        }),
{
}

/// Operations reserved to a vault's owner succeed only after the owner has
/// authorized: it is their first host call. A transfer of ownership also
/// needs the new owner's authorization, right after.
pub proof fn law_owner_operations_need_the_owner(
    c: ContractView,
    id: u64,
    amount: i128,
    who: Address,
    interval: u64,
    entries: Seq<BeneficiaryEntry>,
    metadata: Seq<u8>,
)
    ensures
        withdraw_step(c, id, amount).result is Ok ==> owner_authorized_first(c, id, withdraw_step(c, id, amount)),
        partial_release_step(c, id, amount).result is Ok ==> owner_authorized_first(c, id, partial_release_step(c, id, amount)),
        set_beneficiaries_step(c, id, entries).result is Ok ==> owner_authorized_first(c, id, set_beneficiaries_step(c, id, entries)),
        update_metadata_step(c, id, metadata).result is Ok ==> owner_authorized_first(c, id, update_metadata_step(c, id, metadata)),
        update_beneficiary_step(c, id, who).result is Ok ==> owner_authorized_first(c, id, update_beneficiary_step(c, id, who)),
        update_check_in_interval_step(c, id, interval).result is Ok ==> owner_authorized_first(c, id, update_check_in_interval_step(c, id, interval)),
        cancel_vault_step(c, id).result is Ok ==> owner_authorized_first(c, id, cancel_vault_step(c, id)),
        check_in_step(c, id, who, interval).result is Ok ==> who == c.vault(id).owner && owner_authorized_first(c, id, check_in_step(c, id, who, interval)),
        transfer_ownership_step(c, id, who).result is Ok ==> transfer_ownership_step(c, id, who).calls == seq![auth(c.vault(id).owner), auth(who)],
{
}

/// The first host call of `s` is the authorization of the owner of vault `id`.
pub open spec fn owner_authorized_first(c: ContractView, id: u64, s: Step<()>) -> bool {
    &&& s.calls.len() > 0
    &&& s.calls[0] == auth(c.vault(id).owner)
}

/// Proposing an admin and having the proposed address accept hands the
/// contract over: the proposal (the latest one wins) becomes the admin after
/// authorizing, and nothing is pending any more.
pub proof fn law_admin_handover(c: ContractView, first: Address, second: Address)
    requires
        c.admin is Some,
    ensures
        ({
            let proposed = propose_admin_step(c, first).post;
            let accepted = accept_admin_step(proposed);
            &&& accepted.result is Ok
            &&& accepted.calls == seq![auth(first)]
            &&& accepted.post.admin == Some(first)
            &&& accepted.post.pending_admin is None
        }),
        ({
            let twice = propose_admin_step(propose_admin_step(c, first).post, second).post;
            let accepted = accept_admin_step(twice);
            &&& accepted.result is Ok
            &&& accepted.post.admin == Some(second)
            &&& accepted.post.pending_admin is None
        }),
{
}

/// Vault ids are handed out in sequence: a created vault gets the id one
/// above the count so far, the count grows by one, and the vault exists,
/// locked and empty, with the requested parties and interval.
pub proof fn law_vault_ids_are_sequential(c: ContractView, owner: Address, beneficiary: Address, interval: u64, now: u64)
    requires
        create_vault_step(c, owner, beneficiary, interval, now).result is Ok,
    ensures
        ({
            let s = create_vault_step(c, owner, beneficiary, interval, now);
            let id = s.result->Ok_0;
            &&& id == c.vault_count() + 1
            &&& s.post.vault_count() == c.vault_count() + 1
            &&& s.post.has_vault(id)
            &&& !c.has_vault(id)
            &&& s.post.vault(id).owner == owner
            &&& s.post.vault(id).beneficiary == beneficiary
            &&& s.post.vault(id).check_in_interval == interval
            &&& s.post.vault(id).balance == 0
            &&& s.post.vault(id).status == ReleaseStatus::Locked
            &&& forall|k: u64| #[trigger] c.has_vault(k) ==> s.post.vault(k) == c.vault(k)
        }),
{
    let s = create_vault_step(c, owner, beneficiary, interval, now);
    assert forall|k: u64| #[trigger] c.has_vault(k) implies s.post.vault(k) == c.vault(k) by {
        assert(s.post.vaults[k - 1] == c.vaults[k - 1]);
    }
}

/// In a well-formed registry the vaults listed under an address are exactly
/// the vaults it owns, each listed once.
pub proof fn law_owner_index_lists_owned_vaults(c: ContractView, a: Address, id: u64)
    requires
        c.wf(),
    ensures
        ids_of(c.owner_index, a).contains(id) <==> (c.has_vault(id) && c.vault(id).owner == a),
        ids_of(c.owner_index, a).no_duplicates(),
{
    lemma_ids_of_contains(c.owner_index, a, id);
    lemma_ids_of_distinct(c.owner_index, a);
    if c.has_vault(id) && c.vault(id).owner == a {
        let i = choose|i: int| 0 <= i < c.owner_index.len() && #[trigger] c.owner_index[i].vault_id == id;
        let r = c.owner_index[i];
        assert(c.has_vault(r.vault_id) && c.vault(r.vault_id).owner == r.address);
        assert(c.owner_index[i] == (IndexRecord { address: a, vault_id: id }));
    }
    if ids_of(c.owner_index, a).contains(id) {
        let i = choose|i: int| 0 <= i < c.owner_index.len() && #[trigger] c.owner_index[i] == (IndexRecord { address: a, vault_id: id });
        let r = c.owner_index[i];
        assert(c.has_vault(r.vault_id) && c.vault(r.vault_id).owner == r.address);
    }
}

/// Transferring a vault moves its id from the old owner's list to the end
/// of the new owner's list; every other list stays as it was.
pub proof fn law_transfer_moves_vault_between_owner_lists(c: ContractView, id: u64, new_owner: Address, a: Address)
    requires
        transfer_ownership_step(c, id, new_owner).result is Ok,
        c.vault(id).owner != new_owner,
    ensures
        ({
            let old_owner = c.vault(id).owner;
            let after = transfer_ownership_step(c, id, new_owner).post.owner_index;
            &&& ids_of(after, old_owner) == without_id(ids_of(c.owner_index, old_owner), id)
            &&& ids_of(after, new_owner) == ids_of(c.owner_index, new_owner).push(id)
            &&& (a != old_owner && a != new_owner ==> ids_of(after, a) == ids_of(c.owner_index, a))
        }),
{
    let old_owner = c.vault(id).owner;
    let kept = without_record(c.owner_index, old_owner, id);
    let rec = IndexRecord { address: new_owner, vault_id: id };
    lemma_ids_of_push(kept, rec, old_owner);
    lemma_ids_of_push(kept, rec, new_owner);
    lemma_ids_of_push(kept, rec, a);
    lemma_ids_of_without(c.owner_index, old_owner, id, old_owner);
    lemma_ids_of_without(c.owner_index, old_owner, id, new_owner);
    lemma_ids_of_without(c.owner_index, old_owner, id, a);
}

/// Creation appends the new vault's id under the beneficiary named then; no
/// other beneficiary list changes.
pub proof fn law_beneficiary_index_grows_at_creation(c: ContractView, owner: Address, beneficiary: Address, interval: u64, now: u64, b: Address)
    requires
        create_vault_step(c, owner, beneficiary, interval, now).result is Ok,
    ensures
        ({
            let s = create_vault_step(c, owner, beneficiary, interval, now);
            ids_of(s.post.beneficiary_index, b) == if b == beneficiary {
                ids_of(c.beneficiary_index, b).push(s.result->Ok_0)
            } else {
                ids_of(c.beneficiary_index, b)
            }
        }),
{
    let s = create_vault_step(c, owner, beneficiary, interval, now);
    lemma_ids_of_push(c.beneficiary_index, IndexRecord { address: beneficiary, vault_id: s.result->Ok_0 }, b);
}

/// In a well-formed registry the vaults listed under an address as
/// beneficiary are exactly the vaults whose primary beneficiary it is, each
/// listed once.
pub proof fn law_beneficiary_index_lists_named_vaults(c: ContractView, a: Address, id: u64)
    requires
        c.wf(),
    ensures
        ids_of(c.beneficiary_index, a).contains(id) <==> (c.has_vault(id) && c.vault(id).beneficiary == a),
        ids_of(c.beneficiary_index, a).no_duplicates(),
{
    lemma_ids_of_contains(c.beneficiary_index, a, id);
    lemma_ids_of_distinct(c.beneficiary_index, a);
    if c.has_vault(id) && c.vault(id).beneficiary == a {
        let i = choose|i: int| 0 <= i < c.beneficiary_index.len() && #[trigger] c.beneficiary_index[i].vault_id == id;
        let r = c.beneficiary_index[i];
        assert(c.has_vault(r.vault_id) && party(c.vault(r.vault_id), false) == r.address);
        assert(c.beneficiary_index[i] == (IndexRecord { address: a, vault_id: id }));
    }
    if ids_of(c.beneficiary_index, a).contains(id) {
        let i = choose|i: int| 0 <= i < c.beneficiary_index.len() && #[trigger] c.beneficiary_index[i] == (IndexRecord { address: a, vault_id: id });
        let r = c.beneficiary_index[i];
        assert(c.has_vault(r.vault_id) && party(c.vault(r.vault_id), false) == r.address);
    }
}

/// In a well-formed registry no owner or beneficiary list is longer than
/// the number of vaults, so a first page at least that large holds the whole
/// list.
pub proof fn law_one_page_holds_a_whole_list(c: ContractView, a: Address, page_size: u32)
    requires
        c.wf(),
        page_size >= c.vault_count(),
    ensures
        ids_of(c.owner_index, a).len() <= c.vault_count(),
        ids_of(c.beneficiary_index, a).len() <= c.vault_count(),
        page_of(ids_of(c.owner_index, a), 0, page_size) == ids_of(c.owner_index, a),
        page_of(ids_of(c.beneficiary_index, a), 0, page_size) == ids_of(c.beneficiary_index, a),
{
    lemma_list_within_vault_count(c, c.owner_index, true, a);
    lemma_list_within_vault_count(c, c.beneficiary_index, false, a);
    let owned = ids_of(c.owner_index, a);
    let named = ids_of(c.beneficiary_index, a);
    assert(owned.subrange(0, owned.len() as int) =~= owned);
    assert(named.subrange(0, named.len() as int) =~= named);
}

proof fn lemma_list_within_vault_count(c: ContractView, index: Seq<IndexRecord>, by_owner: bool, a: Address)
    requires
        c.indexes_each_vault_once(index, by_owner),
    ensures
        ids_of(index, a).len() <= c.vault_count(),
{
    let ids = ids_of(index, a);
    lemma_ids_of_distinct(index, a);
    assert forall|k: int| 0 <= k < ids.len() implies 1 <= #[trigger] ids[k] <= c.vault_count() by {
        assert(ids.contains(ids[k]));
        lemma_ids_of_contains(index, a, ids[k]);
        let i = choose|i: int| 0 <= i < index.len() && #[trigger] index[i] == (IndexRecord { address: a, vault_id: ids[k] });
        assert(c.has_vault(index[i].vault_id));
    }
    lemma_distinct_ids_bounded(ids, c.vault_count());
}

/// After a beneficiary update, a first page at least as large as the number
/// of vaults lists the vault under its new beneficiary and no longer under
/// its old one.
pub proof fn law_update_beneficiary_pages(c: ContractView, id: u64, new_beneficiary: Address, page_size: u32)
    requires
        c.wf(),
        update_beneficiary_step(c, id, new_beneficiary).result is Ok,
        c.vault(id).beneficiary != new_beneficiary,
        page_size >= c.vault_count(),
    ensures
        ({
            let post = update_beneficiary_step(c, id, new_beneficiary).post;
            &&& post.vault(id) == VaultView { beneficiary: new_beneficiary, ..c.vault(id) }
            &&& page_of(ids_of(post.beneficiary_index, new_beneficiary), 0, page_size).contains(id)
            &&& !page_of(ids_of(post.beneficiary_index, c.vault(id).beneficiary), 0, page_size).contains(id)
        }),
{
    let post = update_beneficiary_step(c, id, new_beneficiary).post;
    lemma_update_beneficiary_wf(c, id, new_beneficiary);
    assert(post.vault_count() == c.vault_count());
    law_one_page_holds_a_whole_list(post, new_beneficiary, page_size);
    law_one_page_holds_a_whole_list(post, c.vault(id).beneficiary, page_size);
    law_beneficiary_index_lists_named_vaults(post, new_beneficiary, id);
    law_beneficiary_index_lists_named_vaults(post, c.vault(id).beneficiary, id);
}

/// Changing a vault's beneficiary moves its id from the old beneficiary's
/// list to the end of the new beneficiary's list; every other list, and the
/// owner index, stay as they were.
pub proof fn law_update_beneficiary_moves_vault_between_lists(c: ContractView, id: u64, new_beneficiary: Address, a: Address)
    requires
        update_beneficiary_step(c, id, new_beneficiary).result is Ok,
        c.vault(id).beneficiary != new_beneficiary,
    ensures
        ({
            let old_beneficiary = c.vault(id).beneficiary;
            let post = update_beneficiary_step(c, id, new_beneficiary).post;
            let after = post.beneficiary_index;
            &&& post.vault(id).beneficiary == new_beneficiary
            &&& ids_of(after, old_beneficiary) == without_id(ids_of(c.beneficiary_index, old_beneficiary), id)
            &&& ids_of(after, new_beneficiary) == ids_of(c.beneficiary_index, new_beneficiary).push(id)
            &&& (a != old_beneficiary && a != new_beneficiary ==> ids_of(after, a) == ids_of(c.beneficiary_index, a))
            &&& post.owner_index == c.owner_index
        }),
{
    let old_beneficiary = c.vault(id).beneficiary;
    let kept = without_record(c.beneficiary_index, old_beneficiary, id);
    let rec = IndexRecord { address: new_beneficiary, vault_id: id };
    lemma_ids_of_push(kept, rec, old_beneficiary);
    lemma_ids_of_push(kept, rec, new_beneficiary);
    lemma_ids_of_push(kept, rec, a);
    lemma_ids_of_without(c.beneficiary_index, old_beneficiary, id, old_beneficiary);
    lemma_ids_of_without(c.beneficiary_index, old_beneficiary, id, new_beneficiary);
    lemma_ids_of_without(c.beneficiary_index, old_beneficiary, id, a);
}

/// A longer check-in interval never gets a shorter storage TTL.
pub proof fn law_storage_ttl_is_monotone(a: u64, b: u64)
    requires
        a <= b,
    ensures
        ttl_ledgers_for(a) <= ttl_ledgers_for(b),
{
    vstd::arithmetic::div_mod::lemma_div_is_ordered(2 * a as int, 2 * b as int, 5);
}

/// A released or cancelled vault holds no balance.
pub proof fn law_closed_vaults_are_empty(c: ContractView, id: u64)
    requires
        c.wf(),
        c.has_vault(id),
        c.vault(id).status != ReleaseStatus::Locked,
    ensures
        c.vault(id).balance == 0,
{
    assert(vault_wf(c.vaults[id - 1]));
}

/// A check-in restarts the countdown: right after it, a whole interval
/// remains (when the new deadline is a 64-bit timestamp) and the vault is
/// not expired.
pub proof fn law_check_in_restarts_countdown(c: ContractView, id: u64, owner: Address, now: u64)
    requires
        check_in_step(c, id, owner, now).result is Ok,
        now + c.vault(id).check_in_interval <= u64::MAX,
        c.wf(),
    ensures
        ttl_remaining(check_in_step(c, id, owner, now).post, id, now) == Ok::<Option<u64>, Failure>(Some(c.vault(id).check_in_interval)),
        expired(check_in_step(c, id, owner, now).post, id, now) == Ok::<bool, Failure>(false),
{
    assert(vault_wf(c.vaults[id - 1]));
}

/// Expiry, remaining time and release agree: an existing vault (with a
/// 64-bit deadline) has time remaining exactly when it has not expired, and
/// a release of a locked vault is refused with `NotExpired` exactly then.
pub proof fn law_expiry_is_consistent(c: ContractView, id: u64, now: u64)
    requires
        c.has_vault(id),
        deadline(c.vault(id)) <= u64::MAX,
        !c.paused,
        c.vault(id).status == ReleaseStatus::Locked,
    ensures
        expired(c, id, now) == Ok::<bool, Failure>(now >= deadline(c.vault(id))),
        (ttl_remaining(c, id, now) == Ok::<Option<u64>, Failure>(None)) <==> expired(c, id, now) == Ok::<bool, Failure>(true),
        (trigger_release_step(c, id, now).result == Err::<(), Failure>(Failure::Contract(ContractError::NotExpired)))
            <==> expired(c, id, now) == Ok::<bool, Failure>(false),
{
}

/// A withdrawal undoes a deposit: withdrawing what was just deposited
/// succeeds and restores the registry.
pub proof fn law_withdraw_undoes_deposit(c: ContractView, id: u64, from: Address, amount: i128, now: u64)
    requires
        c.wf(),
        deposit_step(c, id, from, amount, now).result is Ok,
    ensures
        withdraw_step(deposit_step(c, id, from, amount, now).post, id, amount).result is Ok,
        withdraw_step(deposit_step(c, id, from, amount, now).post, id, amount).post == c,
{
    let d = deposit_step(c, id, from, amount, now).post;
    let w = withdraw_step(d, id, amount).post;
    let v = c.vault(id);
    assert(vault_wf(c.vaults[id - 1]));
    assert(d.vault(id) == VaultView { balance: (v.balance + amount) as i128, ..v });
    let up = (v.balance + amount) as i128;
    assert(up == v.balance + amount);
    assert(d.vault(id).balance == up);
    assert(w.vault(id) == VaultView { balance: (up - amount) as i128, ..d.vault(id) });
    assert(w.vault(id).balance == v.balance);
    assert(w.vault(id) == v);
    assert(w.vaults =~= c.vaults);
}

/// Every vault that creation or an interval update accepts has an interval
/// that is positive and within the configured bounds.
pub proof fn law_intervals_within_bounds(c: ContractView, owner: Address, beneficiary: Address, interval: u64, now: u64, id: u64)
    ensures
        create_vault_step(c, owner, beneficiary, interval, now).result is Ok ==> within_bounds(c, interval),
        update_check_in_interval_step(c, id, interval).result is Ok ==> within_bounds(c, interval),
{
}

/// `interval` is positive and within the bounds that `c` sets.
pub open spec fn within_bounds(c: ContractView, interval: u64) -> bool {
    &&& interval > 0
    &&& c.min_interval is Some ==> c.min_interval->0 <= interval
    &&& c.max_interval is Some ==> interval <= c.max_interval->0
}

/// The owner is never the beneficiary of a vault that creation or a
/// beneficiary update accepts.
pub proof fn law_owner_is_not_beneficiary(c: ContractView, owner: Address, beneficiary: Address, interval: u64, now: u64, id: u64)
    ensures
        create_vault_step(c, owner, beneficiary, interval, now).result is Ok ==> owner != beneficiary,
        update_beneficiary_step(c, id, beneficiary).result is Ok ==> c.vault(id).owner != beneficiary,
{
}

/// A batch deposit is validated as a whole before any tokens move: when one
/// item is invalid the batch fails without collecting anything or changing
/// any vault.
pub proof fn law_batch_validates_before_collecting(c: ContractView, from: Address, deposits: Seq<(u64, i128)>)
    requires
        batch_total(c, deposits) is Err,
    ensures
        batch_deposit_step(c, from, deposits).result is Err,
        batch_deposit_step(c, from, deposits).post == c,
        forall|i: int| 0 <= i < batch_deposit_step(c, from, deposits).calls.len() ==>
            (#[trigger] batch_deposit_step(c, from, deposits).calls[i]) is RequireAuth,
{
}

/// Cancelling refunds the owner: the whole balance (if any) is paid back to
/// the owner and the vault ends cancelled and empty.
pub proof fn law_cancel_refunds_owner(c: ContractView, id: u64)
    requires
        cancel_vault_step(c, id).result is Ok,
    ensures
        ({
            let v = c.vault(id);
            let s = cancel_vault_step(c, id);
            &&& s.post.vault(id).status == ReleaseStatus::Cancelled
            &&& s.post.vault(id).balance == 0
            &&& v.balance > 0 ==> s.calls == seq![auth(v.owner), HostCall::PayTokens { token: c.token->0, to: v.owner, amount: v.balance }]
        }),
{
}


// ---- closed vaults ----

/// A closed (released or cancelled) vault `k` of `c` is still there, unchanged, in `post`.
pub open spec fn keeps_closed_vault(c: ContractView, post: ContractView, k: u64) -> bool {
    c.has_vault(k) && c.vault(k).status != ReleaseStatus::Locked ==> post.has_vault(k) && post.vault(k) == c.vault(k)
}

/// Applying a batch leaves alone every vault that no item names.
/// Released and cancelled vaults never change again: no operation, whatever
/// its arguments, alters or removes one.
pub proof fn law_closed_vaults_never_change(
    c: ContractView,
    k: u64,
    id: u64,
    who: Address,
    other: Address,
    amount: i128,
    now: u64,
    interval: u64,
    entries: Seq<BeneficiaryEntry>,
    metadata: Seq<u8>,
    deposits: Seq<(u64, i128)>,
)
    requires
        c.wf(),
    ensures
        keeps_closed_vault(c, create_vault_step(c, who, other, interval, now).post, k),
        keeps_closed_vault(c, check_in_step(c, id, who, now).post, k),
        keeps_closed_vault(c, deposit_step(c, id, who, amount, now).post, k),
        keeps_closed_vault(c, batch_deposit_step(c, who, deposits).post, k),
        keeps_closed_vault(c, withdraw_step(c, id, amount).post, k),
        keeps_closed_vault(c, partial_release_step(c, id, amount).post, k),
        keeps_closed_vault(c, trigger_release_step(c, id, now).post, k),
        keeps_closed_vault(c, set_beneficiaries_step(c, id, entries).post, k),
        keeps_closed_vault(c, update_metadata_step(c, id, metadata).post, k),
        keeps_closed_vault(c, update_beneficiary_step(c, id, who).post, k),
        keeps_closed_vault(c, update_check_in_interval_step(c, id, interval).post, k),
        keeps_closed_vault(c, cancel_vault_step(c, id).post, k),
        keeps_closed_vault(c, transfer_ownership_step(c, id, who).post, k),
{
    if c.has_vault(k) && c.vault(k).status != ReleaseStatus::Locked {
        let s = create_vault_step(c, who, other, interval, now);
        assert(s.post.vaults.len() >= c.vaults.len());
        if batch_total(c, deposits) is Ok {
            lemma_batch_total_ok(c, deposits);
            assert forall|i: int| 0 <= i < deposits.len() implies (#[trigger] deposits[i]).0 != k by {
                assert(valid_item(c, deposits[i]));
            }
            if batch_credit(c, deposits) is Some {
                lemma_batch_credit(c, deposits);
            }
        }
    }
}


// ---- conservation of funds ----

/// The balances of `vaults`, added up.
pub open spec fn funds(vaults: Seq<VaultView>) -> int
    decreases vaults.len(),
{
    if vaults.len() == 0 {
        0
    } else {
        funds(vaults.drop_last()) + vaults.last().balance
    }
}

/// Tokens that `calls` move into the contract.
pub open spec fn collected(calls: Seq<HostCall>) -> int
    decreases calls.len(),
{
    if calls.len() == 0 {
        0
    } else {
        collected(calls.drop_last()) + match calls.last() {
            HostCall::CollectTokens { amount, .. } => amount as int,
            _ => 0,
        }
    }
}

/// Tokens that `calls` move out of the contract.
pub open spec fn paid(calls: Seq<HostCall>) -> int
    decreases calls.len(),
{
    if calls.len() == 0 {
        0
    } else {
        paid(calls.drop_last()) + match calls.last() {
            HostCall::PayTokens { amount, .. } => amount as int,
            _ => 0,
        }
    }
}

/// The vault balances of `s.post` account for every token that `s` moved.
pub open spec fn conserves<T>(c: ContractView, s: Step<T>) -> bool {
    funds(s.post.vaults) == funds(c.vaults) + collected(s.calls) - paid(s.calls)
}

pub proof fn lemma_funds_update(vaults: Seq<VaultView>, i: int, v: VaultView)
    requires
        0 <= i < vaults.len(),
    ensures
        funds(vaults.update(i, v)) == funds(vaults) - vaults[i].balance + v.balance,
    decreases vaults.len(),
{
    let u = vaults.update(i, v);
    if i < vaults.len() - 1 {
        assert(u.drop_last() =~= vaults.drop_last().update(i, v));
        lemma_funds_update(vaults.drop_last(), i, v);
    } else {
        assert(u.drop_last() =~= vaults.drop_last());
    }
}

pub proof fn lemma_funds_push(vaults: Seq<VaultView>, v: VaultView)
    ensures
        funds(vaults.push(v)) == funds(vaults) + v.balance,
{
    assert(vaults.push(v).drop_last() =~= vaults);
}

pub proof fn lemma_flows_push(calls: Seq<HostCall>, call: HostCall)
    ensures
        collected(calls.push(call)) == collected(calls) + match call {
            HostCall::CollectTokens { amount, .. } => amount as int,
            _ => 0,
        },
        paid(calls.push(call)) == paid(calls) + match call {
            HostCall::PayTokens { amount, .. } => amount as int,
            _ => 0,
        },
{
    assert(calls.push(call).drop_last() =~= calls);
}

/// A split pays out, over its first `k` entries (before the last one), the
/// shares of those entries.
pub proof fn lemma_split_paid(token: Address, total: int, entries: Seq<BeneficiaryEntry>, k: int)
    requires
        0 <= total <= i128::MAX,
        entries.len() > 0,
        bps_total(entries) == 10_000,
        0 <= k <= entries.len() - 1,
    ensures
        paid(payout_calls(token, entries, release_shares(total, entries), k)) == shares_before(total, entries, k),
        collected(payout_calls(token, entries, release_shares(total, entries), k)) == 0,
    decreases k,
{
    if k > 0 {
        lemma_split_paid(token, total, entries, k - 1);
        let shares = release_shares(total, entries);
        let rest = payout_calls(token, entries, shares, k - 1);
        lemma_shares_before_within_total(total, entries, k - 1);
        lemma_shares_before_within_total(total, entries, k);
        lemma_share_bound(total, entries[k - 1].bps);
        if shares[k - 1] > 0 {
            lemma_flows_push(rest, HostCall::PayTokens { token, to: entries[k - 1].address, amount: shares[k - 1] as i128 });
        }
    }
}

/// A split pays out exactly `total`.
pub proof fn lemma_split_pays_total(token: Address, total: int, entries: Seq<BeneficiaryEntry>)
    requires
        0 <= total <= i128::MAX,
        entries.len() > 0,
        bps_total(entries) == 10_000,
    ensures
        paid(payout_calls(token, entries, release_shares(total, entries), entries.len() as int)) == total,
        collected(payout_calls(token, entries, release_shares(total, entries), entries.len() as int)) == 0,
{
    let n = entries.len() as int;
    let shares = release_shares(total, entries);
    lemma_split_paid(token, total, entries, n - 1);
    lemma_shares_before_within_total(total, entries, n - 1);
    let rest = payout_calls(token, entries, shares, n - 1);
    if shares[n - 1] > 0 {
        lemma_flows_push(rest, HostCall::PayTokens { token, to: entries[n - 1].address, amount: shares[n - 1] as i128 });
    }
}

/// Every share of a split is between zero and the total, and the shares add
/// up to the total.
pub proof fn law_release_split_is_exact(total: int, entries: Seq<BeneficiaryEntry>)
    requires
        0 <= total,
        entries.len() > 0,
        bps_total(entries) == 10_000,
    ensures
        forall|i: int| 0 <= i < entries.len() ==> 0 <= #[trigger] release_shares(total, entries)[i] <= total,
        shares_before(total, entries, entries.len() - 1) + release_shares(total, entries)[entries.len() - 1] == total,
{
    let n = entries.len() as int;
    assert forall|i: int| 0 <= i < n implies 0 <= #[trigger] release_shares(total, entries)[i] <= total by {
        lemma_shares_before_within_total(total, entries, n - 1);
        if i < n - 1 {
            lemma_shares_before_within_total(total, entries, i);
            lemma_shares_before_within_total(total, entries, i + 1);
            lemma_share_bound(total, entries[i].bps);
        }
    }
}


/// Authorizations move no tokens.
pub proof fn lemma_auths_move_nothing(calls: Seq<HostCall>)
    requires
        forall|i: int| 0 <= i < calls.len() ==> (#[trigger] calls[i]) is RequireAuth,
    ensures
        collected(calls) == 0,
        paid(calls) == 0,
    decreases calls.len(),
{
    if calls.len() > 0 {
        assert forall|i: int| 0 <= i < calls.len() - 1 implies (#[trigger] calls.drop_last()[i]) is RequireAuth by {
            assert(calls.drop_last()[i] == calls[i]);
        }
        lemma_auths_move_nothing(calls.drop_last());
        assert(calls.last() == calls[calls.len() - 1]);
    }
}

/// A deposit adds to the vault exactly what it collects.
pub proof fn law_deposit_conserves_funds(c: ContractView, id: u64, from: Address, amount: i128, now: u64)
    requires
        deposit_step(c, id, from, amount, now).result is Ok,
    ensures
        conserves(c, deposit_step(c, id, from, amount, now)),
{
    let s = deposit_step(c, id, from, amount, now);
    let v = c.vault(id);
    lemma_auths_move_nothing(seq![auth(from)]);
    lemma_flows_push(seq![auth(from)], HostCall::CollectTokens { token: c.token->0, from, amount });
    lemma_funds_update(c.vaults, id - 1, VaultView { balance: (v.balance + amount) as i128, ..v });
}

/// A withdrawal or a partial release takes from the vault exactly what it pays.
pub proof fn law_payouts_conserve_funds(c: ContractView, id: u64, amount: i128)
    ensures
        withdraw_step(c, id, amount).result is Ok ==> conserves(c, withdraw_step(c, id, amount)),
        partial_release_step(c, id, amount).result is Ok ==> conserves(c, partial_release_step(c, id, amount)),
{
    let v = c.vault(id);
    if withdraw_step(c, id, amount).result is Ok {
        lemma_auths_move_nothing(seq![auth(v.owner)]);
        lemma_flows_push(seq![auth(v.owner)], HostCall::PayTokens { token: c.token->0, to: v.owner, amount });
        lemma_funds_update(c.vaults, id - 1, VaultView { balance: (v.balance - amount) as i128, ..v });
    }
    if partial_release_step(c, id, amount).result is Ok {
        lemma_auths_move_nothing(seq![auth(v.owner)]);
        lemma_flows_push(seq![auth(v.owner)], HostCall::PayTokens { token: c.token->0, to: v.beneficiary, amount });
        lemma_funds_update(c.vaults, id - 1, VaultView { balance: (v.balance - amount) as i128, ..v });
    }
}

/// A cancellation refunds exactly the balance it clears.
pub proof fn law_cancel_conserves_funds(c: ContractView, id: u64)
    requires
        c.wf(),
        cancel_vault_step(c, id).result is Ok,
    ensures
        conserves(c, cancel_vault_step(c, id)),
{
    let v = c.vault(id);
    assert(vault_wf(c.vaults[id - 1]));
    lemma_auths_move_nothing(seq![auth(v.owner)]);
    if v.balance > 0 {
        lemma_flows_push(seq![auth(v.owner)], HostCall::PayTokens { token: c.token->0, to: v.owner, amount: v.balance });
    }
    lemma_funds_update(c.vaults, id - 1, VaultView { balance: 0, status: ReleaseStatus::Cancelled, ..v });
}

/// A release pays out exactly the balance it clears, whether to the single
/// beneficiary or split among the beneficiary entries.
pub proof fn law_release_conserves_funds(c: ContractView, id: u64, now: u64)
    requires
        c.wf(),
        trigger_release_step(c, id, now).result is Ok,
    ensures
        conserves(c, trigger_release_step(c, id, now)),
        paid(trigger_release_step(c, id, now).calls) == c.vault(id).balance,
{
    let v = c.vault(id);
    assert(vault_wf(c.vaults[id - 1]));
    if v.beneficiaries.len() == 0 {
        if v.balance > 0 {
            lemma_flows_push(Seq::empty(), HostCall::PayTokens { token: c.token->0, to: v.beneficiary, amount: v.balance });
        }
    } else {
        lemma_split_pays_total(c.token->0, v.balance as int, v.beneficiaries);
    }
    lemma_funds_update(c.vaults, id - 1, VaultView { balance: 0, status: ReleaseStatus::Released, ..v });
}

/// Operations that move no tokens leave the total of the balances alone.
pub proof fn law_other_operations_conserve_funds(
    c: ContractView,
    id: u64,
    who: Address,
    other: Address,
    now: u64,
    interval: u64,
    entries: Seq<BeneficiaryEntry>,
    metadata: Seq<u8>,
)
    ensures
        create_vault_step(c, who, other, interval, now).result is Ok ==> conserves(c, create_vault_step(c, who, other, interval, now)),
        check_in_step(c, id, who, now).result is Ok ==> conserves(c, check_in_step(c, id, who, now)),
        set_beneficiaries_step(c, id, entries).result is Ok ==> conserves(c, set_beneficiaries_step(c, id, entries)),
        update_metadata_step(c, id, metadata).result is Ok ==> conserves(c, update_metadata_step(c, id, metadata)),
        update_beneficiary_step(c, id, who).result is Ok ==> conserves(c, update_beneficiary_step(c, id, who)),
        update_check_in_interval_step(c, id, interval).result is Ok ==> conserves(c, update_check_in_interval_step(c, id, interval)),
        transfer_ownership_step(c, id, who).result is Ok ==> conserves(c, transfer_ownership_step(c, id, who)),
{
    let v = c.vault(id);
    lemma_auths_move_nothing(seq![auth(who)]);
    lemma_auths_move_nothing(seq![auth(v.owner)]);
    lemma_auths_move_nothing(seq![auth(v.owner), auth(who)]);
    lemma_funds_push(c.vaults, crate::model::fresh_vault(who, other, interval, now));
    if c.has_vault(id) {
        lemma_funds_update(c.vaults, id - 1, VaultView { last_check_in: now, ..v });
        lemma_funds_update(c.vaults, id - 1, VaultView { beneficiaries: entries, ..v });
        lemma_funds_update(c.vaults, id - 1, VaultView { metadata, ..v });
        lemma_funds_update(c.vaults, id - 1, VaultView { beneficiary: who, ..v });
        lemma_funds_update(c.vaults, id - 1, VaultView { check_in_interval: interval, ..v });
        lemma_funds_update(c.vaults, id - 1, VaultView { owner: who, ..v });
    }
}


/// Crediting a batch adds to the vaults, together, the batch's total.
pub proof fn lemma_batch_credit_funds(c: ContractView, deposits: Seq<(u64, i128)>)
    requires
        batch_total(c, deposits) is Ok,
        batch_credit(c, deposits) is Some,
    ensures
        funds(batch_credit(c, deposits)->Some_0.vaults) == funds(c.vaults) + batch_total(c, deposits)->Ok_0,
    decreases deposits.len(),
{
    if deposits.len() > 0 {
        let init = deposits.drop_last();
        let (id, amount) = deposits.last();
        assert(deposits.last() == deposits[deposits.len() - 1]);
        lemma_batch_total_ok(c, deposits);
        assert forall|i: int| 0 <= i < init.len() implies valid_item(c, #[trigger] init[i]) by {
            assert(init[i] == deposits[i]);
        }
        assert(valid_item(c, deposits[deposits.len() - 1]));
        lemma_batch_credit_funds(c, init);
        lemma_batch_credit(c, init);
        let p = batch_credit(c, init)->Some_0;
        lemma_funds_update(p.vaults, id - 1, VaultView { balance: (p.vault(id).balance + amount) as i128, ..p.vault(id) });
    }
}

/// A batch deposit adds to the vaults, together, exactly what it collects,
/// whether or not a vault is named more than once.
pub proof fn law_batch_deposit_conserves_funds(c: ContractView, from: Address, deposits: Seq<(u64, i128)>)
    requires
        batch_deposit_step(c, from, deposits).result is Ok,
    ensures
        conserves(c, batch_deposit_step(c, from, deposits)),
{
    lemma_auths_move_nothing(seq![auth(from)]);
    lemma_batch_total_ok(c, deposits);
    if batch_total(c, deposits)->Ok_0 != 0 {
        let total = batch_total(c, deposits)->Ok_0;
        lemma_flows_push(seq![auth(from)], HostCall::CollectTokens { token: c.token->0, from, amount: total as i128 });
        lemma_batch_credit_funds(c, deposits);
    }
}

/// A batch deposit credits each vault with the sum of its items' amounts,
/// as the same deposits made one by one would.
pub open spec fn batch_amount_for(deposits: Seq<(u64, i128)>, id: u64) -> int
    decreases deposits.len(),
{
    if deposits.len() == 0 {
        0
    } else {
        batch_amount_for(deposits.drop_last(), id) + if deposits.last().0 == id { deposits.last().1 as int } else { 0 }
    }
}

proof fn lemma_batch_credit_per_vault(c: ContractView, deposits: Seq<(u64, i128)>, id: u64)
    requires
        forall|i: int| 0 <= i < deposits.len() ==> valid_item(c, #[trigger] deposits[i]),
        batch_credit(c, deposits) is Some,
        c.has_vault(id),
    ensures
        batch_credit(c, deposits)->Some_0.vault(id).balance == c.vault(id).balance + batch_amount_for(deposits, id),
    decreases deposits.len(),
{
    if deposits.len() > 0 {
        let init = deposits.drop_last();
        assert forall|i: int| 0 <= i < init.len() implies valid_item(c, #[trigger] init[i]) by {
            assert(init[i] == deposits[i]);
        }
        assert(deposits.last() == deposits[deposits.len() - 1]);
        assert(valid_item(c, deposits[deposits.len() - 1]));
        lemma_batch_credit(c, init);
        lemma_batch_credit_per_vault(c, init, id);
    }
}

/// A successful batch deposit raises each vault's balance by the sum of the
/// amounts its items name, repeated ids included, and changes nothing else.
pub proof fn law_batch_deposit_credits_every_item(c: ContractView, from: Address, deposits: Seq<(u64, i128)>, id: u64)
    requires
        batch_deposit_step(c, from, deposits).result is Ok,
        c.has_vault(id),
    ensures
        ({
            let post = batch_deposit_step(c, from, deposits).post;
            &&& post.vault(id) == VaultView { balance: (c.vault(id).balance + batch_amount_for(deposits, id)) as i128, ..c.vault(id) }
            &&& post == ContractView { vaults: post.vaults, ..c }
            &&& post.vaults.len() == c.vaults.len()
        }),
{
    lemma_batch_total_ok(c, deposits);
    if batch_total(c, deposits)->Ok_0 == 0 {
        if deposits.len() > 0 {
            assert(false);
        }
        assert(batch_amount_for(deposits, id) == 0);
    } else {
        lemma_batch_credit(c, deposits);
        lemma_batch_credit_per_vault(c, deposits, id);
        let post = batch_credit(c, deposits)->Some_0;
        assert(only_balance_differs(c.vaults[id - 1], post.vaults[id - 1]));
    }
}

/// A split only pays.
pub proof fn lemma_payout_calls_only_pay(token: Address, entries: Seq<BeneficiaryEntry>, shares: Seq<int>, k: int)
    ensures
        forall|i: int| 0 <= i < payout_calls(token, entries, shares, k).len() ==>
            (#[trigger] payout_calls(token, entries, shares, k)[i]) is PayTokens,
    decreases k,
{
    if k > 0 {
        lemma_payout_calls_only_pay(token, entries, shares, k - 1);
        let rest = payout_calls(token, entries, shares, k - 1);
        assert forall|i: int| 0 <= i < payout_calls(token, entries, shares, k).len() implies
            (#[trigger] payout_calls(token, entries, shares, k)[i]) is PayTokens by {
            if i < rest.len() {
                assert(payout_calls(token, entries, shares, k)[i] == rest[i]);
            }
        }
    }
}

/// Anyone may trigger a release: it asks for no authorization, and its only
/// host calls are payments out of the contract.
pub proof fn law_release_needs_no_authorization(c: ContractView, id: u64, now: u64)
    ensures
        forall|i: int| 0 <= i < trigger_release_step(c, id, now).calls.len() ==>
            (#[trigger] trigger_release_step(c, id, now).calls[i]) is PayTokens,
{
    let v = c.vault(id);
    let shares = release_shares(v.balance as int, v.beneficiaries);
    lemma_payout_calls_only_pay(c.token->0, v.beneficiaries, shares, crate::release::first_overflow(v.balance as int, v.beneficiaries, 0));
    lemma_payout_calls_only_pay(c.token->0, v.beneficiaries, shares, v.beneficiaries.len() as int);
}


// ---- what the single operations do ----

/// A withdrawal pays the owner: after the owner's authorization its one host
/// call is a payment of exactly `amount` to the vault's owner, and the vault
/// keeps everything else while its balance drops by `amount`. A partial
/// release does the same, paying the vault's primary beneficiary instead.
pub proof fn law_payouts_reach_the_right_account(c: ContractView, id: u64, amount: i128)
    ensures
        withdraw_step(c, id, amount).result is Ok ==> {
            let v = c.vault(id);
            let s = withdraw_step(c, id, amount);
            &&& s.calls == seq![auth(v.owner), HostCall::PayTokens { token: c.token->0, to: v.owner, amount }]
            &&& s.post.vault(id) == VaultView { balance: (v.balance - amount) as i128, ..v }
            &&& s.events == seq![Event::Withdraw { vault_id: id, amount, balance: (v.balance - amount) as i128 }]
        },
        partial_release_step(c, id, amount).result is Ok ==> {
            let v = c.vault(id);
            let s = partial_release_step(c, id, amount);
            &&& s.calls == seq![auth(v.owner), HostCall::PayTokens { token: c.token->0, to: v.beneficiary, amount }]
            &&& s.post.vault(id) == VaultView { balance: (v.balance - amount) as i128, ..v }
            &&& s.events == seq![Event::PartialRelease { vault_id: id, beneficiary: v.beneficiary, amount }]
        },
{
}

/// A deposit of a positive amount into an existing, locked vault of an
/// initialized, unpaused contract succeeds exactly while its deadline (last
/// check-in plus interval) lies ahead: it collects `amount` from `from` and
/// adds it to the balance. From the deadline on it is refused with
/// `AlreadyReleased`, after the depositor's authorization only.
pub proof fn law_deposit_succeeds_before_the_deadline(c: ContractView, id: u64, from: Address, amount: i128, now: u64)
    requires
        !c.paused,
        amount > 0,
        c.has_vault(id),
        c.vault(id).status == ReleaseStatus::Locked,
        c.token is Some,
        c.vault(id).last_check_in + c.vault(id).check_in_interval <= u64::MAX,
        c.vault(id).balance + amount <= i128::MAX,
    ensures
        ({
            let v = c.vault(id);
            let s = deposit_step(c, id, from, amount, now);
            &&& now < v.last_check_in + v.check_in_interval ==> {
                &&& s.result == Ok::<(), Failure>(())
                &&& s.calls == seq![auth(from), HostCall::CollectTokens { token: c.token->0, from, amount }]
                &&& s.post.vault(id) == VaultView { balance: (v.balance + amount) as i128, ..v }
                &&& s.post.vaults.len() == c.vaults.len()
            }
            &&& now >= v.last_check_in + v.check_in_interval ==> {
                &&& s.result == Err::<(), Failure>(Failure::Contract(ContractError::AlreadyReleased))
                &&& s.calls == seq![auth(from)]
                &&& s.post == c
            }
        }),
{
}

/// Every basis-point count of a whole split is at most 10_000.
proof fn lemma_split_entry_bps_at_most_whole(entries: Seq<BeneficiaryEntry>, i: int)
    requires
        0 <= i < entries.len(),
        bps_total(entries) == 10_000,
    ensures
        entries[i].bps <= 10_000,
{
    crate::model::lemma_bps_total_prefix(entries, i + 1);
    crate::model::lemma_bps_total_prefix(entries, i);
    assert(entries.take(i + 1).drop_last() =~= entries.take(i));
    assert(entries.take(i + 1).last() == entries[i]);
}

/// When the balance times 10_000 fits in 128 bits, no share of a whole split
/// overflows.
proof fn lemma_no_share_overflows(total: int, entries: Seq<BeneficiaryEntry>, i: int)
    requires
        0 <= total,
        total * 10_000 <= i128::MAX,
        0 <= i,
        entries.len() > 0,
        bps_total(entries) == 10_000,
    ensures
        crate::release::first_overflow(total, entries, i) == entries.len() - 1,
    decreases entries.len() - i,
{
    if i < entries.len() - 1 {
        lemma_split_entry_bps_at_most_whole(entries, i);
        let b = entries[i].bps as int;
        assert(total * b <= total * 10_000) by (nonlinear_arith)
            requires
                0 <= total,
                0 <= b <= 10_000,
        ;
        lemma_no_share_overflows(total, entries, i + 1);
    }
}

/// Releasing an expired, locked vault whose balance is split among
/// beneficiary entries succeeds whenever the balance times 10_000 fits in
/// 128 bits: every entry but the last is credited `balance * bps / 10_000`
/// (rounded down), the last one the rest, all of the balance is paid out,
/// and the vault ends released and empty.
pub proof fn law_split_release_pays_every_share(c: ContractView, id: u64, now: u64)
    requires
        c.wf(),
        !c.paused,
        c.has_vault(id),
        c.vault(id).status == ReleaseStatus::Locked,
        c.vault(id).last_check_in + c.vault(id).check_in_interval <= now,
        c.vault(id).balance > 0,
        c.vault(id).balance * 10_000 <= i128::MAX,
        c.token is Some,
        c.vault(id).beneficiaries.len() > 0,
    ensures
        ({
            let v = c.vault(id);
            let entries = v.beneficiaries;
            let n = entries.len() as int;
            let s = trigger_release_step(c, id, now);
            &&& s.result == Ok::<(), Failure>(())
            &&& s.post.vault(id) == VaultView { balance: 0, status: ReleaseStatus::Released, ..v }
            &&& s.events.len() == n
            &&& forall|i: int| 0 <= i < n - 1 ==> #[trigger] s.events[i] == Event::Release(ReleaseEvent {
                vault_id: id,
                beneficiary: entries[i].address,
                amount: (v.balance * entries[i].bps / 10_000) as i128,
            })
            &&& s.events[n - 1] matches Event::Release(r) && r.vault_id == id && r.beneficiary == entries[n - 1].address
            &&& paid(s.calls) == v.balance
        }),
{
    let v = c.vault(id);
    assert(vault_wf(c.vaults[id - 1]));
    lemma_no_share_overflows(v.balance as int, v.beneficiaries, 0);
    law_release_conserves_funds(c, id, now);
}

/// A successful interval update stores the new interval, whatever it is,
/// and changes nothing else; an update to a positive interval within the
/// configured bounds of an existing, locked vault of an unpaused contract
/// succeeds.
pub proof fn law_interval_update_stores_the_interval(c: ContractView, id: u64, new_interval: u64)
    ensures
        update_check_in_interval_step(c, id, new_interval).result is Ok ==> {
            let s = update_check_in_interval_step(c, id, new_interval);
            &&& s.post.vault(id) == VaultView { check_in_interval: new_interval, ..c.vault(id) }
            &&& s.post.vaults.len() == c.vaults.len()
            &&& forall|k: u64| k != id && c.has_vault(k) ==> #[trigger] s.post.vault(k) == c.vault(k)
            &&& s.post == ContractView { vaults: s.post.vaults, ..c }
        },
        (!c.paused && new_interval > 0 && c.has_vault(id) && c.vault(id).status == ReleaseStatus::Locked
            && (c.min_interval matches Some(m) ==> m <= new_interval)
            && (c.max_interval matches Some(m) ==> new_interval <= m))
            ==> update_check_in_interval_step(c, id, new_interval).result is Ok,
{
    let s = update_check_in_interval_step(c, id, new_interval);
    if s.result is Ok {
        assert forall|k: u64| k != id && c.has_vault(k) implies #[trigger] s.post.vault(k) == c.vault(k) by {
            assert(s.post.vaults[k - 1] == c.vaults[k - 1]);
        }
    }
}

/// The expiry queries agree with the deadline (last check-in plus interval):
/// a vault is expired from its deadline on, the remaining time is the
/// distance to it, and `ping_expiry` returns that distance (0 once expired)
/// and publishes a warning exactly when less than 24 hours remain.
pub proof fn law_expiry_queries_follow_the_deadline(c: ContractView, id: u64, now: u64)
    requires
        c.has_vault(id),
        c.vault(id).last_check_in + c.vault(id).check_in_interval <= u64::MAX,
    ensures
        ({
            let end = c.vault(id).last_check_in + c.vault(id).check_in_interval;
            let t: u64 = if now < end { (end - now) as u64 } else { 0 };
            let s = ping_expiry_step(c, id, now);
            &&& expired(c, id, now) == Ok::<bool, Failure>(now >= end)
            &&& ttl_remaining(c, id, now) == (if now < end { Ok::<Option<u64>, Failure>(Some(t)) } else { Ok(None) })
            &&& s.result == Ok::<u64, Failure>(t)
            &&& s.calls.len() == 0
            &&& s.post == c
            &&& (t < 86_400 ==> s.events == seq![Event::PingExpiry { vault_id: id, ttl: t }])
            &&& (t >= 86_400 ==> s.events.len() == 0)
        }),
{
}

/// The owner may withdraw, or partially release, any positive amount up to
/// the balance of a locked vault of an initialized, unpaused contract.
pub proof fn law_payouts_succeed_up_to_the_balance(c: ContractView, id: u64, amount: i128)
    requires
        !c.paused,
        c.token is Some,
        c.has_vault(id),
        c.vault(id).status == ReleaseStatus::Locked,
        0 < amount <= c.vault(id).balance,
    ensures
        withdraw_step(c, id, amount).result is Ok,
        partial_release_step(c, id, amount).result is Ok,
{
}

/// Releasing an expired, locked vault without a split pays its whole balance
/// to its primary beneficiary, in one payment, and leaves it released and
/// empty.
pub proof fn law_single_release_pays_the_beneficiary(c: ContractView, id: u64, now: u64)
    requires
        !c.paused,
        c.has_vault(id),
        c.vault(id).status == ReleaseStatus::Locked,
        c.vault(id).last_check_in + c.vault(id).check_in_interval <= now,
        c.vault(id).balance > 0,
        c.token is Some,
        c.vault(id).beneficiaries.len() == 0,
    ensures
        ({
            let v = c.vault(id);
            let s = trigger_release_step(c, id, now);
            &&& s.result == Ok::<(), Failure>(())
            &&& s.calls == seq![HostCall::PayTokens { token: c.token->0, to: v.beneficiary, amount: v.balance }]
            &&& s.events == seq![Event::Release(ReleaseEvent { vault_id: id, beneficiary: v.beneficiary, amount: v.balance })]
            &&& s.post.vault(id) == VaultView { balance: 0, status: ReleaseStatus::Released, ..v }
        }),
{
}

/// A check-in by the owner of a locked vault of an unpaused contract
/// succeeds and records `now` as the last check-in, changing nothing else;
/// anyone else is refused with `NotOwner`.
pub proof fn law_check_in_records_the_time(c: ContractView, id: u64, caller: Address, now: u64)
    requires
        !c.paused,
        c.has_vault(id),
        c.vault(id).status == ReleaseStatus::Locked,
    ensures
        caller == c.vault(id).owner ==> {
            let s = check_in_step(c, id, caller, now);
            &&& s.result == Ok::<(), Failure>(())
            &&& s.post.vault(id) == VaultView { last_check_in: now, ..c.vault(id) }
            &&& s.events == seq![Event::CheckIn { vault_id: id, at: now }]
        },
        caller != c.vault(id).owner ==>
            check_in_step(c, id, caller, now).result == Err::<(), Failure>(Failure::Contract(ContractError::NotOwner)),
{
}

/// The owner's edits of a locked vault store what they were given: a split
/// of exactly 10_000 basis points, any metadata, and any beneficiary other
/// than the owner; a split of any other total is refused with `InvalidBps`.
pub proof fn law_owner_edits_store_their_values(
    c: ContractView,
    id: u64,
    entries: Seq<BeneficiaryEntry>,
    metadata: Seq<u8>,
    new_beneficiary: Address,
)
    requires
        c.has_vault(id),
        c.vault(id).status == ReleaseStatus::Locked,
    ensures
        bps_total(entries) == 10_000 ==> {
            let s = set_beneficiaries_step(c, id, entries);
            &&& s.result == Ok::<(), Failure>(())
            &&& s.post.vault(id) == VaultView { beneficiaries: entries, ..c.vault(id) }
        },
        bps_total(entries) != 10_000 ==> set_beneficiaries_step(c, id, entries).result
            == Err::<(), Failure>(Failure::Contract(ContractError::InvalidBps)),
        ({
            let s = update_metadata_step(c, id, metadata);
            &&& s.result == Ok::<(), Failure>(())
            &&& s.post.vault(id) == VaultView { metadata, ..c.vault(id) }
        }),
        new_beneficiary != c.vault(id).owner ==> {
            let s = update_beneficiary_step(c, id, new_beneficiary);
            &&& s.result == Ok::<(), Failure>(())
            &&& s.post.vault(id) == VaultView { beneficiary: new_beneficiary, ..c.vault(id) }
        },
{
}

/// Creating a vault with a positive interval within the configured bounds,
/// and a beneficiary other than the owner, succeeds (while ids remain).
pub proof fn law_create_vault_succeeds_on_valid_input(c: ContractView, owner: Address, beneficiary: Address, interval: u64, now: u64)
    requires
        interval > 0,
        c.min_interval matches Some(m) ==> m <= interval,
        c.max_interval matches Some(m) ==> interval <= m,
        owner != beneficiary,
        c.vault_count() < u64::MAX,
    ensures
        create_vault_step(c, owner, beneficiary, interval, now).result is Ok,
        create_vault_step(c, owner, beneficiary, interval, now).calls == seq![auth(owner)],
{
}

} // verus!
