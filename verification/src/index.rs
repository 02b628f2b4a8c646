use vstd::prelude::*;
use crate::types::{Address, IndexRecord};

verus! {

/// The vault ids listed under `a`, in the order their records were added.
pub open spec fn ids_of(index: Seq<IndexRecord>, a: Address) -> Seq<u64>
    decreases index.len(),
{
    if index.len() == 0 {
        Seq::empty()
    } else {
        let rest = ids_of(index.drop_last(), a);
        if index.last().address == a {
            rest.push(index.last().vault_id)
        } else {
            rest
        }
    }
}

/// The records of `index` other than those listing `id` under `a`, in order.
pub open spec fn without_record(index: Seq<IndexRecord>, a: Address, id: u64) -> Seq<IndexRecord>
    decreases index.len(),
{
    if index.len() == 0 {
        Seq::empty()
    } else {
        let rest = without_record(index.drop_last(), a, id);
        if index.last().address == a && index.last().vault_id == id {
            rest
        } else {
            rest.push(index.last())
        }
    }
}

/// The ids of `ids` other than `id`, in order.
pub open spec fn without_id(ids: Seq<u64>, id: u64) -> Seq<u64>
    decreases ids.len(),
{
    if ids.len() == 0 {
        Seq::empty()
    } else {
        let rest = without_id(ids.drop_last(), id);
        if ids.last() == id {
            rest
        } else {
            rest.push(ids.last())
        }
    }
}

/// One page of `all`: the items at positions `page * page_size` up to (not
/// including) `(page + 1) * page_size`, as far as `all` reaches; nothing when
/// `page_size` is zero.
pub open spec fn page_of(all: Seq<u64>, page: u32, page_size: u32) -> Seq<u64> {
    let start = page * page_size;
    let end = start + page_size;
    if page_size == 0 || start >= all.len() {
        Seq::empty()
    } else if end <= all.len() {
        all.subrange(start, end)
    } else {
        all.subrange(start, all.len() as int)
    }
}

/// Adding a record appends its id to the list of its address and leaves the
/// other lists alone.
pub proof fn lemma_ids_of_push(index: Seq<IndexRecord>, r: IndexRecord, b: Address)
    ensures
        ids_of(index.push(r), b) == (if r.address == b { ids_of(index, b).push(r.vault_id) } else { ids_of(index, b) }),
{
    assert(index.push(r).drop_last() =~= index);
}

/// Dropping the records that list `id` under `a` drops `id` from the list of
/// `a` and leaves the other lists alone.
pub proof fn lemma_ids_of_without(index: Seq<IndexRecord>, a: Address, id: u64, b: Address)
    ensures
        ids_of(without_record(index, a, id), b) == (if a == b { without_id(ids_of(index, b), id) } else { ids_of(index, b) }),
    decreases index.len(),
{
    if index.len() > 0 {
        let init = index.drop_last();
        let r = index.last();
        lemma_ids_of_without(init, a, id, b);
        let rest = without_record(init, a, id);
        if !(r.address == a && r.vault_id == id) {
            lemma_ids_of_push(rest, r, b);
        }
        if r.address == b {
            assert(ids_of(index, b).drop_last() =~= ids_of(init, b));
        }
    }
}

/// An id is listed under `a` exactly when some record lists it there.
pub proof fn lemma_ids_of_contains(index: Seq<IndexRecord>, a: Address, id: u64)
    ensures
        ids_of(index, a).contains(id) <==> exists|i: int| 0 <= i < index.len() && #[trigger] index[i] == (IndexRecord { address: a, vault_id: id }),
    decreases index.len(),
{
    if index.len() > 0 {
        let init = index.drop_last();
        lemma_ids_of_contains(init, a, id);
        if ids_of(index, a).contains(id) {
            if index.last().address == a && index.last().vault_id == id {
                assert(index[index.len() - 1] == (IndexRecord { address: a, vault_id: id }));
            } else {
                let rest = ids_of(init, a);
                if index.last().address == a {
                    let k = choose|k: int| 0 <= k < rest.push(index.last().vault_id).len() && rest.push(index.last().vault_id)[k] == id;
                    assert(rest[k] == id);
                }
                assert(rest.contains(id));
                let i = choose|i: int| 0 <= i < init.len() && #[trigger] init[i] == (IndexRecord { address: a, vault_id: id });
                assert(index[i] == init[i]);
            }
        }
        if exists|i: int| 0 <= i < index.len() && #[trigger] index[i] == (IndexRecord { address: a, vault_id: id }) {
            let i = choose|i: int| 0 <= i < index.len() && #[trigger] index[i] == (IndexRecord { address: a, vault_id: id });
            if i == index.len() - 1 {
                assert(ids_of(index, a).last() == id);
            } else {
                assert(init[i] == index[i]);
                let rest = ids_of(init, a);
                assert(rest.contains(id));
                let k = choose|k: int| 0 <= k < rest.len() && rest[k] == id;
                if index.last().address == a {
                    assert(rest.push(index.last().vault_id)[k] == id);
                }
            }
        }
    }
}

/// A list of distinct ids, each between 1 and `n`, holds at most `n` ids.
pub proof fn lemma_distinct_ids_bounded(ids: Seq<u64>, n: nat)
    requires
        ids.no_duplicates(),
        forall|i: int| 0 <= i < ids.len() ==> 1 <= #[trigger] ids[i] <= n,
    ensures
        ids.len() <= n,
{
    let ints = ids.map_values(|x: u64| x as int);
    assert forall|i: int, j: int| 0 <= i < ints.len() && 0 <= j < ints.len() && i != j implies ints[i] != ints[j] by {
        assert(ints[i] == ids[i] as int && ints[j] == ids[j] as int);
    }
    assert(ints.no_duplicates());
    ints.unique_seq_to_set();
    vstd::set_lib::lemma_int_range(1, n as int + 1);
    let range = vstd::set_lib::set_int_range(1, n as int + 1);
    assert forall|x: int| ints.to_set().contains(x) implies range.contains(x) by {
        assert(ints.contains(x));
        let i = choose|i: int| 0 <= i < ints.len() && ints[i] == x;
        assert(ints[i] == ids[i] as int);
        assert(1 <= ids[i] <= n);
    }
    vstd::set_lib::lemma_len_subset(ints.to_set(), range);
}

/// The ids listed under `a`, in order.
pub fn ids_for(index: &Vec<IndexRecord>, a: Address) -> (ids: Vec<u64>)
    ensures
        ids@ == ids_of(index@, a),
{
    let mut ids: Vec<u64> = Vec::new();
    let n = index.len();
    for i in 0..n
        invariant
            n == index@.len(),
            ids@ == ids_of(index@.take(i as int), a),
    {
        assert(index@.take(i + 1).drop_last() =~= index@.take(i as int));
        let r = index[i];
        if r.address == a {
            ids.push(r.vault_id);
        }
    }
    assert(index@.take(n as int) =~= index@);
    ids
}

/// The index without the records that list `id` under `a`.
pub fn remove_record(index: &Vec<IndexRecord>, a: Address, id: u64) -> (kept: Vec<IndexRecord>)
    ensures
        kept@ == without_record(index@, a, id),
{
    let mut kept: Vec<IndexRecord> = Vec::new();
    let n = index.len();
    for i in 0..n
        invariant
            n == index@.len(),
            kept@ == without_record(index@.take(i as int), a, id),
    {
        assert(index@.take(i + 1).drop_last() =~= index@.take(i as int));
        let r = index[i];
        if !(r.address == a && r.vault_id == id) {
            kept.push(r);
        }
    }
    assert(index@.take(n as int) =~= index@);
    kept
}

/// One page of `all` (see `page_of`).
pub fn paginate(all: &Vec<u64>, page: u32, page_size: u32) -> (items: Vec<u64>)
    ensures
        items@ == page_of(all@, page, page_size),
{
    let mut items: Vec<u64> = Vec::new();
    if page_size == 0 {
        return items;
    }
    let p = page as u64;
    let s = page_size as u64;
    assert(p * s <= 0xffff_fffe_0000_0001) by (nonlinear_arith)
        requires
            p <= 0xffff_ffff,
            s <= 0xffff_ffff,
    ;
    let start: u64 = p * s;
    let end: u64 = start + s;
    let len = all.len() as u64;
    let mut i: u64 = start;
    while i < len && i < end
        invariant
            start == page * page_size,
            end == start + page_size,
            len == all@.len(),
            all@.len() <= usize::MAX,
            start <= i,
            i <= end,
            start < len ==> i <= len,
            start < len ==> items@ == all@.subrange(start as int, i as int),
            start >= len ==> i == start && items@.len() == 0,
        decreases end - i,
    {
        let ghost before = items@;
        assert(i < all@.len());
        let idx = i as usize;
        items.push(all[idx]);
        assert(before == all@.subrange(start as int, i as int));
        i = i + 1;
        assert(items@ =~= all@.subrange(start as int, i as int));
    }
    items
}


/// `r` is a record of `index` other than (`a`, `id`).
pub open spec fn kept_record(index: Seq<IndexRecord>, r: IndexRecord, a: Address, id: u64) -> bool {
    &&& index.contains(r)
    &&& !(r.address == a && r.vault_id == id)
}

/// Every record `without_record` keeps is a record of `index` other than (`a`, `id`).
pub proof fn lemma_without_record_sound(index: Seq<IndexRecord>, a: Address, id: u64)
    ensures
        forall|i: int| 0 <= i < without_record(index, a, id).len() ==>
            kept_record(index, #[trigger] without_record(index, a, id)[i], a, id),
    decreases index.len(),
{
    if index.len() > 0 {
        let init = index.drop_last();
        let rest = without_record(init, a, id);
        lemma_without_record_sound(init, a, id);
        assert forall|i: int| 0 <= i < without_record(index, a, id).len() implies
            kept_record(index, #[trigger] without_record(index, a, id)[i], a, id) by {
            if i < rest.len() {
                let r = rest[i];
                assert(without_record(index, a, id)[i] == r);
                assert(kept_record(init, r, a, id));
                let j = choose|j: int| 0 <= j < init.len() && init[j] == r;
                assert(index[j] == r);
            } else {
                assert(without_record(index, a, id)[i] == index[index.len() - 1]);
            }
        }
    }
}

/// `without_record` keeps every record of `index` other than (`a`, `id`).
pub proof fn lemma_without_record_complete(index: Seq<IndexRecord>, a: Address, id: u64)
    ensures
        forall|j: int| 0 <= j < index.len() && !(index[j].address == a && index[j].vault_id == id) ==>
            exists|i: int| 0 <= i < without_record(index, a, id).len() && #[trigger] without_record(index, a, id)[i] == #[trigger] index[j],
    decreases index.len(),
{
    if index.len() > 0 {
        let init = index.drop_last();
        let rest = without_record(init, a, id);
        let w = without_record(index, a, id);
        lemma_without_record_complete(init, a, id);
        assert forall|j: int| 0 <= j < index.len() && !(index[j].address == a && index[j].vault_id == id) implies
            exists|i: int| 0 <= i < w.len() && #[trigger] w[i] == #[trigger] index[j] by {
            if j < init.len() {
                assert(init[j] == index[j]);
                let i = choose|i: int| 0 <= i < rest.len() && #[trigger] rest[i] == #[trigger] init[j];
                assert(w[i] == rest[i]);
            } else {
                assert(w[rest.len() as int] == index[j]);
            }
        }
    }
}

/// Distinct ids are still distinct after `without_record`.
pub proof fn lemma_without_record_distinct(index: Seq<IndexRecord>, a: Address, id: u64)
    requires
        forall|i: int, j: int| 0 <= i < j < index.len() ==> #[trigger] index[i].vault_id != #[trigger] index[j].vault_id,
    ensures
        forall|i: int, j: int| 0 <= i < j < without_record(index, a, id).len() ==>
            #[trigger] without_record(index, a, id)[i].vault_id != #[trigger] without_record(index, a, id)[j].vault_id,
    decreases index.len(),
{
    if index.len() > 0 {
        let init = index.drop_last();
        let rest = without_record(init, a, id);
        let w = without_record(index, a, id);
        assert forall|i: int, j: int| 0 <= i < j < init.len() implies #[trigger] init[i].vault_id != #[trigger] init[j].vault_id by {
            assert(init[i] == index[i] && init[j] == index[j]);
        }
        lemma_without_record_distinct(init, a, id);
        lemma_without_record_sound(init, a, id);
        assert forall|i: int, j: int| 0 <= i < j < w.len() implies #[trigger] w[i].vault_id != #[trigger] w[j].vault_id by {
            if j < rest.len() {
                assert(w[i] == rest[i] && w[j] == rest[j]);
            } else {
                assert(w[i] == rest[i]);
                assert(kept_record(init, rest[i], a, id));
                let k = choose|k: int| 0 <= k < init.len() && init[k] == rest[i];
                assert(index[k] == init[k]);
                assert(w[j] == index[index.len() - 1]);
            }
        }
    }
}


/// When the records carry distinct ids, no id is listed twice under an address.
pub proof fn lemma_ids_of_distinct(index: Seq<IndexRecord>, a: Address)
    requires
        forall|i: int, j: int| 0 <= i < j < index.len() ==> #[trigger] index[i].vault_id != #[trigger] index[j].vault_id,
    ensures
        ids_of(index, a).no_duplicates(),
    decreases index.len(),
{
    if index.len() > 0 {
        let init = index.drop_last();
        let last = index.last();
        assert forall|i: int, j: int| 0 <= i < j < init.len() implies #[trigger] init[i].vault_id != #[trigger] init[j].vault_id by {
            assert(init[i] == index[i] && init[j] == index[j]);
        }
        lemma_ids_of_distinct(init, a);
        if last.address == a {
            let rest = ids_of(init, a);
            lemma_ids_of_contains(init, a, last.vault_id);
            if rest.contains(last.vault_id) {
                let k = choose|k: int| 0 <= k < init.len() && #[trigger] init[k] == (IndexRecord { address: a, vault_id: last.vault_id });
                assert(index[k] == init[k]);
                assert(index[k].vault_id != index[index.len() - 1].vault_id);
            }
            let full = rest.push(last.vault_id);
            assert forall|i: int, j: int| 0 <= i < full.len() && 0 <= j < full.len() && i != j implies full[i] != full[j] by {
                if i < rest.len() && j < rest.len() {
                    assert(full[i] == rest[i] && full[j] == rest[j]);
                } else if i < rest.len() {
                    assert(full[i] == rest[i]);
                    assert(rest.contains(rest[i]));
                } else {
                    assert(full[j] == rest[j]);
                    assert(rest.contains(rest[j]));
                }
            }
        }
    }
}

} // verus!
