use vstd::prelude::*;

use crate::error::LedgerError;
use crate::item::LineItem;

verus! {

/// No two records in the sequence share an item identifier: the invariant
/// that makes `item_id` a primary key within a partition.
pub open spec fn distinct_ids(s: Seq<LineItem>) -> bool {
    forall|i: int, j: int|
        0 <= i < j < s.len() ==> s[i].item_id != s[j].item_id
}

/// Some record in the sequence carries this item identifier.
pub open spec fn has_item(s: Seq<LineItem>, item_id: i64) -> bool {
    exists|i: int| 0 <= i < s.len() && s[i].item_id == item_id
}

/// The index of the record with this item identifier; meaningful only
/// when `has_item` holds, and unique once the identifiers are distinct.
pub open spec fn index_of(s: Seq<LineItem>, item_id: i64) -> int {
    choose|i: int| 0 <= i < s.len() && s[i].item_id == item_id
}

/// The record with this item identifier; meaningful only when `has_item`
/// holds.
pub open spec fn item_of(s: Seq<LineItem>, item_id: i64) -> LineItem {
    s[index_of(s, item_id)]
}

/// Whether a mathematical integer is representable as a 64-bit signed
/// quantity, the storage width of every ledger column.
pub open spec fn fits_i64(v: int) -> bool {
    i64::MIN <= v <= i64::MAX
}

/// A point lookup presented as a collection: a singleton when the record
/// exists, empty otherwise.
pub open spec fn lookup_list(s: Seq<LineItem>, item_id: i64) -> Seq<LineItem> {
    if has_item(s, item_id) {
        seq![item_of(s, item_id)]
    } else {
        Seq::<LineItem>::empty()
    }
}

/// An accumulation hit an existing record: its quantity grew by `delta`
/// without overflowing, and nothing else moved — in particular the
/// preparation estimate kept the value assigned at creation.
pub open spec fn accumulate_effect(
    pre: Seq<LineItem>,
    post: Seq<LineItem>,
    item_id: i64,
    delta: i64,
) -> bool {
    &&& has_item(pre, item_id)
    &&& fits_i64(item_of(pre, item_id).quantity + delta)
    &&& post == pre.update(
        index_of(pre, item_id),
        (LineItem {
            item_id: item_of(pre, item_id).item_id,
            quantity: (item_of(pre, item_id).quantity + delta) as i64,
            prep_time: item_of(pre, item_id).prep_time,
        }),
    )
}

/// An insert created a fresh record at the end of the partition, with the
/// given quantity and preparation estimate.
pub open spec fn insert_effect(
    pre: Seq<LineItem>,
    post: Seq<LineItem>,
    item_id: i64,
    quantity: i64,
    prep_time: i64,
) -> bool {
    &&& !has_item(pre, item_id)
    &&& post == pre.push(
        (LineItem { item_id: item_id, quantity: quantity, prep_time: prep_time }),
    )
}

/// What a successful upsert-accumulate does: insert when the item is new,
/// accumulate when it already has a record (`prep_time` is then ignored).
pub open spec fn upsert_effect(
    pre: Seq<LineItem>,
    post: Seq<LineItem>,
    item_id: i64,
    delta: i64,
    prep_time: i64,
) -> bool {
    if has_item(pre, item_id) {
        accumulate_effect(pre, post, item_id, delta)
    } else {
        insert_effect(pre, post, item_id, delta, prep_time)
    }
}

/// What a delete does: the record vanishes when present, and nothing
/// happens when absent — a miss is a normal outcome, not an error.
pub open spec fn remove_effect(pre: Seq<LineItem>, post: Seq<LineItem>, item_id: i64) -> bool {
    if has_item(pre, item_id) {
        post == pre.remove(index_of(pre, item_id))
    } else {
        post == pre
    }
}

/// What a quantity update does: the quantity is overwritten unconditionally
/// when the record exists, and a miss changes nothing.
pub open spec fn set_quantity_effect(
    pre: Seq<LineItem>,
    post: Seq<LineItem>,
    item_id: i64,
    new_quantity: i64,
) -> bool {
    if has_item(pre, item_id) {
        post == pre.update(
            index_of(pre, item_id),
            (LineItem {
                item_id: item_of(pre, item_id).item_id,
                quantity: new_quantity,
                prep_time: item_of(pre, item_id).prep_time,
            }),
        )
    } else {
        post == pre
    }
}

/// Once identifiers are distinct, any index holding `item_id` is the index
/// `index_of` denotes.
pub proof fn lemma_item_index_unique(s: Seq<LineItem>, item_id: i64, k: int)
    requires
        distinct_ids(s),
        0 <= k < s.len(),
        s[k].item_id == item_id,
    ensures
        has_item(s, item_id),
        index_of(s, item_id) == k,
{
    assert(has_item(s, item_id));
    let i = index_of(s, item_id);
    assert(0 <= i < s.len() && s[i].item_id == item_id);
    if i < k {
        assert(s[i].item_id != s[k].item_id);
    }
    if k < i {
        assert(s[k].item_id != s[i].item_id);
    }
}

/// Overwriting a record with one that keeps its identifier preserves the
/// primary-key invariant.
pub proof fn lemma_update_same_id_distinct(s: Seq<LineItem>, k: int, v: LineItem)
    requires
        distinct_ids(s),
        0 <= k < s.len(),
        v.item_id == s[k].item_id,
    ensures
        distinct_ids(s.update(k, v)),
{
    let t = s.update(k, v);
    assert forall|i: int, j: int|
        0 <= i < j < t.len() implies t[i].item_id != t[j].item_id by {
        assert(t[i].item_id == s[i].item_id);
        assert(t[j].item_id == s[j].item_id);
    }
}

/// Appending a record whose identifier is fresh preserves the primary-key
/// invariant.
pub proof fn lemma_push_new_distinct(s: Seq<LineItem>, v: LineItem)
    requires
        distinct_ids(s),
        !has_item(s, v.item_id),
    ensures
        distinct_ids(s.push(v)),
{
    let t = s.push(v);
    assert forall|i: int, j: int|
        0 <= i < j < t.len() implies t[i].item_id != t[j].item_id by {
        if j == s.len() {
            assert(t[j] == v);
            assert(t[i] == s[i]);
            if s[i].item_id == v.item_id {
                assert(has_item(s, v.item_id));
            }
        } else {
            assert(t[i] == s[i]);
            assert(t[j] == s[j]);
        }
    }
}

/// Removing a record preserves the primary-key invariant, and its
/// identifier no longer occurs anywhere in the partition.
pub proof fn lemma_remove_distinct(s: Seq<LineItem>, k: int)
    requires
        distinct_ids(s),
        0 <= k < s.len(),
    ensures
        distinct_ids(s.remove(k)),
        !has_item(s.remove(k), s[k].item_id),
{
    let t = s.remove(k);
    assert forall|i: int, j: int|
        0 <= i < j < t.len() implies t[i].item_id != t[j].item_id by {
        let si: int = if i < k { i } else { i + 1 };
        let sj: int = if j < k { j } else { j + 1 };
        assert(t[i] == s[si]);
        assert(t[j] == s[sj]);
        assert(s[si].item_id != s[sj].item_id);
    }
    assert forall|i: int| 0 <= i < t.len() implies t[i].item_id != s[k].item_id by {
        let si: int = if i < k { i } else { i + 1 };
        assert(t[i] == s[si]);
        if si < k {
            assert(s[si].item_id != s[k].item_id);
        } else {
            assert(s[k].item_id != s[si].item_id);
        }
    }
}

/// The ledger belonging to one table: its line items in insertion order,
/// with at most one record per item identifier.
pub struct TablePartition {
    /// The table this partition belongs to.
    pub table_num: i64,
    /// The records of the partition, in insertion order.
    pub items: Vec<LineItem>,
}

impl TablePartition {
    /// The partition's structural invariant: `item_id` acts as a primary key.
    pub open spec fn wf(&self) -> bool {
        distinct_ids(self.items@)
    }

    /// A freshly created, empty partition for the given table.
    pub fn new(table_num: i64) -> (p: TablePartition)
        ensures
            p.wf(),
            p.table_num == table_num,
            p.items@ =~= Seq::<LineItem>::empty(),
    {
        TablePartition { table_num, items: Vec::new() }
    }

    /// Where the record for `item_id` sits, if anywhere.
    fn find(&self, item_id: i64) -> (r: Option<usize>)
        requires
            self.wf(),
        ensures
            match r {
                Some(k) => {
                    &&& k < self.items@.len()
                    &&& self.items@[k as int].item_id == item_id
                    &&& has_item(self.items@, item_id)
                    &&& index_of(self.items@, item_id) == k
                },
                None => !has_item(self.items@, item_id),
            },
    {
        let mut k: usize = 0;
        while k < self.items.len()
            invariant
                self.wf(),
                k <= self.items@.len(),
                forall|j: int| 0 <= j < k ==> self.items@[j].item_id != item_id,
            decreases self.items@.len() - k,
        {
            if self.items[k].item_id == item_id {
                proof {
                    lemma_item_index_unique(self.items@, item_id, k as int);
                }
                return Some(k);
            }
            k += 1;
        }
        proof {
            if has_item(self.items@, item_id) {
                let i = index_of(self.items@, item_id);
                assert(self.items@[i].item_id != item_id);
            }
        }
        None
    }

    /// Insert-or-accumulate, the single operation behind every add: a new
    /// item gets a record with the given quantity and preparation estimate;
    /// an existing item has the delta added onto its quantity, its
    /// preparation estimate untouched. On success exactly one row is
    /// affected; the store rejects only an accumulation whose result would
    /// not fit the 64-bit quantity column.
    pub fn upsert_accumulate(
        &mut self,
        item_id: i64,
        delta_quantity: i64,
        prep_time_if_new: i64,
    ) -> (r: Result<usize, LedgerError>)
        requires
            old(self).wf(),
        ensures
            final(self).wf(),
            final(self).table_num == old(self).table_num,
            r is Ok <==> (!has_item(old(self).items@, item_id) || fits_i64(
                item_of(old(self).items@, item_id).quantity + delta_quantity,
            )),
            r is Ok ==> r->Ok_0 == 1usize && upsert_effect(
                old(self).items@,
                final(self).items@,
                item_id,
                delta_quantity,
                prep_time_if_new,
            ),
            r is Err ==> r->Err_0 == LedgerError::ExecutionFailure && final(self).items@
                == old(self).items@,
    {
        match self.find(item_id) {
            Some(k) => {
                let existing = self.items[k];
                let q = existing.quantity;
                let overflow = (delta_quantity > 0 && q > i64::MAX - delta_quantity)
                    || (delta_quantity < 0 && q < i64::MIN - delta_quantity);
                if overflow {
                    Err(LedgerError::ExecutionFailure)
                } else {
                    let updated = LineItem {
                        item_id: existing.item_id,
                        quantity: q + delta_quantity,
                        prep_time: existing.prep_time,
                    };
                    self.items[k] = updated;
                    proof {
                        lemma_update_same_id_distinct(old(self).items@, k as int, updated);
                    }
                    Ok(1)
                }
            },
            None => {
                let fresh = LineItem {
                    item_id: item_id,
                    quantity: delta_quantity,
                    prep_time: prep_time_if_new,
                };
                self.items.push(fresh);
                proof {
                    lemma_push_new_distinct(old(self).items@, fresh);
                }
                Ok(1)
            },
        }
    }

    /// Delete the record for `item_id` if present; a miss affects zero rows
    /// and is a normal outcome, not an error.
    pub fn remove(&mut self, item_id: i64) -> (n: usize)
        requires
            old(self).wf(),
        ensures
            final(self).wf(),
            final(self).table_num == old(self).table_num,
            remove_effect(old(self).items@, final(self).items@, item_id),
            n == if has_item(old(self).items@, item_id) { 1int } else { 0int },
            !has_item(final(self).items@, item_id),
    {
        match self.find(item_id) {
            Some(k) => {
                self.items.remove(k);
                proof {
                    lemma_remove_distinct(old(self).items@, k as int);
                }
                1
            },
            None => 0,
        }
    }

    /// Overwrite the quantity of the record for `item_id`; a miss affects
    /// zero rows and is a normal outcome, not an error. The new quantity is
    /// stored exactly as given, negative values included.
    pub fn set_quantity(&mut self, item_id: i64, new_quantity: i64) -> (n: usize)
        requires
            old(self).wf(),
        ensures
            final(self).wf(),
            final(self).table_num == old(self).table_num,
            set_quantity_effect(old(self).items@, final(self).items@, item_id, new_quantity),
            n == if has_item(old(self).items@, item_id) { 1int } else { 0int },
    {
        match self.find(item_id) {
            Some(k) => {
                let existing = self.items[k];
                let updated = LineItem {
                    item_id: existing.item_id,
                    quantity: new_quantity,
                    prep_time: existing.prep_time,
                };
                self.items[k] = updated;
                proof {
                    lemma_update_same_id_distinct(old(self).items@, k as int, updated);
                }
                1
            },
            None => 0,
        }
    }

    /// Point lookup: the record for `item_id`, or nothing on a miss.
    pub fn get_one(&self, item_id: i64) -> (r: Option<LineItem>)
        requires
            self.wf(),
        ensures
            match r {
                Some(it) => has_item(self.items@, item_id) && it == item_of(
                    self.items@,
                    item_id,
                ),
                None => !has_item(self.items@, item_id),
            },
    {
        match self.find(item_id) {
            Some(k) => Some(self.items[k]),
            None => None,
        }
    }

    /// Full listing of the partition, in insertion order.
    pub fn get_all(&self) -> (r: Vec<LineItem>)
        ensures
            r@ == self.items@,
    {
        let mut out: Vec<LineItem> = Vec::new();
        let mut k: usize = 0;
        while k < self.items.len()
            invariant
                k <= self.items@.len(),
                out@ =~= self.items@.subrange(0, k as int),
            decreases self.items@.len() - k,
        {
            out.push(self.items[k]);
            k += 1;
        }
        proof {
            assert(out@ =~= self.items@);
        }
        out
    }
}

} // verus!
