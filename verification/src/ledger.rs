use vstd::prelude::*;

use crate::error::LedgerError;
use crate::item::LineItem;
use crate::partition::TablePartition;
use crate::partition::accumulate_effect;
use crate::partition::fits_i64;
use crate::partition::has_item;
use crate::partition::insert_effect;
use crate::partition::item_of;
use crate::partition::lookup_list;
use crate::partition::remove_effect;
use crate::partition::set_quantity_effect;
use crate::partition::upsert_effect;
use crate::prep::assign_prep_time;

verus! {

/// The greeting the transport layer serves on the home page.
pub fn index() -> (r: &'static str)
    ensures
        r@ == "Welcome!"@,
{
    "Welcome!"
}

/// No two partitions in the sequence serve the same table.
pub open spec fn distinct_tables(ps: Seq<TablePartition>) -> bool {
    forall|i: int, j: int|
        0 <= i < j < ps.len() ==> ps[i].table_num != ps[j].table_num
}

/// Some partition in the sequence serves this table.
pub open spec fn has_table_in(ps: Seq<TablePartition>, table_num: i64) -> bool {
    exists|i: int| 0 <= i < ps.len() && ps[i].table_num == table_num
}

/// The index of the partition serving this table; meaningful only when
/// `has_table_in` holds, and unique once the table numbers are distinct.
pub open spec fn table_index_in(ps: Seq<TablePartition>, table_num: i64) -> int {
    choose|i: int| 0 <= i < ps.len() && ps[i].table_num == table_num
}

/// The records the ledger holds for this table; a table that was never
/// written has no partition and reads as empty.
pub open spec fn table_items_in(ps: Seq<TablePartition>, table_num: i64) -> Seq<LineItem> {
    if has_table_in(ps, table_num) {
        ps[table_index_in(ps, table_num)].items@
    } else {
        Seq::<LineItem>::empty()
    }
}

/// Once table numbers are distinct, any index serving `table_num` is the
/// index `table_index_in` denotes.
pub proof fn lemma_table_index_unique(ps: Seq<TablePartition>, table_num: i64, k: int)
    requires
        distinct_tables(ps),
        0 <= k < ps.len(),
        ps[k].table_num == table_num,
    ensures
        has_table_in(ps, table_num),
        table_index_in(ps, table_num) == k,
{
    assert(has_table_in(ps, table_num));
    let i = table_index_in(ps, table_num);
    assert(0 <= i < ps.len() && ps[i].table_num == table_num);
    if i < k {
        assert(ps[i].table_num != ps[k].table_num);
    }
    if k < i {
        assert(ps[k].table_num != ps[i].table_num);
    }
}

/// A table other than the ones whose partitions changed reads exactly as
/// it did before: the partitions are independent.
pub proof fn lemma_same_tables_same_view(
    pre: Seq<TablePartition>,
    post: Seq<TablePartition>,
    t2: i64,
)
    requires
        distinct_tables(pre),
        pre.len() == post.len(),
        forall|i: int| 0 <= i < pre.len() ==> post[i].table_num == pre[i].table_num,
        forall|i: int|
            0 <= i < pre.len() && pre[i].table_num == t2 ==> post[i].items@ == pre[i].items@,
    ensures
        has_table_in(post, t2) == has_table_in(pre, t2),
        table_items_in(post, t2) == table_items_in(pre, t2),
{
    assert forall|i: int, j: int|
        0 <= i < j < post.len() implies post[i].table_num != post[j].table_num by {
        assert(pre[i].table_num != pre[j].table_num);
    }
    if has_table_in(pre, t2) {
        let k = table_index_in(pre, t2);
        assert(0 <= k < pre.len() && pre[k].table_num == t2);
        lemma_table_index_unique(post, t2, k);
    } else {
        if has_table_in(post, t2) {
            let i = table_index_in(post, t2);
            assert(0 <= i < post.len() && post[i].table_num == t2);
            assert(pre[i].table_num == t2);
            assert(has_table_in(pre, t2));
        }
    }
}

/// After replacing the partition at index `k` with one that kept its table
/// number and its invariant, the ledger is still well formed, that table
/// reads as the new partition, and every other table reads as before.
proof fn lemma_partition_update(pre: Seq<TablePartition>, post: Seq<TablePartition>, k: int)
    requires
        distinct_tables(pre),
        forall|i: int| 0 <= i < pre.len() ==> pre[i].wf(),
        0 <= k < pre.len(),
        post == pre.update(k, post[k]),
        post[k].table_num == pre[k].table_num,
        post[k].wf(),
    ensures
        distinct_tables(post),
        forall|i: int| 0 <= i < post.len() ==> post[i].wf(),
        has_table_in(post, pre[k].table_num),
        table_index_in(pre, pre[k].table_num) == k,
        table_index_in(post, pre[k].table_num) == k,
        table_items_in(pre, pre[k].table_num) == pre[k].items@,
        table_items_in(post, pre[k].table_num) == post[k].items@,
        forall|t2: i64|
            #![trigger has_table_in(post, t2)]
            #![trigger table_items_in(post, t2)]
            t2 != pre[k].table_num ==> has_table_in(post, t2) == has_table_in(pre, t2)
                && table_items_in(post, t2) == table_items_in(pre, t2),
{
    assert(post.len() == pre.len());
    assert forall|i: int| 0 <= i < post.len() implies post[i].table_num == pre[i].table_num by {
        if i != k {
            assert(post[i] == pre[i]);
        }
    }
    assert forall|i: int, j: int|
        0 <= i < j < post.len() implies post[i].table_num != post[j].table_num by {
        assert(pre[i].table_num != pre[j].table_num);
    }
    assert forall|i: int| 0 <= i < post.len() implies post[i].wf() by {
        if i != k {
            assert(post[i] == pre[i]);
        }
    }
    lemma_table_index_unique(pre, pre[k].table_num, k);
    lemma_table_index_unique(post, pre[k].table_num, k);
    assert forall|t2: i64|
        #![trigger has_table_in(post, t2)]
        #![trigger table_items_in(post, t2)]
        t2 != pre[k].table_num implies has_table_in(post, t2) == has_table_in(pre, t2)
            && table_items_in(post, t2) == table_items_in(pre, t2) by {
        assert forall|i: int|
            0 <= i < pre.len() && pre[i].table_num == t2 implies post[i].items@
            == pre[i].items@ by {
            assert(i != k);
            assert(post[i] == pre[i]);
        }
        lemma_same_tables_same_view(pre, post, t2);
    }
}

/// The order ledger of the whole floor: one partition per table that has
/// been written, created lazily and never retired.
pub struct Ledger {
    /// The partitions, in order of first write to their tables.
    pub partitions: Vec<TablePartition>,
}

impl Ledger {
    /// The ledger's structural invariant: tables are served by at most one
    /// partition each, and every partition keeps `item_id` a primary key.
    pub open spec fn wf(&self) -> bool {
        &&& distinct_tables(self.partitions@)
        &&& forall|i: int| 0 <= i < self.partitions@.len() ==> self.partitions@[i].wf()
    }

    /// Whether a partition exists for this table.
    pub open spec fn has_table(&self, table_num: i64) -> bool {
        has_table_in(self.partitions@, table_num)
    }

    /// The records on this table's ledger; empty when the table was never
    /// written.
    pub open spec fn table_items(&self, table_num: i64) -> Seq<LineItem> {
        table_items_in(self.partitions@, table_num)
    }

    /// An empty ledger: no table has a partition yet.
    pub fn new() -> (l: Ledger)
        ensures
            l.wf(),
            forall|t: i64| !(#[trigger] l.has_table(t)),
            forall|t: i64| #[trigger] l.table_items(t) == Seq::<LineItem>::empty(),
    {
        Ledger { partitions: Vec::new() }
    }

    /// Where the partition for `table_num` sits, if anywhere.
    fn find_table(&self, table_num: i64) -> (r: Option<usize>)
        requires
            self.wf(),
        ensures
            match r {
                Some(k) => {
                    &&& k < self.partitions@.len()
                    &&& self.partitions@[k as int].table_num == table_num
                    &&& self.has_table(table_num)
                    &&& table_index_in(self.partitions@, table_num) == k
                },
                None => !self.has_table(table_num),
            },
    {
        let mut k: usize = 0;
        while k < self.partitions.len()
            invariant
                self.wf(),
                k <= self.partitions@.len(),
                forall|j: int| 0 <= j < k ==> self.partitions@[j].table_num != table_num,
            decreases self.partitions@.len() - k,
        {
            if self.partitions[k].table_num == table_num {
                proof {
                    lemma_table_index_unique(self.partitions@, table_num, k as int);
                }
                return Some(k);
            }
            k += 1;
        }
        proof {
            if has_table_in(self.partitions@, table_num) {
                let i = table_index_in(self.partitions@, table_num);
                assert(self.partitions@[i].table_num != table_num);
            }
        }
        None
    }

    /// The partition manager: make sure a partition exists for this table,
    /// creating it empty on the first write and doing nothing when it is
    /// already there. Returns the partition's position as its handle.
    pub fn ensure_partition(&mut self, table_num: i64) -> (k: usize)
        requires
            old(self).wf(),
        ensures
            final(self).wf(),
            final(self).has_table(table_num),
            (k as int) < final(self).partitions@.len(),
            final(self).partitions@[k as int].table_num == table_num,
            table_index_in(final(self).partitions@, table_num) == k as int,
            final(self).table_items(table_num) == old(self).table_items(table_num),
            forall|t2: i64|
                #![trigger final(self).has_table(t2)]
                #![trigger final(self).table_items(t2)]
                t2 != table_num ==> final(self).has_table(t2) == old(self).has_table(t2)
                    && final(self).table_items(t2) == old(self).table_items(t2),
    {
        match self.find_table(table_num) {
            Some(k) => k,
            None => {
                let k = self.partitions.len();
                let p = TablePartition::new(table_num);
                let ghost gp = p;
                self.partitions.push(p);
                proof {
                    let pre = old(self).partitions@;
                    let post = self.partitions@;
                    assert(post == pre.push(gp));
                    assert forall|i: int, j: int|
                        0 <= i < j < post.len() implies post[i].table_num
                        != post[j].table_num by {
                        if j < pre.len() {
                            assert(post[i] == pre[i]);
                            assert(post[j] == pre[j]);
                        } else {
                            assert(post[j] == gp);
                            assert(post[i] == pre[i]);
                            if pre[i].table_num == table_num {
                                assert(has_table_in(pre, table_num));
                            }
                        }
                    }
                    assert forall|i: int| 0 <= i < post.len() implies post[i].wf() by {
                        if i < pre.len() {
                            assert(post[i] == pre[i]);
                        }
                    }
                    lemma_table_index_unique(post, table_num, k as int);
                    assert(old(self).table_items(table_num) =~= Seq::<LineItem>::empty());
                    assert(self.table_items(table_num) =~= Seq::<LineItem>::empty());
                    assert forall|t2: i64|
                        #![trigger self.has_table(t2)]
                        #![trigger self.table_items(t2)]
                        t2 != table_num implies self.has_table(t2) == old(self).has_table(t2)
                            && self.table_items(t2) == old(self).table_items(t2) by {
                        assert forall|i: int|
                            0 <= i < pre.len() implies post[i].table_num == pre[i].table_num
                            && post[i].items@ == pre[i].items@ by {
                            assert(post[i] == pre[i]);
                        }
                        if has_table_in(pre, t2) {
                            let j = table_index_in(pre, t2);
                            assert(0 <= j < pre.len() && pre[j].table_num == t2);
                            lemma_table_index_unique(post, t2, j);
                        } else {
                            if has_table_in(post, t2) {
                                let i = table_index_in(post, t2);
                                assert(0 <= i < post.len() && post[i].table_num == t2);
                                assert(i < pre.len());
                                assert(has_table_in(pre, t2));
                            }
                        }
                    }
                }
                k
            },
        }
    }

    /// Add items to a table's order with an explicit preparation estimate
    /// for the new-record case: the deterministic core of `add_items`, and
    /// the entry point for replaying records whose estimate is already
    /// fixed. Ensures the partition, then insert-or-accumulates: a new
    /// item gets a record with the given quantity and estimate; an
    /// existing item has the quantity added on, its estimate untouched.
    /// Fails only when the accumulated quantity would overflow the 64-bit
    /// column, and then changes nothing.
    pub fn add_items_with_prep(
        &mut self,
        table_num: i64,
        item_id: i64,
        quantity: i64,
        prep_time_if_new: i64,
    ) -> (r: Result<usize, LedgerError>)
        requires
            old(self).wf(),
        ensures
            final(self).wf(),
            final(self).has_table(table_num),
            r is Ok <==> (!has_item(old(self).table_items(table_num), item_id) || fits_i64(
                item_of(old(self).table_items(table_num), item_id).quantity + quantity,
            )),
            r is Ok ==> r->Ok_0 == 1usize && upsert_effect(
                old(self).table_items(table_num),
                final(self).table_items(table_num),
                item_id,
                quantity,
                prep_time_if_new,
            ),
            r is Err ==> r->Err_0 == LedgerError::ExecutionFailure && final(self).table_items(
                table_num,
            ) == old(self).table_items(table_num),
            forall|t2: i64|
                #![trigger final(self).has_table(t2)]
                #![trigger final(self).table_items(t2)]
                t2 != table_num ==> final(self).has_table(t2) == old(self).has_table(t2)
                    && final(self).table_items(t2) == old(self).table_items(t2),
    {
        let k = self.ensure_partition(table_num);
        let ghost mid = *self;
        let p = &mut self.partitions[k];
        let r = p.upsert_accumulate(item_id, quantity, prep_time_if_new);
        proof {
            lemma_partition_update(mid.partitions@, self.partitions@, k as int);
            assert forall|t2: i64|
                #![trigger self.has_table(t2)]
                #![trigger self.table_items(t2)]
                t2 != table_num implies self.has_table(t2) == old(self).has_table(t2)
                    && self.table_items(t2) == old(self).table_items(t2) by {
                assert(has_table_in(self.partitions@, t2) == has_table_in(mid.partitions@, t2));
                assert(table_items_in(self.partitions@, t2) == table_items_in(
                    mid.partitions@,
                    t2,
                ));
                assert(mid.has_table(t2) == old(self).has_table(t2));
                assert(mid.table_items(t2) == old(self).table_items(t2));
            }
        }
        r
    }

    /// AddItems, the facade operation behind the add endpoint: ensures the
    /// table's partition, then insert-or-accumulates the item. A new item
    /// gets a freshly drawn preparation estimate, always between 5 and 15
    /// minutes inclusive; an existing item keeps the estimate assigned at
    /// creation and only its quantity moves. On success exactly one row is
    /// affected. The only failure is an accumulation that would overflow
    /// the stored quantity, and it changes nothing.
    pub fn add_items(&mut self, table_num: i64, item_id: i64, quantity: i64) -> (r: Result<
        usize,
        LedgerError,
    >)
        requires
            old(self).wf(),
        ensures
            final(self).wf(),
            final(self).has_table(table_num),
            r is Ok <==> (!has_item(old(self).table_items(table_num), item_id) || fits_i64(
                item_of(old(self).table_items(table_num), item_id).quantity + quantity,
            )),
            r is Ok ==> r->Ok_0 == 1usize,
            (r is Ok && has_item(old(self).table_items(table_num), item_id))
                ==> accumulate_effect(
                old(self).table_items(table_num),
                final(self).table_items(table_num),
                item_id,
                quantity,
            ),
            (r is Ok && !has_item(old(self).table_items(table_num), item_id)) ==> (exists|p: i64|
                5 <= p <= 15 && insert_effect(
                    old(self).table_items(table_num),
                    final(self).table_items(table_num),
                    item_id,
                    quantity,
                    p,
                )),
            r is Err ==> r->Err_0 == LedgerError::ExecutionFailure && final(self).table_items(
                table_num,
            ) == old(self).table_items(table_num),
            forall|t2: i64|
                #![trigger final(self).has_table(t2)]
                #![trigger final(self).table_items(t2)]
                t2 != table_num ==> final(self).has_table(t2) == old(self).has_table(t2)
                    && final(self).table_items(t2) == old(self).table_items(t2),
    {
        let present: bool = match self.find_table(table_num) {
            Some(k) => {
                proof {
                    assert(self.partitions@[k as int].wf());
                }
                let p = &self.partitions[k];
                p.get_one(item_id).is_some()
            },
            None => false,
        };
        if present {
            self.add_items_with_prep(table_num, item_id, quantity, 0)
        } else {
            let prep = assign_prep_time();
            let r = self.add_items_with_prep(table_num, item_id, quantity, prep);
            proof {
                if r is Ok {
                    assert(insert_effect(
                        old(self).table_items(table_num),
                        self.table_items(table_num),
                        item_id,
                        quantity,
                        prep,
                    ));
                }
            }
            r
        }
    }

    /// DeleteItem, the facade operation behind the delete endpoint:
    /// ensures the table's partition, then deletes the item's record.
    /// Never fails; deleting an absent item affects zero rows, a normal
    /// outcome meaning there was nothing to delete.
    pub fn delete_item(&mut self, table_num: i64, item_id: i64) -> (r: Result<
        usize,
        LedgerError,
    >)
        requires
            old(self).wf(),
        ensures
            final(self).wf(),
            r is Ok,
            final(self).has_table(table_num),
            remove_effect(
                old(self).table_items(table_num),
                final(self).table_items(table_num),
                item_id,
            ),
            r->Ok_0 == if has_item(old(self).table_items(table_num), item_id) {
                1int
            } else {
                0int
            },
            !has_item(final(self).table_items(table_num), item_id),
            forall|t2: i64|
                #![trigger final(self).has_table(t2)]
                #![trigger final(self).table_items(t2)]
                t2 != table_num ==> final(self).has_table(t2) == old(self).has_table(t2)
                    && final(self).table_items(t2) == old(self).table_items(t2),
    {
        let k = self.ensure_partition(table_num);
        let ghost mid = *self;
        let p = &mut self.partitions[k];
        let n = p.remove(item_id);
        proof {
            lemma_partition_update(mid.partitions@, self.partitions@, k as int);
            assert forall|t2: i64|
                #![trigger self.has_table(t2)]
                #![trigger self.table_items(t2)]
                t2 != table_num implies self.has_table(t2) == old(self).has_table(t2)
                    && self.table_items(t2) == old(self).table_items(t2) by {
                assert(has_table_in(self.partitions@, t2) == has_table_in(mid.partitions@, t2));
                assert(table_items_in(self.partitions@, t2) == table_items_in(
                    mid.partitions@,
                    t2,
                ));
                assert(mid.has_table(t2) == old(self).has_table(t2));
                assert(mid.table_items(t2) == old(self).table_items(t2));
            }
        }
        Ok(n)
    }

    /// ListItems, the facade operation behind the listing endpoint: every
    /// record on the table's ledger, in insertion order. A table that was
    /// never written yields an empty collection, not an error, and no
    /// partition is created by the read.
    pub fn list_items(&self, table_num: i64) -> (r: Result<Vec<LineItem>, LedgerError>)
        requires
            self.wf(),
        ensures
            r is Ok,
            r->Ok_0@ == self.table_items(table_num),
            !self.has_table(table_num) ==> r->Ok_0@ == Seq::<LineItem>::empty(),
    {
        match self.find_table(table_num) {
            Some(k) => {
                let p = &self.partitions[k];
                Ok(p.get_all())
            },
            None => {
                let out: Vec<LineItem> = Vec::new();
                proof {
                    assert(out@ =~= Seq::<LineItem>::empty());
                }
                Ok(out)
            },
        }
    }

    /// GetItem, the facade operation behind the point-query endpoint: the
    /// item's record presented as a collection of at most one element —
    /// a singleton when the record exists, empty otherwise. A missing
    /// partition reads as empty, not as an error, and no partition is
    /// created by the read.
    pub fn get_item(&self, table_num: i64, item_id: i64) -> (r: Result<Vec<LineItem>, LedgerError>)
        requires
            self.wf(),
        ensures
            r is Ok,
            r->Ok_0@ == lookup_list(self.table_items(table_num), item_id),
            r->Ok_0@.len() <= 1,
    {
        let mut out: Vec<LineItem> = Vec::new();
        match self.find_table(table_num) {
            Some(k) => {
                proof {
                    assert(self.partitions@[k as int].wf());
                }
                let p = &self.partitions[k];
                match p.get_one(item_id) {
                    Some(it) => {
                        out.push(it);
                    },
                    None => {},
                }
            },
            None => {},
        }
        proof {
            assert(out@ =~= lookup_list(self.table_items(table_num), item_id));
        }
        Ok(out)
    }

    /// UpdateQuantity, the facade operation behind the update endpoint:
    /// ensures the table's partition, then overwrites the item's quantity
    /// unconditionally — negative values included, since no clamping is
    /// applied. Never fails; updating an absent item affects zero rows and
    /// changes nothing, a normal outcome rather than an error.
    pub fn update_quantity(&mut self, table_num: i64, item_id: i64, new_quantity: i64) -> (r:
        Result<usize, LedgerError>)
        requires
            old(self).wf(),
        ensures
            final(self).wf(),
            r is Ok,
            final(self).has_table(table_num),
            set_quantity_effect(
                old(self).table_items(table_num),
                final(self).table_items(table_num),
                item_id,
                new_quantity,
            ),
            r->Ok_0 == if has_item(old(self).table_items(table_num), item_id) {
                1int
            } else {
                0int
            },
            !has_item(old(self).table_items(table_num), item_id) ==> final(self).table_items(
                table_num,
            ) == old(self).table_items(table_num),
            forall|t2: i64|
                #![trigger final(self).has_table(t2)]
                #![trigger final(self).table_items(t2)]
                t2 != table_num ==> final(self).has_table(t2) == old(self).has_table(t2)
                    && final(self).table_items(t2) == old(self).table_items(t2),
    {
        let k = self.ensure_partition(table_num);
        let ghost mid = *self;
        let p = &mut self.partitions[k];
        let n = p.set_quantity(item_id, new_quantity);
        proof {
            lemma_partition_update(mid.partitions@, self.partitions@, k as int);
            assert forall|t2: i64|
                #![trigger self.has_table(t2)]
                #![trigger self.table_items(t2)]
                t2 != table_num implies self.has_table(t2) == old(self).has_table(t2)
                    && self.table_items(t2) == old(self).table_items(t2) by {
                assert(has_table_in(self.partitions@, t2) == has_table_in(mid.partitions@, t2));
                assert(table_items_in(self.partitions@, t2) == table_items_in(
                    mid.partitions@,
                    t2,
                ));
                assert(mid.has_table(t2) == old(self).has_table(t2));
                assert(mid.table_items(t2) == old(self).table_items(t2));
            }
        }
        Ok(n)
    }
}

} // verus!
