use vstd::prelude::*;

use crate::item::LineItem;
use crate::ledger::Ledger;
use crate::ledger::table_index_in;
use crate::partition::accumulate_effect;
use crate::partition::distinct_ids;
use crate::partition::has_item;
use crate::partition::index_of;
use crate::partition::insert_effect;
use crate::partition::item_of;
use crate::partition::lemma_item_index_unique;
use crate::partition::lemma_push_new_distinct;
use crate::partition::lemma_remove_distinct;
use crate::partition::lemma_update_same_id_distinct;
use crate::partition::lookup_list;
use crate::partition::remove_effect;
use crate::partition::upsert_effect;

verus! {

/// The records a well-formed ledger holds for any table have distinct
/// item identifiers — also for a table that was never written, whose
/// records read as empty.
pub proof fn lemma_table_items_distinct(l: Ledger, table_num: i64)
    requires
        l.wf(),
    ensures
        distinct_ids(l.table_items(table_num)),
{
    if l.has_table(table_num) {
        let k = table_index_in(l.partitions@, table_num);
        assert(0 <= k < l.partitions@.len() && l.partitions@[k].table_num == table_num);
        assert(l.partitions@[k].wf());
    }
}

/// Law: adding the same item twice accumulates. When an item with no
/// record yet is added with quantity `q1` and then added again with
/// quantity `q2`, the partition ends with exactly one record for it,
/// whose quantity is `q1 + q2` and whose preparation estimate is the one
/// assigned by the first add — the estimate `p2` offered by the second
/// add is ignored.
pub proof fn lemma_add_twice_accumulates(
    pre: Seq<LineItem>,
    mid: Seq<LineItem>,
    post: Seq<LineItem>,
    item_id: i64,
    q1: i64,
    q2: i64,
    p1: i64,
    p2: i64,
)
    requires
        distinct_ids(pre),
        !has_item(pre, item_id),
        upsert_effect(pre, mid, item_id, q1, p1),
        upsert_effect(mid, post, item_id, q2, p2),
    ensures
        has_item(post, item_id),
        item_of(post, item_id).quantity == q1 + q2,
        item_of(post, item_id).prep_time == p1,
        forall|i: int, j: int|
            0 <= i < post.len() && 0 <= j < post.len() && post[i].item_id == item_id
                && post[j].item_id == item_id ==> i == j,
        post.len() == pre.len() + 1,
{
    assert(insert_effect(pre, mid, item_id, q1, p1));
    let v1 = LineItem { item_id: item_id, quantity: q1, prep_time: p1 };
    assert(mid == pre.push(v1));
    lemma_push_new_distinct(pre, v1);
    let k = pre.len() as int;
    assert(mid[k] == v1);
    lemma_item_index_unique(mid, item_id, k);
    assert(accumulate_effect(mid, post, item_id, q2));
    assert(item_of(mid, item_id) == v1);
    let v2 = LineItem { item_id: item_id, quantity: (q1 + q2) as i64, prep_time: p1 };
    assert(post == mid.update(k, v2));
    lemma_update_same_id_distinct(mid, k, v2);
    lemma_item_index_unique(post, item_id, k);
    assert(item_of(post, item_id) == v2);
    assert forall|i: int, j: int|
        0 <= i < post.len() && 0 <= j < post.len() && post[i].item_id == item_id
            && post[j].item_id == item_id implies i == j by {
        if i < j {
            assert(post[i].item_id != post[j].item_id);
        }
        if j < i {
            assert(post[j].item_id != post[i].item_id);
        }
    }
}

/// Law: AddItems accumulates per (table, item). Starting from a ledger
/// where the table has no record for the item, a successful AddItems of
/// quantity `q1` followed by a successful AddItems of quantity `q2` for
/// the same table and item leaves exactly one record for that item on
/// that table, with quantity `q1 + q2` and the preparation estimate fixed
/// by the first call. The hypotheses are what `Ledger::add_items`
/// establishes on its two successive success outcomes.
pub proof fn lemma_add_items_accumulates(
    s0: Ledger,
    s1: Ledger,
    s2: Ledger,
    table_num: i64,
    item_id: i64,
    q1: i64,
    q2: i64,
    p1: i64,
    p2: i64,
)
    requires
        s0.wf(),
        !has_item(s0.table_items(table_num), item_id),
        upsert_effect(
            s0.table_items(table_num),
            s1.table_items(table_num),
            item_id,
            q1,
            p1,
        ),
        upsert_effect(
            s1.table_items(table_num),
            s2.table_items(table_num),
            item_id,
            q2,
            p2,
        ),
    ensures
        has_item(s2.table_items(table_num), item_id),
        item_of(s2.table_items(table_num), item_id).quantity == q1 + q2,
        item_of(s2.table_items(table_num), item_id).prep_time == p1,
        forall|i: int, j: int|
            0 <= i < s2.table_items(table_num).len() && 0 <= j < s2.table_items(table_num).len()
                && s2.table_items(table_num)[i].item_id == item_id && s2.table_items(
                table_num,
            )[j].item_id == item_id ==> i == j,
{
    lemma_table_items_distinct(s0, table_num);
    lemma_add_twice_accumulates(
        s0.table_items(table_num),
        s1.table_items(table_num),
        s2.table_items(table_num),
        item_id,
        q1,
        q2,
        p1,
        p2,
    );
}

/// Law: a point lookup after a delete of the same item comes back empty.
/// `remove_effect` is what a delete establishes for a partition's records,
/// and `lookup_list` is what a point lookup returns over them.
pub proof fn lemma_lookup_after_remove(pre: Seq<LineItem>, post: Seq<LineItem>, item_id: i64)
    requires
        distinct_ids(pre),
        remove_effect(pre, post, item_id),
    ensures
        !has_item(post, item_id),
        lookup_list(post, item_id) == Seq::<LineItem>::empty(),
{
    if has_item(pre, item_id) {
        let k = index_of(pre, item_id);
        assert(0 <= k < pre.len() && pre[k].item_id == item_id);
        lemma_remove_distinct(pre, k);
    }
}

/// Law: GetItem after DeleteItem returns an empty collection. The
/// hypothesis is what `Ledger::delete_item` establishes for the table's
/// records, and the conclusion is the collection `Ledger::get_item`
/// returns for that table and item afterwards.
pub proof fn lemma_get_after_delete(s0: Ledger, s1: Ledger, table_num: i64, item_id: i64)
    requires
        s0.wf(),
        remove_effect(
            s0.table_items(table_num),
            s1.table_items(table_num),
            item_id,
        ),
    ensures
        !has_item(s1.table_items(table_num), item_id),
        lookup_list(s1.table_items(table_num), item_id) == Seq::<LineItem>::empty(),
{
    lemma_table_items_distinct(s0, table_num);
    lemma_lookup_after_remove(
        s0.table_items(table_num),
        s1.table_items(table_num),
        item_id,
    );
}

} // verus!
