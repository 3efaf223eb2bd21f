//! An order ledger for a restaurant floor: each table keeps a running list
//! of ordered menu items, their quantities, and an estimated preparation
//! time. Every table's ledger lives in its own partition; within a
//! partition the item identifier is a primary key, and adding an item that
//! is already on order accumulates its quantity instead of creating a
//! second record.

mod error;
mod item;
mod laws;
mod ledger;
mod partition;
mod prep;

pub use laws::lemma_add_items_accumulates;
pub use laws::lemma_add_twice_accumulates;
pub use laws::lemma_get_after_delete;
pub use laws::lemma_lookup_after_remove;
pub use laws::lemma_table_items_distinct;

pub use error::LedgerError;
pub use ledger::Ledger;
pub use ledger::index;
pub use ledger::distinct_tables;
pub use ledger::has_table_in;
pub use ledger::lemma_same_tables_same_view;
pub use ledger::lemma_table_index_unique;
pub use ledger::table_index_in;
pub use ledger::table_items_in;
pub use item::LineItem;
pub use partition::TablePartition;
pub use partition::accumulate_effect;
pub use partition::distinct_ids;
pub use partition::fits_i64;
pub use partition::has_item;
pub use partition::index_of;
pub use partition::insert_effect;
pub use partition::item_of;
pub use partition::lemma_item_index_unique;
pub use partition::lemma_push_new_distinct;
pub use partition::lemma_remove_distinct;
pub use partition::lemma_update_same_id_distinct;
pub use partition::lookup_list;
pub use partition::remove_effect;
pub use partition::set_quantity_effect;
pub use partition::upsert_effect;
