//! A small inventory library: products with derived pricing fields,
//! ordered in-memory inventory operations, and a verified textual codec
//! for the persisted product list.
//!
//! Money amounts are integers counting thousandths of a currency unit.
//! The persisted store is one JSON document holding the whole product
//! list; parsing a saved document is proved to return the saved
//! inventory unchanged, and an unreadable document loads as the empty
//! inventory.

pub mod codec;
pub mod inventory;
pub mod persist;
pub mod product;

pub use codec::lemma_deep_view_wf;
pub use codec::lemma_round_trip;
pub use codec::lemma_save_then_load;
pub use codec::lemma_store_round_trip;
pub use inventory::DeleteError;
pub use inventory::append_product;
pub use inventory::delete;
pub use inventory::delete_by_name;
pub use inventory::lemma_delete_absent;
pub use inventory::remove_at;
pub use inventory::snapshot_for_display;
pub use persist::encode_inventory;
pub use persist::load_from_text;
pub use persist::parse_inventory;
pub use persist::save_to_text;
pub use product::Product;
pub use product::ProductModel;
pub use product::ValidationError;
pub use product::create;
