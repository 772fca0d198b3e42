use vstd::prelude::*;

pub mod error;
pub mod query;
pub mod scrapers;

verus! {

/// The join of one base record with the details record fetched from the
/// item's own detail page. Ownership of both halves lies with the caller.
#[derive(Debug, Clone)]
pub struct ItemWithDetails<ItemBase, ItemDetails> {
    pub base: ItemBase,
    pub details: ItemDetails,
}

} // verus!
