//! Galleries: a category, a description and a price, owned by one account.

use vstd::prelude::*;
use crate::category::GalleryCategory;
use crate::price::Price;

verus! {

/// A gallery of photos owned by the account `erika_id`.
#[derive(Debug, Clone)]
pub struct Gallery {
    pub id: u128,
    pub erika_id: u128,
    pub name: GalleryCategory,
    pub description: Option<String>,
    /// `None` means the gallery is free.
    pub price_pln: Option<Price>,
    /// Seconds since the Unix epoch.
    pub created_at: i64,
}

} // verus!
