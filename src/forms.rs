//! The values that the site's forms submit.

use vstd::prelude::*;
use crate::category::GalleryCategory;
use crate::price::Price;

verus! {

/// Registration form.
#[derive(Debug, Clone)]
pub struct RegisterErikaPayload {
    pub username: String,
    pub email: String,
    pub password: String,
}

/// Login form.
#[derive(Debug, Clone)]
pub struct LoginPayload {
    pub username: String,
    pub password: String,
}

/// Gallery creation form.
#[derive(Debug, Clone, Copy)]
pub struct CreateGalleryPayload {
    pub name: GalleryCategory,
}

/// Gallery details form. `name` is the category label as submitted; an
/// empty price field arrives as `None`.
#[derive(Debug, Clone)]
pub struct UpdateGalleryPayload {
    pub name: String,
    pub description: String,
    pub price_pln: Option<Price>,
}

} // verus!
