//! Photos: a stored file and its metadata, in one gallery.

use vstd::prelude::*;

verus! {

/// A photo of the gallery `gallery_id`, served from `file_url`.
#[derive(Debug, Clone)]
pub struct Photo {
    pub id: u128,
    pub gallery_id: u128,
    pub file_url: String,
    pub description: Option<String>,
    /// Seconds since the Unix epoch.
    pub created_at: i64,
}

} // verus!
