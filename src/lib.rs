//! The verified core of a creator gallery site: password credentials, the
//! account, session, gallery and photo rules, and the values that forms and
//! pages exchange.
//!
//! - `credential`: salted Argon2 hashes and their verification.
//! - `directory`: an in-memory store of accounts, sessions, galleries, photos
//!   and stored files, whose operations apply the site's rules and over which
//!   its laws are proved.
//! - `authz`: ownership and role checks on freshly read records.
//! - `category`, `price`, `upload`: gallery categories, prices and the names
//!   of uploaded files.
//! - `erika`, `gallery`, `photo`, `forms`, `error`: records, form values and
//!   the error taxonomy.

pub mod authz;
pub mod category;
pub mod credential;
pub mod directory;
pub mod erika;
pub mod error;
pub mod forms;
pub mod gallery;
pub mod photo;
pub mod price;
pub mod text;
pub mod upload;
