//! Creator accounts and their roles.

use vstd::prelude::*;
use crate::credential::{password_matches, verify_password};
use crate::text::same_text;

verus! {

/// The role of an account; `Admin` ranks above `Member`.
#[derive(Debug, Clone, Copy, PartialEq, Eq, Structural)]
pub enum Role {
    Member,
    Admin,
}

impl Role {
    /// The rank of the role.
    pub open spec fn level(self) -> nat {
        match self {
            Role::Member => 0,
            Role::Admin => 1,
        }
    }

    /// Whether this role matches or exceeds `required`.
    pub fn at_least(&self, required: Role) -> (r: bool)
        ensures
            r == (self.level() >= required.level()),
    {
        match (self, required) {
            (Role::Admin, _) => true,
            (Role::Member, Role::Member) => true,
            (Role::Member, Role::Admin) => false,
        }
    }

    /// The label under which storage keeps the role.
    pub open spec fn spec_label(self) -> Seq<char> {
        match self {
            Role::Member => "Member"@,
            Role::Admin => "Admin"@,
        }
    }

    /// The storage label of the role.
    pub fn label(&self) -> (r: &'static str)
        ensures
            r@ == self.spec_label(),
    {
        match self {
            Role::Member => "Member",
            Role::Admin => "Admin",
        }
    }

    /// Reads a stored role. Only the exact label `Admin` grants the admin
    /// role; any other text is an ordinary member.
    pub fn from_label(s: &str) -> (r: Role)
        ensures
            r == (if s@ == "Admin"@ {
                Role::Admin
            } else {
                Role::Member
            }),
    {
        if same_text(s, "Admin") {
            Role::Admin
        } else {
            Role::Member
        }
    }
}

/// A creator account. The password is kept only as an encoded hash.
#[derive(Debug, Clone)]
pub struct Erika {
    pub id: u128,
    pub username: String,
    pub email: String,
    pub password_hash: String,
    pub profile_image_url: Option<String>,
    pub bio: Option<String>,
    pub is_online: bool,
    pub role: Role,
    pub is_approved: bool,
}

impl Erika {
    /// Checks a password against the account's stored credential.
    pub fn verify_password(&self, password: &str) -> (r: bool)
        ensures
            r == password_matches(password@, self.password_hash@),
    {
        verify_password(password, self.password_hash.as_str())
    }
}

} // verus!
