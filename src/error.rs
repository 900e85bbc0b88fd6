//! The error taxonomy shared by every operation of the library.

use vstd::prelude::*;

verus! {

/// What an operation can fail with.
#[derive(Debug, Clone, Copy, PartialEq, Eq, Structural)]
pub enum AppError {
    /// Storage, file store or hashing failed.
    InternalServerError,
    /// Missing or invalid session, a role that is too low, or not the owner.
    Unauthorized,
    /// The account, gallery or photo does not exist.
    NotFound,
    /// A malformed form value, such as an unknown category or a bad price.
    InvalidInput,
    /// The username is already taken.
    Conflict,
}

impl AppError {
    /// The HTTP status that the error maps to.
    pub open spec fn spec_status(self) -> u16 {
        match self {
            AppError::InternalServerError => 500,
            AppError::Unauthorized => 401,
            AppError::NotFound => 404,
            AppError::InvalidInput => 400,
            AppError::Conflict => 409,
        }
    }

    /// The HTTP status code for this error.
    pub fn status_code(&self) -> (r: u16)
        ensures
            r == self.spec_status(),
    {
        match self {
            AppError::InternalServerError => 500,
            AppError::Unauthorized => 401,
            AppError::NotFound => 404,
            AppError::InvalidInput => 400,
            AppError::Conflict => 409,
        }
    }

    /// The user-facing message of the error.
    pub open spec fn spec_message(self) -> Seq<char> {
        match self {
            AppError::InternalServerError => "Wystąpił wewnętrzny błąd serwera"@,
            AppError::Unauthorized => "Brak autoryzacji. Musisz być zalogowany."@,
            AppError::NotFound => "Nie znaleziono zasobu"@,
            AppError::InvalidInput => "Nieprawidłowe dane formularza"@,
            AppError::Conflict => "Ta nazwa użytkownika jest już zajęta"@,
        }
    }

    /// The message shown to the user; it never names storage details.
    pub fn message(&self) -> (r: &'static str)
        ensures
            r@ == self.spec_message(),
    {
        match self {
            AppError::InternalServerError => "Wystąpił wewnętrzny błąd serwera",
            AppError::Unauthorized => "Brak autoryzacji. Musisz być zalogowany.",
            AppError::NotFound => "Nie znaleziono zasobu",
            AppError::InvalidInput => "Nieprawidłowe dane formularza",
            AppError::Conflict => "Ta nazwa użytkownika jest już zajęta",
        }
    }
}

} // verus!
