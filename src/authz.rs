//! Ownership and role checks that guard every state-changing operation.
//! Callers pass records freshly read from storage, never values remembered
//! in a session.

use vstd::prelude::*;
use crate::category::GalleryCategory;
use crate::credential::password_matches;
use crate::erika::{Erika, Role};
use crate::error::AppError;
use crate::gallery::Gallery;
use crate::photo::Photo;
use crate::upload::{file_path_of_url, path_of_url};

verus! {

/// The account bound to the request's session, or `Unauthorized` when there
/// is none.
pub fn require_session(session_account: Option<u128>) -> (r: Result<u128, AppError>)
    ensures
        r == match session_account {
            Some(id) => Ok::<u128, AppError>(id),
            None => Err(AppError::Unauthorized),
        },
{
    match session_account {
        Some(id) => Ok(id),
        None => Err(AppError::Unauthorized),
    }
}

/// Succeeds only when the requesting account owns the resource.
pub fn require_owner(account_id: u128, owner_id: u128) -> (r: Result<(), AppError>)
    ensures
        r == if account_id == owner_id {
            Ok::<(), AppError>(())
        } else {
            Err(AppError::Unauthorized)
        },
{
    if account_id == owner_id {
        Ok(())
    } else {
        Err(AppError::Unauthorized)
    }
}

/// Succeeds only when the account exists and its current role matches or
/// exceeds `required`.
pub fn require_role(account: Option<&Erika>, required: Role) -> (r: Result<(), AppError>)
    ensures
        r == match account {
            Some(a) => if a.role.level() >= required.level() {
                Ok::<(), AppError>(())
            } else {
                Err(AppError::Unauthorized)
            },
            None => Err(AppError::Unauthorized),
        },
{
    match account {
        Some(a) => if a.role.at_least(required) {
            Ok(())
        } else {
            Err(AppError::Unauthorized)
        },
        None => Err(AppError::Unauthorized),
    }
}

/// The outcome of checking that `account_id` owns `gallery`: a gallery that
/// is missing and one owned by someone else give the same answer, so that
/// probing does not reveal which galleries exist.
pub open spec fn gallery_owner_check(account_id: u128, gallery: Option<&Gallery>) -> Result<(), AppError> {
    match gallery {
        Some(g) => if g.erika_id == account_id {
            Ok(())
        } else {
            Err(AppError::Unauthorized)
        },
        None => Err(AppError::Unauthorized),
    }
}

/// Succeeds only when the gallery exists and belongs to `account_id`.
pub fn require_gallery_owner(account_id: u128, gallery: Option<&Gallery>) -> (r: Result<(), AppError>)
    ensures
        r == gallery_owner_check(account_id, gallery),
{
    match gallery {
        Some(g) => require_owner(account_id, g.erika_id),
        None => Err(AppError::Unauthorized),
    }
}

/// The outcome of checking that `photo` lies in the gallery `gallery_id`.
pub open spec fn photo_in_gallery_check(photo: Option<&Photo>, gallery_id: u128) -> Result<(), AppError> {
    match photo {
        Some(p) => if p.gallery_id == gallery_id {
            Ok(())
        } else {
            Err(AppError::Unauthorized)
        },
        None => Err(AppError::NotFound),
    }
}

/// Succeeds only when the photo exists and lies in the gallery `gallery_id`;
/// this rejects deleting a photo through another gallery.
pub fn require_photo_in_gallery(photo: Option<&Photo>, gallery_id: u128) -> (r: Result<(), AppError>)
    ensures
        r == photo_in_gallery_check(photo, gallery_id),
{
    match photo {
        Some(p) => if p.gallery_id == gallery_id {
            Ok(())
        } else {
            Err(AppError::Unauthorized)
        },
        None => Err(AppError::NotFound),
    }
}

/// Authorizes deleting `photo` from `gallery` on behalf of `account_id`, and
/// gives the path of the file to remove. The gallery check comes first.
pub fn authorize_photo_delete(account_id: u128, gallery: Option<&Gallery>, photo: Option<&Photo>) -> (r: Result<String, AppError>)
    ensures
        gallery_owner_check(account_id, gallery) is Err ==> r is Err && r->Err_0
            == gallery_owner_check(account_id, gallery)->Err_0,
        gallery_owner_check(account_id, gallery) is Ok ==> match photo_in_gallery_check(
            photo,
            gallery.unwrap().id,
        ) {
            Err(e) => r == Err::<String, AppError>(e),
            Ok(_) => r is Ok && r->Ok_0@ == path_of_url(photo.unwrap().file_url@),
        },
{
    require_gallery_owner(account_id, gallery)?;
    let g = gallery.unwrap();
    require_photo_in_gallery(photo, g.id)?;
    let p = photo.unwrap();
    Ok(file_path_of_url(p.file_url.as_str()))
}

/// Authorizes changing the details of `gallery` on behalf of `account_id`
/// and reads the submitted category label. Only the owner may (a missing
/// gallery is the same `Unauthorized`); an unknown label is `InvalidInput`.
pub fn authorize_gallery_update(account_id: u128, gallery: Option<&Gallery>, category: &str) -> (r: Result<GalleryCategory, AppError>)
    ensures
        gallery_owner_check(account_id, gallery) is Err ==> r == Err::<GalleryCategory, AppError>(
            AppError::Unauthorized,
        ),
        gallery_owner_check(account_id, gallery) is Ok ==> match r {
            Ok(c) => c.spec_label() == category@,
            Err(e) => e == AppError::InvalidInput && forall|c: GalleryCategory| #[trigger] c.spec_label() != category@,
        },
{
    require_gallery_owner(account_id, gallery)?;
    GalleryCategory::parse(category)
}

/// Decides a login from the account found under the submitted username
/// (ignoring case): the account's id when its credential accepts the
/// password, else `Unauthorized`, the same whether the account is missing or
/// the password wrong.
pub fn login_decision(found: Option<&Erika>, password: &str) -> (r: Result<u128, AppError>)
    ensures
        match found {
            Some(e) => if password_matches(password@, e.password_hash@) {
                r == Ok::<u128, AppError>(e.id)
            } else {
                r == Err::<u128, AppError>(AppError::Unauthorized)
            },
            None => r == Err::<u128, AppError>(AppError::Unauthorized),
        },
{
    match found {
        Some(e) => if e.verify_password(password) {
            Ok(e.id)
        } else {
            Err(AppError::Unauthorized)
        },
        None => Err(AppError::Unauthorized),
    }
}

/// Decides a registration from the account found under the submitted
/// username (ignoring case): a match is a `Conflict`.
pub fn check_username_free(found: Option<&Erika>) -> (r: Result<(), AppError>)
    ensures
        r == match found {
            Some(_) => Err::<(), AppError>(AppError::Conflict),
            None => Ok(()),
        },
{
    match found {
        Some(_) => Err(AppError::Conflict),
        None => Ok(()),
    }
}

} // verus!
