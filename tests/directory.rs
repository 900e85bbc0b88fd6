use erika::category::GalleryCategory;
use erika::credential::{derive_password_hash, derive_password_hash_with_salt, verify_password};
use erika::directory::{usernames_match, Directory, SESSION_INACTIVITY_SECONDS};
use erika::erika::{Erika, Role};
use erika::error::AppError;
use erika::gallery::Gallery;
use erika::photo::Photo;
use erika::forms::{LoginPayload, RegisterErikaPayload, UpdateGalleryPayload};
use erika::price::{price_label, Price};

fn register(d: &mut Directory, username: &str, email: &str, password: &str, id: u128) -> Result<(), AppError> {
    let payload = RegisterErikaPayload {
        username: username.to_string(),
        email: email.to_string(),
        password: password.to_string(),
    };
    Erika::create(&payload, d, id)
}

fn login(d: &mut Directory, username: &str, password: &str, token: u128) -> Result<u128, AppError> {
    let payload = LoginPayload {
        username: username.to_string(),
        password: password.to_string(),
    };
    d.login(&payload, token, 1000)
}

/// An account registered without hashing, for tests that do not log in.
fn plain_account(d: &mut Directory, id: u128, username: &str) {
    d.erikas.push(Erika {
        id,
        username: username.to_string(),
        email: format!("{}@x.com", username),
        password_hash: String::new(),
        profile_image_url: None,
        bio: None,
        is_online: false,
        role: Role::Member,
        is_approved: false,
    });
}

#[test]
fn derived_hash_verifies_only_its_password() {
    let h = derive_password_hash("pw123").unwrap();
    assert_ne!(h, "pw123");
    assert!(h.starts_with("$argon2id$"));
    assert!(verify_password("pw123", &h));
    assert!(!verify_password("pw124", &h));
}

#[test]
fn salted_hash_is_argon2id_phc() {
    let salt = [7u8; 16];
    let h = derive_password_hash_with_salt("pw123", &salt).unwrap();
    assert!(h.starts_with("$argon2id$"));
    assert!(verify_password("pw123", &h));
    assert!(!verify_password("pw12", &h));
    assert_eq!(
        derive_password_hash_with_salt("pw123", &[1u8; 8]),
        Err(AppError::InternalServerError)
    );
}

#[test]
fn create_with_salt_registers() {
    let mut d = Directory::new();
    let payload = RegisterErikaPayload {
        username: "cat".to_string(),
        email: "c@x.com".to_string(),
        password: "miau".to_string(),
    };
    assert_eq!(Erika::create_with_salt(&payload, &mut d, 4, &[9u8; 16]), Ok(()));
    assert_eq!(Erika::create_with_salt(&payload, &mut d, 5, &[9u8; 16]), Err(AppError::Conflict));
    let e = Erika::find_by_id(4, &d).unwrap();
    assert!(e.password_hash.starts_with("$argon2id$"));
    assert!(e.verify_password("miau"));
}

#[test]
fn corrupt_hash_does_not_verify() {
    assert!(!verify_password("pw123", "not a hash"));
    assert!(!verify_password("pw123", ""));
}

#[test]
fn usernames_compare_ignoring_case() {
    assert!(usernames_match("Alice", "aLICE"));
    assert!(usernames_match("ŁUKASZ", "łukasz"));
    assert!(!usernames_match("alice", "alicja"));
}

#[test]
fn register_creates_offline_member() {
    let mut d = Directory::new();
    assert_eq!(register(&mut d, "bob", "b@x.com", "pw123", 1), Ok(()));
    assert_eq!(d.erikas.len(), 1);
    let e = Erika::find_by_id(1, &d).unwrap();
    assert_eq!(e.username, "bob");
    assert_eq!(e.email, "b@x.com");
    assert_ne!(e.password_hash, "pw123");
    assert!(e.verify_password("pw123"));
    assert!(!e.is_online);
    assert!(!e.is_approved);
    assert_eq!(e.role, Role::Member);
    assert!(e.profile_image_url.is_none());
}

#[test]
fn username_differing_in_case_conflicts() {
    let mut d = Directory::new();
    assert_eq!(register(&mut d, "Alice", "a@x.com", "pw", 1), Ok(()));
    assert_eq!(register(&mut d, "aLiCe", "other@x.com", "pw2", 2), Err(AppError::Conflict));
    assert_eq!(d.erikas.len(), 1);
    assert!(Erika::find_by_username("ALICE", &d).is_some());
    assert!(Erika::find_by_public_username("ALICE", &d).is_none());
    assert!(Erika::find_by_public_username("Alice", &d).is_some());
}

#[test]
fn reused_account_id_is_internal_error() {
    let mut d = Directory::new();
    plain_account(&mut d, 1, "ann");
    assert_eq!(
        register(&mut d, "bea", "b@x.com", "pw", 1),
        Err(AppError::InternalServerError)
    );
    assert_eq!(d.erikas.len(), 1);
}

#[test]
fn login_failures_are_indistinguishable() {
    let mut d = Directory::new();
    register(&mut d, "alice", "a@x.com", "secret", 1).unwrap();
    let wrong = login(&mut d, "alice", "wrong", 100);
    let unknown = login(&mut d, "nonexistent", "anything", 101);
    assert_eq!(wrong, Err(AppError::Unauthorized));
    assert_eq!(unknown, Err(AppError::Unauthorized));
    assert_eq!(wrong, unknown);
    assert!(d.sessions.is_empty());
}

#[test]
fn sessions_resolve_expire_and_log_out() {
    let mut d = Directory::new();
    register(&mut d, "alice", "a@x.com", "secret", 1).unwrap();
    assert_eq!(login(&mut d, "ALICE", "secret", 7), Ok(7));
    assert_eq!(login(&mut d, "alice", "secret", 7), Err(AppError::InternalServerError));
    assert_eq!(d.resolve(7, 1000 + SESSION_INACTIVITY_SECONDS), Some(1));
    assert_eq!(d.resolve(7, 1000 + 2 * SESSION_INACTIVITY_SECONDS), Some(1));
    assert_eq!(d.resolve(7, 1000 + 3 * SESSION_INACTIVITY_SECONDS + 1), None);
    assert_eq!(d.resolve(7, 1000 + 3 * SESSION_INACTIVITY_SECONDS + 1), None);
    assert_eq!(login(&mut d, "alice", "secret", 8), Ok(8));
    assert_eq!(d.resolve(99, 1000), None);
    d.logout(8);
    assert_eq!(d.resolve(8, 1000), None);
    assert!(d.sessions.is_empty());
}

#[test]
fn toggles_alternate() {
    let mut d = Directory::new();
    plain_account(&mut d, 1, "ann");
    let mut expected = false;
    for n in 1..=7 {
        expected = !expected;
        assert_eq!(d.toggle_online(1), Ok(expected));
        assert_eq!(Erika::find_by_id(1, &d).unwrap().is_online, n % 2 == 1);
    }
    assert!(Erika::find_by_id(1, &d).unwrap().is_online);
    assert_eq!(d.toggle_online(2), Err(AppError::NotFound));
}

#[test]
fn admin_approves_and_promotes() {
    let mut d = Directory::new();
    plain_account(&mut d, 1, "boss");
    plain_account(&mut d, 2, "ann");
    assert_eq!(d.set_approved(2, 1, true), Err(AppError::Unauthorized));
    d.erikas[0].role = Role::Admin;
    assert_eq!(d.set_approved(1, 2, true), Ok(()));
    assert!(Erika::find_by_id(2, &d).unwrap().is_approved);
    assert_eq!(d.set_approved(1, 3, true), Err(AppError::NotFound));
    assert_eq!(d.set_role(1, 2, Role::Admin), Ok(()));
    assert_eq!(d.set_role(2, 1, Role::Member), Ok(()));
    assert_eq!(d.set_approved(1, 2, false), Err(AppError::Unauthorized));
    assert_eq!(d.set_approved(9, 2, false), Err(AppError::Unauthorized));
}

#[test]
fn profile_update_keeps_avatar_unless_replaced() {
    let mut d = Directory::new();
    plain_account(&mut d, 1, "ann");
    plain_account(&mut d, 2, "bea");
    assert_eq!(
        d.update_profile(1, "ann", "new@x.com", "hi", Some("/uploads/a.png".to_string())),
        Ok(())
    );
    assert_eq!(d.update_profile(1, "Ann2", "n@x.com", "bio", None), Ok(()));
    let e = Erika::find_by_id(1, &d).unwrap();
    assert_eq!(e.username, "Ann2");
    assert_eq!(e.email, "n@x.com");
    assert_eq!(e.bio.as_deref(), Some("bio"));
    assert_eq!(e.profile_image_url.as_deref(), Some("/uploads/a.png"));
    assert_eq!(d.update_profile(1, "BEA", "x", "y", None), Err(AppError::Conflict));
    assert_eq!(d.update_profile(3, "zed", "x", "y", None), Err(AppError::NotFound));
}

fn details(name: &str, description: &str, price: Option<Price>) -> UpdateGalleryPayload {
    UpdateGalleryPayload {
        name: name.to_string(),
        description: description.to_string(),
        price_pln: price,
    }
}

#[test]
fn gallery_lookup_by_owner() {
    let mut d = Directory::new();
    plain_account(&mut d, 1, "ann");
    plain_account(&mut d, 2, "bea");
    d.create_gallery(1, "Piersi", 10, 0).unwrap();
    d.create_gallery(2, "Cipka", 11, 0).unwrap();
    d.create_gallery(1, "Orgazm", 12, 0).unwrap();
    assert_eq!(Gallery::find_by_erika_id(1, &d), vec![(12, 0), (10, 0)]);
    assert_eq!(Gallery::find_by_id_and_erika_id(10, 1, &d).map(|g| g.id), Some(10));
    assert!(Gallery::find_by_id_and_erika_id(10, 2, &d).is_none());
    assert!(Gallery::find_by_id_and_erika_id(99, 1, &d).is_none());
}

#[test]
fn gallery_creation_checks_owner_and_category() {
    let mut d = Directory::new();
    plain_account(&mut d, 1, "ann");
    assert_eq!(d.create_gallery(2, "Piersi", 10, 0), Err(AppError::Unauthorized));
    assert_eq!(d.create_gallery(1, "Nieznana", 10, 0), Err(AppError::InvalidInput));
    assert_eq!(d.create_gallery(1, "Orgazm", 10, 5), Ok(()));
    assert_eq!(d.create_gallery(1, "Piersi", 10, 6), Err(AppError::InternalServerError));
    let g = Gallery::find_by_id(10, &d).unwrap();
    assert_eq!(g.name, GalleryCategory::Orgazm);
    assert_eq!(g.erika_id, 1);
    assert_eq!(g.created_at, 5);
    assert!(g.price_pln.is_none());
    assert_eq!(Gallery::find_by_erika_id(1, &d), vec![(10, 5)]);
    assert!(Gallery::find_by_erika_id(2, &d).is_empty());
}

#[test]
fn owner_updates_gallery_details() {
    let mut d = Directory::new();
    plain_account(&mut d, 1, "ann");
    d.create_gallery(1, "Piersi", 10, 0).unwrap();
    assert_eq!(
        d.update_gallery_details(1, 10, &details("Cipka", "opis", Some(Price { grosze: 1999 }))),
        Ok(())
    );
    let g = Gallery::find_by_id(10, &d).unwrap();
    assert_eq!(g.name, GalleryCategory::Cipka);
    assert_eq!(g.description.as_deref(), Some("opis"));
    assert_eq!(g.price_pln, Some(Price { grosze: 1999 }));
    assert_eq!(price_label(g.price_pln), "19.99 PLN");
    assert_eq!(
        d.update_gallery_details(1, 10, &details("zła", "x", None)),
        Err(AppError::InvalidInput)
    );
    assert_eq!(Gallery::find_by_id(10, &d).unwrap().name, GalleryCategory::Cipka);
}

#[test]
fn non_owner_cannot_change_gallery_or_photos() {
    let mut d = Directory::new();
    plain_account(&mut d, 1, "ann");
    plain_account(&mut d, 2, "bea");
    d.create_gallery(1, "Piersi", 10, 0).unwrap();
    assert_eq!(d.upload_photo(1, 10, &[1, 2, 3], Some("a.png"), "u1", 50, 100), Ok(Some(100)));
    assert_eq!(
        d.update_gallery_details(2, 10, &details("Cipka", "cudze", Some(Price { grosze: 1 }))),
        Err(AppError::Unauthorized)
    );
    let g = Gallery::find_by_id(10, &d).unwrap();
    assert_eq!(g.name, GalleryCategory::Piersi);
    assert!(g.description.is_none());
    assert!(g.price_pln.is_none());
    assert_eq!(d.delete_photo(2, 10, 100), Err(AppError::Unauthorized));
    assert_eq!(d.upload_photo(2, 10, &[1], None, "u2", 51, 101), Err(AppError::Unauthorized));
    assert_eq!(d.photo_count(10), 1);
    assert_eq!(d.files.len(), 1);
    assert!(Photo::find_by_id(100, &d).is_ok());
    assert_eq!(
        d.update_gallery_details(1, 99, &details("Cipka", "", None)),
        Err(AppError::Unauthorized)
    );
}

#[test]
fn delete_removes_file_and_row() {
    let mut d = Directory::new();
    plain_account(&mut d, 1, "ann");
    d.create_gallery(1, "Piersi", 10, 0).unwrap();
    d.create_gallery(1, "Cipka", 11, 0).unwrap();
    assert_eq!(d.upload_photo(1, 10, &[9; 16], Some("kot.png"), "abc", 1700000000, 100), Ok(Some(100)));
    let p = Photo::find_by_id(100, &d).unwrap();
    assert_eq!(p.file_url, "/uploads/abc_1700000000.png");
    assert_eq!(p.gallery_id, 10);
    assert_eq!(d.files, vec!["uploads/abc_1700000000.png".to_string()]);
    assert_eq!(d.delete_photo(1, 11, 100), Err(AppError::Unauthorized));
    assert_eq!(d.delete_photo(1, 10, 101), Err(AppError::NotFound));
    assert_eq!(d.delete_photo(1, 10, 100), Ok(()));
    assert_eq!(Photo::find_by_id(100, &d).err(), Some(AppError::NotFound));
    assert!(d.files.is_empty());
    assert_eq!(d.photo_count(10), 0);
    assert_eq!(d.delete_photo(1, 10, 100), Err(AppError::NotFound));
}

#[test]
fn delete_with_missing_file_keeps_row() {
    let mut d = Directory::new();
    plain_account(&mut d, 1, "ann");
    d.create_gallery(1, "Piersi", 10, 0).unwrap();
    d.upload_photo(1, 10, &[1], None, "abc", 1, 100).unwrap();
    d.files.clear();
    assert_eq!(d.delete_photo(1, 10, 100), Err(AppError::InternalServerError));
    assert!(Photo::find_by_id(100, &d).is_ok());
}

#[test]
fn empty_upload_changes_nothing() {
    let mut d = Directory::new();
    plain_account(&mut d, 1, "ann");
    d.create_gallery(1, "Piersi", 10, 0).unwrap();
    assert_eq!(d.photo_count(10), 0);
    assert_eq!(d.upload_photo(1, 10, &[], Some("a.png"), "u", 5, 100), Ok(None));
    assert_eq!(d.photo_count(10), 0);
    assert!(d.files.is_empty());
    assert_eq!(d.upload_photo(1, 10, &[7], Some("a.png"), "u", 5, 100), Ok(Some(100)));
    assert_eq!(d.upload_photo(1, 10, &[], Some("a.png"), "u", 6, 101), Ok(None));
    assert_eq!(d.photo_count(10), 1);
    assert_eq!(Photo::find_by_gallery_id(10, &d), vec![(100, 5)]);
    assert!(Photo::find_by_gallery_id(11, &d).is_empty());
}

#[test]
fn colliding_upload_is_internal_error() {
    let mut d = Directory::new();
    plain_account(&mut d, 1, "ann");
    d.create_gallery(1, "Piersi", 10, 0).unwrap();
    assert_eq!(d.upload_photo(1, 10, &[7], Some("a.png"), "u", 5, 100), Ok(Some(100)));
    assert_eq!(
        d.upload_photo(1, 10, &[7], Some("b.png"), "u", 5, 101),
        Err(AppError::InternalServerError)
    );
    assert_eq!(
        d.upload_photo(1, 10, &[7], Some("b.png"), "v", 5, 100),
        Err(AppError::InternalServerError)
    );
    assert_eq!(d.photo_count(10), 1);
}

#[test]
fn end_to_end_free_gallery_on_profile() {
    let mut d = Directory::new();
    assert_eq!(register(&mut d, "bob", "b@x.com", "pw123", 1), Ok(()));
    let token = login(&mut d, "bob", "pw123", 500).unwrap();
    let me = d.resolve(token, 1000).unwrap();
    assert_eq!(me, 1);
    assert_eq!(d.create_gallery(me, "Piersi", 10, 1000), Ok(()));
    assert_eq!(d.upload_photo(me, 10, &[1, 2, 3], Some("bob.jpg"), "x", 1001, 20), Ok(Some(20)));
    let bob = Erika::find_by_public_username("bob", &d).unwrap();
    let listed = Gallery::find_by_erika_id(bob.id, &d);
    assert_eq!(listed, vec![(10, 1000)]);
    let g = Gallery::find_by_id(listed[0].0, &d).unwrap();
    assert_eq!(g.name.label(), "Piersi");
    assert_eq!(price_label(g.price_pln), "Darmowa");
    assert_eq!(d.photo_count(10), 1);
}

#[test]
fn listings_follow_creation_time() {
    let mut d = Directory::new();
    plain_account(&mut d, 1, "ann");
    d.create_gallery(1, "Piersi", 10, 100).unwrap();
    d.create_gallery(1, "Cipka", 11, 50).unwrap();
    d.create_gallery(1, "Orgazm", 12, 200).unwrap();
    assert_eq!(Gallery::find_by_id(11, &d).unwrap().created_at, 100);
    assert_eq!(Gallery::find_by_erika_id(1, &d), vec![(12, 200), (11, 100), (10, 100)]);
    d.upload_photo(1, 10, &[1], None, "a", 300, 20).unwrap();
    d.upload_photo(1, 10, &[1], None, "b", 250, 21).unwrap();
    d.upload_photo(1, 10, &[1], None, "c", 400, 22).unwrap();
    assert_eq!(Photo::find_by_gallery_id(10, &d), vec![(20, 300), (21, 300), (22, 400)]);
    assert_eq!(Photo::find_by_id(21, &d).unwrap().file_url, "/uploads/b_250.jpg");
}
