use erika::authz::{
    authorize_gallery_update, authorize_photo_delete, check_username_free, login_decision, require_gallery_owner, require_owner, require_photo_in_gallery, require_role,
    require_session,
};
use erika::category::GalleryCategory;
use erika::erika::{Erika, Role};
use erika::error::AppError;
use erika::gallery::Gallery;
use erika::photo::Photo;
use erika::price::{payment_amount, payment_message, price_label, Price};
use erika::text::{push_decimal, push_signed_decimal, same_text};
use erika::upload::{file_extension, file_path_of_url, photo_file_name, plan_upload, public_url, upload_path};

#[test]
fn error_statuses_and_messages() {
    assert_eq!(AppError::InternalServerError.status_code(), 500);
    assert_eq!(AppError::Unauthorized.status_code(), 401);
    assert_eq!(AppError::NotFound.status_code(), 404);
    assert_eq!(AppError::InvalidInput.status_code(), 400);
    assert_eq!(AppError::Conflict.status_code(), 409);
    assert_eq!(AppError::NotFound.message(), "Nie znaleziono zasobu");
    assert_eq!(
        AppError::Unauthorized.message(),
        "Brak autoryzacji. Musisz być zalogowany."
    );
}

#[test]
fn category_labels_parse_back() {
    let all = GalleryCategory::all();
    assert_eq!(all.len(), 8);
    for c in all {
        assert_eq!(GalleryCategory::parse(c.label()), Ok(c));
        assert_eq!(GalleryCategory::from_db_label(c.db_label()), Ok(c));
    }
    assert_eq!(GalleryCategory::parse("Piersi"), Ok(GalleryCategory::Piersi));
    assert_eq!(GalleryCategory::parse("Tyłek"), Ok(GalleryCategory::Tylek));
    assert_eq!(GalleryCategory::parse("Całe Ciało"), Ok(GalleryCategory::CaleCialo));
    assert_eq!(
        GalleryCategory::parse("Otwieram Cipkę dla Ciebie"),
        Ok(GalleryCategory::OtwieramCipkeDlaCiebie)
    );
    assert_eq!(GalleryCategory::parse("Analne"), Ok(GalleryCategory::Analne));
    assert_eq!(GalleryCategory::Analne.label(), "Analne");
    assert_eq!(GalleryCategory::OtwieramCipkeDlaCiebie.db_label(), "OtwieramCipkęDlaCiebie");
    assert_eq!(GalleryCategory::CaleCialo.db_label(), "CałeCiało");
    assert_eq!(GalleryCategory::ZabawyWibratorem.to_string(), "Zabawy wibratorem");
}

#[test]
fn unknown_category_is_invalid_input() {
    assert_eq!(GalleryCategory::parse("piersi"), Err(AppError::InvalidInput));
    assert_eq!(GalleryCategory::parse(""), Err(AppError::InvalidInput));
    assert_eq!(GalleryCategory::parse("CałeCiało"), Err(AppError::InvalidInput));
    assert_eq!(GalleryCategory::from_db_label("Całe Ciało"), Err(AppError::InvalidInput));
    assert_eq!(
        GalleryCategory::try_from("Orgazm".to_string()),
        Ok(GalleryCategory::Orgazm)
    );
    assert_eq!(
        GalleryCategory::try_from("Nic".to_string()),
        Err(AppError::InvalidInput)
    );
}

#[test]
fn price_parsing() {
    assert_eq!(Price::parse(""), Ok(None));
    assert_eq!(Price::parse("19.99"), Ok(Some(Price { grosze: 1999 })));
    assert_eq!(Price::parse("19.9"), Ok(Some(Price { grosze: 1990 })));
    assert_eq!(Price::parse("19"), Ok(Some(Price { grosze: 1900 })));
    assert_eq!(Price::parse("0.05"), Ok(Some(Price { grosze: 5 })));
    assert_eq!(Price::parse("0"), Ok(Some(Price { grosze: 0 })));
    assert_eq!(Price::parse("-5"), Err(AppError::InvalidInput));
    assert_eq!(Price::parse("1.234"), Err(AppError::InvalidInput));
    assert_eq!(Price::parse("1."), Err(AppError::InvalidInput));
    assert_eq!(Price::parse(".5"), Err(AppError::InvalidInput));
    assert_eq!(Price::parse("1,50"), Err(AppError::InvalidInput));
    assert_eq!(Price::parse("abc"), Err(AppError::InvalidInput));
    assert_eq!(
        Price::parse("184467440737095516.15"),
        Ok(Some(Price { grosze: u64::MAX }))
    );
    assert_eq!(Price::parse("184467440737095516.16"), Err(AppError::InvalidInput));
    assert_eq!(Price::parse("99999999999999999999"), Err(AppError::InvalidInput));
}

#[test]
fn price_formatting() {
    assert_eq!(Price { grosze: 1990 }.amount(), "19.90");
    assert_eq!(Price { grosze: 5 }.amount(), "0.05");
    assert_eq!(Price { grosze: 0 }.amount(), "0.00");
    assert_eq!(price_label(Some(Price { grosze: 1999 })), "19.99 PLN");
    assert_eq!(price_label(None), "Darmowa");
    assert_eq!(payment_amount(None), "0.00");
    assert_eq!(payment_amount(Some(Price { grosze: 12345 })), "123.45");
}

#[test]
fn payment_messages() {
    assert_eq!(
        payment_message(GalleryCategory::Piersi, None),
        "Zamierzasz odblokować galerię 'Piersi' za 0.00 PLN."
    );
    assert_eq!(
        payment_message(GalleryCategory::CaleCialo, Some(Price { grosze: 2550 })),
        "Zamierzasz odblokować galerię 'Całe Ciało' za 25.50 PLN."
    );
}

#[test]
fn price_round_trip() {
    for g in [0u64, 1, 10, 99, 100, 1999, 123456789] {
        let p = Price { grosze: g };
        assert_eq!(Price::parse(&p.amount()), Ok(Some(p)));
    }
}

#[test]
fn decimal_text() {
    let mut s = String::from("n=");
    push_decimal(&mut s, 0);
    assert_eq!(s, "n=0");
    let mut s = String::new();
    push_decimal(&mut s, 1234567890);
    assert_eq!(s, "1234567890");
    let mut s = String::new();
    push_signed_decimal(&mut s, -42);
    assert_eq!(s, "-42");
    let mut s = String::new();
    push_signed_decimal(&mut s, i64::MIN);
    assert_eq!(s, "-9223372036854775808");
    assert!(same_text("Tyłek", "Tyłek"));
    assert!(!same_text("Tyłek", "Tylek"));
}

#[test]
fn stored_file_names() {
    assert_eq!(
        photo_file_name("abc", 1700000000, Some("cat.png")),
        "abc_1700000000.png"
    );
    assert_eq!(photo_file_name("abc", 5, None), "abc_5.jpg");
    assert_eq!(photo_file_name("u", -3, Some("x.tar.gz")), "u_-3.gz");
    assert_eq!(file_extension(Some("photo")), "jpg");
    assert_eq!(file_extension(Some(".bashrc")), "jpg");
    assert_eq!(file_extension(Some("dir/.hidden")), "jpg");
    assert_eq!(file_extension(Some("a.b/c")), "jpg");
    assert_eq!(file_extension(Some("evil.p/../x")), "jpg");
    assert_eq!(file_extension(Some("trailing.")), "jpg");
    assert_eq!(file_extension(Some("IMG.JPEG")), "JPEG");
    assert_eq!(upload_path("f.png"), "uploads/f.png");
    assert_eq!(public_url("f.png"), "/uploads/f.png");
    assert_eq!(file_path_of_url("/uploads/f.png"), "uploads/f.png");
    assert_eq!(file_path_of_url("uploads/f.png"), "uploads/f.png");
    assert_eq!(file_path_of_url(""), "");
}

fn account(id: u128, role: Role) -> Erika {
    Erika {
        id,
        username: format!("user{}", id),
        email: "a@b.c".to_string(),
        password_hash: String::new(),
        profile_image_url: None,
        bio: None,
        is_online: false,
        role,
        is_approved: true,
    }
}

fn gallery(id: u128, owner: u128) -> Gallery {
    Gallery {
        id,
        erika_id: owner,
        name: GalleryCategory::Piersi,
        description: None,
        price_pln: None,
        created_at: 0,
    }
}

fn photo(id: u128, gallery_id: u128) -> Photo {
    Photo {
        id,
        gallery_id,
        file_url: "/uploads/p.jpg".to_string(),
        description: None,
        created_at: 0,
    }
}

#[test]
fn ownership_checks() {
    assert_eq!(require_session(Some(7)), Ok(7));
    assert_eq!(require_session(None), Err(AppError::Unauthorized));
    assert_eq!(require_owner(1, 1), Ok(()));
    assert_eq!(require_owner(1, 2), Err(AppError::Unauthorized));
    let g = gallery(10, 1);
    assert_eq!(require_gallery_owner(1, Some(&g)), Ok(()));
    assert_eq!(require_gallery_owner(2, Some(&g)), Err(AppError::Unauthorized));
    assert_eq!(require_gallery_owner(1, None), Err(AppError::Unauthorized));
    let p = photo(20, 10);
    assert_eq!(require_photo_in_gallery(Some(&p), 10), Ok(()));
    assert_eq!(require_photo_in_gallery(Some(&p), 11), Err(AppError::Unauthorized));
    assert_eq!(require_photo_in_gallery(None, 10), Err(AppError::NotFound));
}

#[test]
fn role_checks() {
    let admin = account(1, Role::Admin);
    let member = account(2, Role::Member);
    assert_eq!(require_role(Some(&admin), Role::Admin), Ok(()));
    assert_eq!(require_role(Some(&admin), Role::Member), Ok(()));
    assert_eq!(require_role(Some(&member), Role::Member), Ok(()));
    assert_eq!(require_role(Some(&member), Role::Admin), Err(AppError::Unauthorized));
    assert_eq!(require_role(None, Role::Member), Err(AppError::Unauthorized));
    assert_eq!(Role::from_label("Admin"), Role::Admin);
    assert_eq!(Role::from_label("admin"), Role::Member);
    assert_eq!(Role::from_label("Member"), Role::Member);
    assert_eq!(Role::Admin.label(), "Admin");
}

#[test]
fn photo_delete_authorization() {
    let g = gallery(10, 1);
    let p = photo(20, 10);
    assert_eq!(
        authorize_photo_delete(1, Some(&g), Some(&p)),
        Ok("uploads/p.jpg".to_string())
    );
    assert_eq!(
        authorize_photo_delete(2, Some(&g), Some(&p)),
        Err(AppError::Unauthorized)
    );
    assert_eq!(
        authorize_photo_delete(2, Some(&g), None),
        Err(AppError::Unauthorized)
    );
    assert_eq!(authorize_photo_delete(1, Some(&g), None), Err(AppError::NotFound));
    let elsewhere = photo(21, 11);
    assert_eq!(
        authorize_photo_delete(1, Some(&g), Some(&elsewhere)),
        Err(AppError::Unauthorized)
    );
    assert_eq!(authorize_photo_delete(1, None, Some(&p)), Err(AppError::Unauthorized));
}

#[test]
fn upload_plans() {
    assert!(plan_upload(0, "u", 5, Some("a.png")).is_none());
    let plan = plan_upload(3, "u", 5, Some("a.png")).unwrap();
    assert_eq!(plan.file_name, "u_5.png");
    assert_eq!(plan.path, "uploads/u_5.png");
    assert_eq!(plan.url, "/uploads/u_5.png");
}

#[test]
fn gallery_update_authorization() {
    let g = gallery(10, 1);
    assert_eq!(authorize_gallery_update(1, Some(&g), "Cipka"), Ok(GalleryCategory::Cipka));
    assert_eq!(authorize_gallery_update(1, Some(&g), "cipka"), Err(AppError::InvalidInput));
    assert_eq!(authorize_gallery_update(2, Some(&g), "Cipka"), Err(AppError::Unauthorized));
    assert_eq!(authorize_gallery_update(1, None, "Cipka"), Err(AppError::Unauthorized));
}

#[test]
fn login_and_registration_decisions() {
    let mut a = account(3, Role::Member);
    a.password_hash = erika::credential::derive_password_hash("tajne").unwrap();
    assert_eq!(login_decision(Some(&a), "tajne"), Ok(3));
    assert_eq!(login_decision(Some(&a), "zle"), Err(AppError::Unauthorized));
    assert_eq!(login_decision(None, "tajne"), Err(AppError::Unauthorized));
    assert_eq!(check_username_free(Some(&a)), Err(AppError::Conflict));
    assert_eq!(check_username_free(None), Ok(()));
}
