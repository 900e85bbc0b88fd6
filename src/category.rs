//! The closed set of gallery categories, with its text labels.

use vstd::prelude::*;
use crate::error::AppError;
use crate::text::same_text;

verus! {

/// The subject tag of a gallery.
#[derive(Debug, Clone, Copy, PartialEq, Eq, Structural)]
pub enum GalleryCategory {
    Piersi,
    Tylek,
    Cipka,
    CaleCialo,
    OtwieramCipkeDlaCiebie,
    Analne,
    ZabawyWibratorem,
    Orgazm,
}

impl GalleryCategory {
    /// The label shown in forms and pages, and accepted back by `parse`.
    pub open spec fn spec_label(self) -> Seq<char> {
        match self {
            GalleryCategory::Piersi => "Piersi"@,
            GalleryCategory::Tylek => "Tyłek"@,
            GalleryCategory::Cipka => "Cipka"@,
            GalleryCategory::CaleCialo => "Całe Ciało"@,
            GalleryCategory::OtwieramCipkeDlaCiebie => "Otwieram Cipkę dla Ciebie"@,
            GalleryCategory::Analne => "Analne"@,
            GalleryCategory::ZabawyWibratorem => "Zabawy wibratorem"@,
            GalleryCategory::Orgazm => "Orgazm"@,
        }
    }

    /// The label under which storage keeps the category.
    pub open spec fn spec_db_label(self) -> Seq<char> {
        match self {
            GalleryCategory::Piersi => "Piersi"@,
            GalleryCategory::Tylek => "Tyłek"@,
            GalleryCategory::Cipka => "Cipka"@,
            GalleryCategory::CaleCialo => "CałeCiało"@,
            GalleryCategory::OtwieramCipkeDlaCiebie => "OtwieramCipkęDlaCiebie"@,
            GalleryCategory::Analne => "Analne"@,
            GalleryCategory::ZabawyWibratorem => "ZabawyWibratorem"@,
            GalleryCategory::Orgazm => "Orgazm"@,
        }
    }

    /// Every category, in declaration order.
    pub open spec fn spec_all() -> Seq<GalleryCategory> {
        seq![
            GalleryCategory::Piersi,
            GalleryCategory::Tylek,
            GalleryCategory::Cipka,
            GalleryCategory::CaleCialo,
            GalleryCategory::OtwieramCipkeDlaCiebie,
            GalleryCategory::Analne,
            GalleryCategory::ZabawyWibratorem,
            GalleryCategory::Orgazm,
        ]
    }

    /// The display label of the category.
    pub fn label(&self) -> (r: &'static str)
        ensures
            r@ == self.spec_label(),
    {
        match self {
            GalleryCategory::Piersi => "Piersi",
            GalleryCategory::Tylek => "Tyłek",
            GalleryCategory::Cipka => "Cipka",
            GalleryCategory::CaleCialo => "Całe Ciało",
            GalleryCategory::OtwieramCipkeDlaCiebie => "Otwieram Cipkę dla Ciebie",
            GalleryCategory::Analne => "Analne",
            GalleryCategory::ZabawyWibratorem => "Zabawy wibratorem",
            GalleryCategory::Orgazm => "Orgazm",
        }
    }

    /// The display label as an owned string.
    pub fn to_string(&self) -> (r: String)
        ensures
            r@ == self.spec_label(),
    {
        String::from_str(self.label())
    }

    /// The storage label of the category.
    pub fn db_label(&self) -> (r: &'static str)
        ensures
            r@ == self.spec_db_label(),
    {
        match self {
            GalleryCategory::Piersi => "Piersi",
            GalleryCategory::Tylek => "Tyłek",
            GalleryCategory::Cipka => "Cipka",
            GalleryCategory::CaleCialo => "CałeCiało",
            GalleryCategory::OtwieramCipkeDlaCiebie => "OtwieramCipkęDlaCiebie",
            GalleryCategory::Analne => "Analne",
            GalleryCategory::ZabawyWibratorem => "ZabawyWibratorem",
            GalleryCategory::Orgazm => "Orgazm",
        }
    }

    /// Every category, in declaration order.
    pub fn all() -> (r: Vec<GalleryCategory>)
        ensures
            r@ == Self::spec_all(),
    {
        let r = vec![
            GalleryCategory::Piersi,
            GalleryCategory::Tylek,
            GalleryCategory::Cipka,
            GalleryCategory::CaleCialo,
            GalleryCategory::OtwieramCipkeDlaCiebie,
            GalleryCategory::Analne,
            GalleryCategory::ZabawyWibratorem,
            GalleryCategory::Orgazm,
        ];
        assert(r@ =~= Self::spec_all());
        r
    }

    /// Reads a category from its display label; any other text is invalid input.
    pub fn parse(s: &str) -> (r: Result<GalleryCategory, AppError>)
        ensures
            match r {
                Ok(c) => c.spec_label() == s@,
                Err(e) => e == AppError::InvalidInput && forall|c: GalleryCategory|
                    #[trigger] c.spec_label() != s@,
            },
    {
        let all = Self::all();
        let mut i: usize = 0;
        while i < all.len()
            invariant
                all@ == Self::spec_all(),
                i <= all@.len(),
                forall|j: int| 0 <= j < i ==> all@[j].spec_label() != s@,
            decreases all@.len() - i,
        {
            let c = all[i];
            if same_text(s, c.label()) {
                return Ok(c);
            }
            i += 1;
        }
        assert forall|c: GalleryCategory| #[trigger] c.spec_label() != s@ by {
            lemma_listed(c);
        }
        Err(AppError::InvalidInput)
    }

    /// Reads a category from a form value that arrived as an owned string.
    pub fn try_from(value: String) -> (r: Result<GalleryCategory, AppError>)
        ensures
            match r {
                Ok(c) => c.spec_label() == value@,
                Err(e) => e == AppError::InvalidInput && forall|c: GalleryCategory|
                    #[trigger] c.spec_label() != value@,
            },
    {
        Self::parse(value.as_str())
    }

    /// Reads a category from its storage label.
    pub fn from_db_label(s: &str) -> (r: Result<GalleryCategory, AppError>)
        ensures
            match r {
                Ok(c) => c.spec_db_label() == s@,
                Err(e) => e == AppError::InvalidInput && forall|c: GalleryCategory|
                    #[trigger] c.spec_db_label() != s@,
            },
    {
        let all = Self::all();
        let mut i: usize = 0;
        while i < all.len()
            invariant
                all@ == Self::spec_all(),
                i <= all@.len(),
                forall|j: int| 0 <= j < i ==> all@[j].spec_db_label() != s@,
            decreases all@.len() - i,
        {
            let c = all[i];
            if same_text(s, c.db_label()) {
                return Ok(c);
            }
            i += 1;
        }
        assert forall|c: GalleryCategory| #[trigger] c.spec_db_label() != s@ by {
            lemma_listed(c);
        }
        Err(AppError::InvalidInput)
    }
}

/// Every category stands in the list of all categories.
proof fn lemma_listed(c: GalleryCategory)
    ensures
        exists|j: int| 0 <= j < 8 && GalleryCategory::spec_all()[j] == c,
{
    let all = GalleryCategory::spec_all();
    match c {
        GalleryCategory::Piersi => assert(all[0] == c),
        GalleryCategory::Tylek => assert(all[1] == c),
        GalleryCategory::Cipka => assert(all[2] == c),
        GalleryCategory::CaleCialo => assert(all[3] == c),
        GalleryCategory::OtwieramCipkeDlaCiebie => assert(all[4] == c),
        GalleryCategory::Analne => assert(all[5] == c),
        GalleryCategory::ZabawyWibratorem => assert(all[6] == c),
        GalleryCategory::Orgazm => assert(all[7] == c),
    }
}

/// Distinct categories have distinct display labels, so `parse` of a
/// category's label gives back that category.
pub proof fn label_identifies_category(a: GalleryCategory, b: GalleryCategory)
    requires
        a.spec_label() == b.spec_label(),
    ensures
        a == b,
{
    reveal_strlit("Piersi");
    reveal_strlit("Tyłek");
    reveal_strlit("Cipka");
    reveal_strlit("Całe Ciało");
    reveal_strlit("Otwieram Cipkę dla Ciebie");
    reveal_strlit("Analne");
    reveal_strlit("Zabawy wibratorem");
    reveal_strlit("Orgazm");
    if a != b {
        let (x, y) = (a.spec_label(), b.spec_label());
        assert(x.len() != y.len() || x[0] != y[0] || x[1] != y[1] || x[8] != y[8]);
    }
}

/// Distinct categories have distinct storage labels.
pub proof fn db_label_identifies_category(a: GalleryCategory, b: GalleryCategory)
    requires
        a.spec_db_label() == b.spec_db_label(),
    ensures
        a == b,
{
    reveal_strlit("Piersi");
    reveal_strlit("Tyłek");
    reveal_strlit("Cipka");
    reveal_strlit("CałeCiało");
    reveal_strlit("OtwieramCipkęDlaCiebie");
    reveal_strlit("Analne");
    reveal_strlit("ZabawyWibratorem");
    reveal_strlit("Orgazm");
    if a != b {
        let (x, y) = (a.spec_db_label(), b.spec_db_label());
        assert(x.len() != y.len() || x[0] != y[0] || x[1] != y[1]);
    }
}

} // verus!
