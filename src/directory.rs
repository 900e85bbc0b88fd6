//! An in-memory directory of accounts, sessions, galleries, photos and stored
//! files. It applies the same rules as the relational store of the site and
//! is the model over which the library states its laws.

use vstd::prelude::*;
use crate::credential::{derive_password_hash_with_salt, fresh_salt, is_argon2id_phc, password_matches, MAX_PASSWORD_CHARS, SALT_BYTES};
use crate::erika::{Erika, Role};
use crate::error::AppError;
use crate::authz::{authorize_gallery_update, authorize_photo_delete, login_decision, require_gallery_owner};
use crate::category::GalleryCategory;
use crate::forms::{LoginPayload, RegisterErikaPayload, UpdateGalleryPayload};
use crate::gallery::Gallery;
use crate::photo::Photo;
use crate::text::same_text;
use crate::upload::{path_of_url, plan_upload, stored_file_name, StoredUpload};

verus! {

/// The lower-case form of a text, as `str::to_lowercase` gives it.
pub uninterp spec fn lowercase_of(s: Seq<char>) -> Seq<char>;

/// Relies on str::to_lowercase: the Unicode lower-case mapping of each
/// character, a function of the text alone.
#[verifier::external_body]
fn to_lowercase(s: &str) -> (r: String)
    ensures
        r@ == lowercase_of(s@),
{
    s.to_lowercase()
}

/// Whether two usernames are the same name, ignoring case.
pub open spec fn same_username(a: Seq<char>, b: Seq<char>) -> bool {
    lowercase_of(a) == lowercase_of(b)
}

/// Whether two usernames are the same name, ignoring case.
pub fn usernames_match(a: &str, b: &str) -> (r: bool)
    ensures
        r == same_username(a@, b@),
{
    let la = to_lowercase(a);
    let lb = to_lowercase(b);
    same_text(la.as_str(), lb.as_str())
}

/// How long a session stays valid without being used, in seconds.
pub const SESSION_INACTIVITY_SECONDS: i64 = 86400;

/// A session token bound to an account, with the time it was last used.
#[derive(Debug, Clone, Copy, PartialEq, Eq, Structural)]
pub struct Session {
    pub token: u128,
    pub erika_id: u128,
    pub last_seen: i64,
}

/// Accounts, sessions, galleries, photos, and the paths of stored files.
#[derive(Debug)]
pub struct Directory {
    pub erikas: Vec<Erika>,
    pub sessions: Vec<Session>,
    pub galleries: Vec<Gallery>,
    pub photos: Vec<Photo>,
    pub files: Vec<String>,
}

pub open spec fn has_account(erikas: Seq<Erika>, id: u128) -> bool {
    exists|i: int| 0 <= i < erikas.len() && #[trigger] erikas[i].id == id
}

pub open spec fn username_taken(erikas: Seq<Erika>, name: Seq<char>) -> bool {
    exists|i: int| 0 <= i < erikas.len() && #[trigger] same_username(erikas[i].username@, name)
}

pub open spec fn has_session(sessions: Seq<Session>, token: u128) -> bool {
    exists|i: int| 0 <= i < sessions.len() && #[trigger] sessions[i].token == token
}

pub open spec fn has_gallery(galleries: Seq<Gallery>, id: u128) -> bool {
    exists|i: int| 0 <= i < galleries.len() && #[trigger] galleries[i].id == id
}

pub open spec fn has_photo(photos: Seq<Photo>, id: u128) -> bool {
    exists|i: int| 0 <= i < photos.len() && #[trigger] photos[i].id == id
}

pub open spec fn has_file(files: Seq<String>, path: Seq<char>) -> bool {
    exists|i: int| 0 <= i < files.len() && #[trigger] files[i]@ == path
}

/// Account ids are unique, and so are usernames, ignoring case.
pub open spec fn accounts_wf(e: Seq<Erika>) -> bool {
    &&& forall|i: int, j: int|
        0 <= i < e.len() && 0 <= j < e.len() && i != j ==> #[trigger] e[i].id != #[trigger] e[j].id
    &&& forall|i: int, j: int|
        0 <= i < e.len() && 0 <= j < e.len() && i != j ==> !same_username(
            #[trigger] e[i].username@,
            #[trigger] e[j].username@,
        )
}

/// Session tokens are unique.
pub open spec fn sessions_wf(s: Seq<Session>) -> bool {
    forall|i: int, j: int|
        0 <= i < s.len() && 0 <= j < s.len() && i != j ==> #[trigger] s[i].token != #[trigger] s[j].token
}

/// Gallery ids are unique and every gallery's owner is an account.
pub open spec fn galleries_wf(g: Seq<Gallery>, e: Seq<Erika>) -> bool {
    &&& forall|i: int, j: int|
        0 <= i < g.len() && 0 <= j < g.len() && i != j ==> #[trigger] g[i].id != #[trigger] g[j].id
    &&& forall|i: int| 0 <= i < g.len() ==> has_account(e, #[trigger] g[i].erika_id)
}

/// Photo ids are unique and every photo lies in a gallery.
pub open spec fn photos_wf(p: Seq<Photo>, g: Seq<Gallery>) -> bool {
    &&& forall|i: int, j: int|
        0 <= i < p.len() && 0 <= j < p.len() && i != j ==> #[trigger] p[i].id != #[trigger] p[j].id
    &&& forall|i: int| 0 <= i < p.len() ==> has_gallery(g, #[trigger] p[i].gallery_id)
}

/// Galleries are kept in order of creation time.
pub open spec fn gallery_times_sorted(g: Seq<Gallery>) -> bool {
    forall|i: int, j: int| 0 <= i <= j < g.len() ==> #[trigger] g[i].created_at <= #[trigger] g[j].created_at
}

/// Photos are kept in order of upload time.
pub open spec fn photo_times_sorted(p: Seq<Photo>) -> bool {
    forall|i: int, j: int| 0 <= i <= j < p.len() ==> #[trigger] p[i].created_at <= #[trigger] p[j].created_at
}

/// The creation time given to a new gallery at `now`: `now`, or the latest
/// creation time so far if the clock reads earlier, so that times never
/// decrease.
pub open spec fn gallery_stamp(g: Seq<Gallery>, now: i64) -> i64 {
    if g.len() > 0 && g.last().created_at > now {
        g.last().created_at
    } else {
        now
    }
}

/// The upload time given to a new photo at `now`, by the same rule.
pub open spec fn photo_stamp(p: Seq<Photo>, now: i64) -> i64 {
    if p.len() > 0 && p.last().created_at > now {
        p.last().created_at
    } else {
        now
    }
}

/// Stored file paths are unique.
pub open spec fn files_wf(f: Seq<String>) -> bool {
    forall|i: int, j: int|
        0 <= i < f.len() && 0 <= j < f.len() && i != j ==> #[trigger] f[i]@ != #[trigger] f[j]@
}

impl Directory {
    /// The directory's invariant: identifiers, usernames (ignoring case),
    /// session tokens and file paths are unique; every gallery has an owning
    /// account and every photo a gallery.
    pub open spec fn wf(&self) -> bool {
        &&& accounts_wf(self.erikas@)
        &&& sessions_wf(self.sessions@)
        &&& galleries_wf(self.galleries@, self.erikas@)
        &&& photos_wf(self.photos@, self.galleries@)
        &&& files_wf(self.files@)
        &&& gallery_times_sorted(self.galleries@)
        &&& photo_times_sorted(self.photos@)
    }

    /// An empty directory.
    pub fn new() -> (r: Directory)
        ensures
            r.wf(),
            r.erikas@.len() == 0,
            r.sessions@.len() == 0,
            r.galleries@.len() == 0,
            r.photos@.len() == 0,
            r.files@.len() == 0,
    {
        Directory {
            erikas: Vec::new(),
            sessions: Vec::new(),
            galleries: Vec::new(),
            photos: Vec::new(),
            files: Vec::new(),
        }
    }

    /// The position of the account `id`.
    fn account_index(&self, id: u128) -> (r: Option<usize>)
        ensures
            match r {
                Some(i) => i < self.erikas@.len() && self.erikas@[i as int].id == id,
                None => !has_account(self.erikas@, id),
            },
    {
        let mut i: usize = 0;
        while i < self.erikas.len()
            invariant
                i <= self.erikas@.len(),
                forall|j: int| 0 <= j < i ==> self.erikas@[j].id != id,
            decreases self.erikas@.len() - i,
        {
            if self.erikas[i].id == id {
                return Some(i);
            }
            i += 1;
        }
        None
    }

    /// The position of the account named `name`, ignoring case.
    fn username_index(&self, name: &str) -> (r: Option<usize>)
        ensures
            match r {
                Some(i) => i < self.erikas@.len() && same_username(self.erikas@[i as int].username@, name@),
                None => !username_taken(self.erikas@, name@),
            },
    {
        let mut i: usize = 0;
        while i < self.erikas.len()
            invariant
                i <= self.erikas@.len(),
                forall|j: int| 0 <= j < i ==> !same_username(#[trigger] self.erikas@[j].username@, name@),
            decreases self.erikas@.len() - i,
        {
            if usernames_match(self.erikas[i].username.as_str(), name) {
                return Some(i);
            }
            i += 1;
        }
        None
    }

}

/// What a freshly registered account holds.
pub open spec fn is_new_account(e: Erika, payload: RegisterErikaPayload, id: u128) -> bool {
    &&& e.id == id
    &&& e.username@ == payload.username@
    &&& e.email@ == payload.email@
    &&& password_matches(payload.password@, e.password_hash@)
    &&& is_argon2id_phc(e.password_hash@)
    &&& e.profile_image_url is None
    &&& e.bio is None
    &&& !e.is_online
    &&& e.role == Role::Member
    &&& !e.is_approved
}

impl Erika {
    /// Looks an account up by username, ignoring case.
    pub fn find_by_username<'a>(username: &str, db: &'a Directory) -> (r: Option<&'a Erika>)
        ensures
            match r {
                Some(e) => exists|i: int|
                    0 <= i < db.erikas@.len() && db.erikas@[i] == *e && same_username(
                        e.username@,
                        username@,
                    ),
                None => !username_taken(db.erikas@, username@),
            },
    {
        match db.username_index(username) {
            Some(i) => Some(&db.erikas[i]),
            None => None,
        }
    }

    /// Looks an account up by its exact username, as public profile
    /// addresses name it.
    pub fn find_by_public_username<'a>(username: &str, db: &'a Directory) -> (r: Option<&'a Erika>)
        ensures
            match r {
                Some(e) => exists|i: int|
                    0 <= i < db.erikas@.len() && db.erikas@[i] == *e && e.username@ == username@,
                None => forall|i: int|
                    0 <= i < db.erikas@.len() ==> #[trigger] db.erikas@[i].username@ != username@,
            },
    {
        let mut i: usize = 0;
        while i < db.erikas.len()
            invariant
                i <= db.erikas@.len(),
                forall|j: int| 0 <= j < i ==> #[trigger] db.erikas@[j].username@ != username@,
            decreases db.erikas@.len() - i,
        {
            if same_text(db.erikas[i].username.as_str(), username) {
                return Some(&db.erikas[i]);
            }
            i += 1;
        }
        None
    }

    /// Looks an account up by id.
    pub fn find_by_id<'a>(id: u128, db: &'a Directory) -> (r: Option<&'a Erika>)
        ensures
            match r {
                Some(e) => e.id == id && exists|i: int| 0 <= i < db.erikas@.len() && db.erikas@[i] == *e,
                None => !has_account(db.erikas@, id),
            },
    {
        match db.account_index(id) {
            Some(i) => Some(&db.erikas[i]),
            None => None,
        }
    }

    /// Registers a new account under the id `new_id`, hashing its password
    /// with the given salt bytes. A username that is already taken, ignoring
    /// case, is a conflict; an id already in use is an internal error. With a
    /// free username, a fresh id, a sixteen-byte salt and a password of at
    /// most `MAX_PASSWORD_CHARS` characters it succeeds: the account is added,
    /// an offline member awaiting approval whose credential is an Argon2id PHC
    /// string that verifies against the password. On failure nothing changes.
    pub fn create_with_salt(payload: &RegisterErikaPayload, db: &mut Directory, new_id: u128, salt: &[u8]) -> (r: Result<(), AppError>)
        requires
            old(db).wf(),
        ensures
            final(db).wf(),
            final(db).sessions == old(db).sessions,
            final(db).galleries == old(db).galleries,
            final(db).photos == old(db).photos,
            final(db).files == old(db).files,
            (r == Err::<(), AppError>(AppError::Conflict)) == username_taken(old(db).erikas@, payload.username@),
            !username_taken(old(db).erikas@, payload.username@) && has_account(old(db).erikas@, new_id)
                ==> r == Err::<(), AppError>(AppError::InternalServerError),
            !username_taken(old(db).erikas@, payload.username@) && !has_account(old(db).erikas@, new_id)
                && salt@.len() == SALT_BYTES && payload.password@.len() <= MAX_PASSWORD_CHARS ==> r is Ok,
            r is Err ==> r->Err_0 == AppError::Conflict || r->Err_0 == AppError::InternalServerError,
            r is Err ==> final(db).erikas@ == old(db).erikas@,
            r is Ok ==> final(db).erikas@.len() == old(db).erikas@.len() + 1
                && final(db).erikas@.drop_last() == old(db).erikas@
                && is_new_account(final(db).erikas@.last(), *payload, new_id),
    {
        if db.username_index(payload.username.as_str()).is_some() {
            return Err(AppError::Conflict);
        }
        if db.account_index(new_id).is_some() {
            return Err(AppError::InternalServerError);
        }
        let hash = derive_password_hash_with_salt(payload.password.as_str(), salt)?;
        let account = Erika {
            id: new_id,
            username: payload.username.clone(),
            email: payload.email.clone(),
            password_hash: hash,
            profile_image_url: None,
            bio: None,
            is_online: false,
            role: Role::Member,
            is_approved: false,
        };
        let ghost before = db.erikas@;
        db.erikas.push(account);
        proof {
            let e = db.erikas@;
            assert(e.drop_last() =~= before);
            assert forall|i: int| 0 <= i < db.galleries@.len() implies has_account(
                e,
                #[trigger] db.galleries@[i].erika_id,
            ) by {
                let k = choose|k: int| 0 <= k < before.len() && #[trigger] before[k].id == db.galleries@[i].erika_id;
                assert(e[k] == before[k]);
            }
            assert forall|i: int, j: int|
                0 <= i < e.len() && 0 <= j < e.len() && i != j implies !same_username(
                #[trigger] e[i].username@,
                #[trigger] e[j].username@,
            ) by {
                if i < before.len() && j < before.len() {
                    assert(e[i] == before[i] && e[j] == before[j]);
                } else if i < before.len() {
                    assert(e[i] == before[i]);
                    assert(!same_username(before[i].username@, payload.username@));
                } else {
                    assert(e[j] == before[j]);
                    assert(!same_username(before[j].username@, payload.username@));
                }
            }
            assert forall|i: int, j: int|
                0 <= i < e.len() && 0 <= j < e.len() && i != j implies #[trigger] e[i].id
                != #[trigger] e[j].id by {
                if i < before.len() && j < before.len() {
                    assert(e[i] == before[i] && e[j] == before[j]);
                } else if i < before.len() {
                    assert(e[i] == before[i]);
                } else {
                    assert(e[j] == before[j]);
                }
            }
        }
        Ok(())
    }

    /// Registers a new account under the id `new_id`, as `create_with_salt`
    /// does with sixteen fresh random bytes. A username that is taken,
    /// ignoring case, is a conflict and nothing else is; any other failure
    /// (an id in use, a random source that fails, a password too long to
    /// hash) is an internal error. On failure nothing changes.
    pub fn create(payload: &RegisterErikaPayload, db: &mut Directory, new_id: u128) -> (r: Result<(), AppError>)
        requires
            old(db).wf(),
        ensures
            final(db).wf(),
            final(db).sessions == old(db).sessions,
            final(db).galleries == old(db).galleries,
            final(db).photos == old(db).photos,
            final(db).files == old(db).files,
            (r == Err::<(), AppError>(AppError::Conflict)) == username_taken(old(db).erikas@, payload.username@),
            !username_taken(old(db).erikas@, payload.username@) && has_account(old(db).erikas@, new_id)
                ==> r == Err::<(), AppError>(AppError::InternalServerError),
            r is Err ==> r->Err_0 == AppError::Conflict || r->Err_0 == AppError::InternalServerError,
            r is Err ==> final(db).erikas@ == old(db).erikas@,
            r is Ok ==> final(db).erikas@.len() == old(db).erikas@.len() + 1
                && final(db).erikas@.drop_last() == old(db).erikas@
                && is_new_account(final(db).erikas@.last(), *payload, new_id),
    {
        if db.username_index(payload.username.as_str()).is_some() {
            return Err(AppError::Conflict);
        }
        if db.account_index(new_id).is_some() {
            return Err(AppError::InternalServerError);
        }
        match fresh_salt() {
            Some(salt) => Erika::create_with_salt(payload, db, new_id, salt.as_slice()),
            None => Err(AppError::InternalServerError),
        }
    }
}

/// Whether some account's username matches `username`, ignoring case, and
/// its credential accepts `password`.
pub open spec fn login_accepts(erikas: Seq<Erika>, username: Seq<char>, password: Seq<char>) -> bool {
    exists|i: int|
        0 <= i < erikas.len() && #[trigger] same_username(erikas[i].username@, username) && password_matches(
            password,
            erikas[i].password_hash@,
        )
}

/// Whether a session last used at `s.last_seen` has lapsed at time `now`.
pub open spec fn session_expired(s: Session, now: i64) -> bool {
    now as int - s.last_seen as int > SESSION_INACTIVITY_SECONDS as int
}

/// Replacing account `i` by one with the same id, and a username that no other
/// account has, keeps the directory well formed.
proof fn lemma_replace_account(before: Directory, after: Directory, i: int)
    requires
        before.wf(),
        0 <= i < before.erikas@.len(),
        after.erikas@ == before.erikas@.update(i, after.erikas@[i]),
        after.erikas@[i].id == before.erikas@[i].id,
        forall|j: int|
            0 <= j < before.erikas@.len() && j != i ==> !same_username(
                #[trigger] before.erikas@[j].username@,
                after.erikas@[i].username@,
            ),
        after.sessions == before.sessions,
        after.galleries == before.galleries,
        after.photos == before.photos,
        after.files == before.files,
    ensures
        after.wf(),
{
    let (e0, e1) = (before.erikas@, after.erikas@);
    assert forall|a: int, b: int|
        0 <= a < e1.len() && 0 <= b < e1.len() && a != b implies #[trigger] e1[a].id != #[trigger] e1[b].id by {
        if a != i && b != i {
            assert(e1[a] == e0[a] && e1[b] == e0[b]);
        } else if a == i {
            assert(e1[b] == e0[b]);
        } else {
            assert(e1[a] == e0[a]);
        }
    }
    assert forall|a: int, b: int|
        0 <= a < e1.len() && 0 <= b < e1.len() && a != b implies !same_username(
        #[trigger] e1[a].username@,
        #[trigger] e1[b].username@,
    ) by {
        if a != i && b != i {
            assert(e1[a] == e0[a] && e1[b] == e0[b]);
        } else if a == i {
            assert(e1[b] == e0[b]);
        } else {
            assert(e1[a] == e0[a]);
        }
    }
    let g = after.galleries@;
    assert forall|k: int| 0 <= k < g.len() implies has_account(e1, #[trigger] g[k].erika_id) by {
        let m = choose|m: int| 0 <= m < e0.len() && #[trigger] e0[m].id == g[k].erika_id;
        if m == i {
            assert(e1[i].id == g[k].erika_id);
        } else {
            assert(e1[m] == e0[m]);
        }
    }
}

/// Removing one element keeps session tokens unique.
proof fn lemma_remove_session(s: Seq<Session>, k: int)
    requires
        sessions_wf(s),
        0 <= k < s.len(),
    ensures
        sessions_wf(s.remove(k)),
        !has_session(s.remove(k), s[k].token),
{
    let r = s.remove(k);
    assert forall|a: int, b: int|
        0 <= a < r.len() && 0 <= b < r.len() && a != b implies #[trigger] r[a].token != #[trigger] r[b].token by {
        let a0 = if a < k { a } else { a + 1 };
        let b0 = if b < k { b } else { b + 1 };
        assert(r[a] == s[a0] && r[b] == s[b0]);
    }
    if has_session(r, s[k].token) {
        let a = choose|a: int| 0 <= a < r.len() && #[trigger] r[a].token == s[k].token;
        let a0 = if a < k { a } else { a + 1 };
        assert(r[a] == s[a0]);
    }
}

impl Directory {
    /// The position of the session `token`.
    fn session_index(&self, token: u128) -> (r: Option<usize>)
        ensures
            match r {
                Some(k) => k < self.sessions@.len() && self.sessions@[k as int].token == token,
                None => !has_session(self.sessions@, token),
            },
    {
        let mut k: usize = 0;
        while k < self.sessions.len()
            invariant
                k <= self.sessions@.len(),
                forall|j: int| 0 <= j < k ==> self.sessions@[j].token != token,
            decreases self.sessions@.len() - k,
        {
            if self.sessions[k].token == token {
                return Some(k);
            }
            k += 1;
        }
        None
    }

    /// Logs in: binds the new session `token` to the account whose username
    /// matches, ignoring case, and whose credential accepts the password, and
    /// returns the token. An unknown username, a wrong password and an
    /// unreadable credential all give the same `Unauthorized`, so a failure
    /// does not tell whether the username exists. A token already in use is
    /// an internal error. Only the sessions change, and only on success.
    pub fn login(&mut self, payload: &LoginPayload, token: u128, now: i64) -> (r: Result<u128, AppError>)
        requires
            old(self).wf(),
        ensures
            final(self).wf(),
            final(self).erikas == old(self).erikas,
            final(self).galleries == old(self).galleries,
            final(self).photos == old(self).photos,
            final(self).files == old(self).files,
            !login_accepts(old(self).erikas@, payload.username@, payload.password@) ==> r == Err::<u128, AppError>(
                AppError::Unauthorized,
            ),
            login_accepts(old(self).erikas@, payload.username@, payload.password@) && has_session(
                old(self).sessions@,
                token,
            ) ==> r == Err::<u128, AppError>(AppError::InternalServerError),
            login_accepts(old(self).erikas@, payload.username@, payload.password@) && !has_session(
                old(self).sessions@,
                token,
            ) ==> r == Ok::<u128, AppError>(token),
            r is Err ==> final(self).sessions == old(self).sessions,
            r is Ok ==> exists|i: int|
                0 <= i < old(self).erikas@.len() && same_username(old(self).erikas@[i].username@, payload.username@)
                    && password_matches(payload.password@, old(self).erikas@[i].password_hash@)
                    && final(self).sessions@ == old(self).sessions@.push(
                    Session { token, erika_id: old(self).erikas@[i].id, last_seen: now },
                ),
    {
        let i = match self.username_index(payload.username.as_str()) {
            Some(i) => i,
            None => return Err(AppError::Unauthorized),
        };
        if login_decision(Some(&self.erikas[i]), payload.password.as_str()).is_err() {
            proof {
                let e = self.erikas@;
                if login_accepts(e, payload.username@, payload.password@) {
                    let j = choose|j: int|
                        0 <= j < e.len() && #[trigger] same_username(e[j].username@, payload.username@)
                            && password_matches(payload.password@, e[j].password_hash@);
                    assert(same_username(e[j].username@, e[i as int].username@));
                }
            }
            return Err(AppError::Unauthorized);
        }
        if self.session_index(token).is_some() {
            return Err(AppError::InternalServerError);
        }
        let erika_id = self.erikas[i].id;
        let ghost before = self.sessions@;
        self.sessions.push(Session { token, erika_id, last_seen: now });
        proof {
            let s = self.sessions@;
            assert forall|a: int, b: int|
                0 <= a < s.len() && 0 <= b < s.len() && a != b implies #[trigger] s[a].token
                != #[trigger] s[b].token by {
                if a < before.len() && b < before.len() {
                    assert(s[a] == before[a] && s[b] == before[b]);
                } else if a < before.len() {
                    assert(s[a] == before[a]);
                } else {
                    assert(s[b] == before[b]);
                }
            }
        }
        Ok(token)
    }

    /// The account bound to the session `token` at time `now`. Using a live
    /// session renews it; a session unused for longer than the inactivity
    /// window is destroyed and gives `None`, as does an unknown token.
    pub fn resolve(&mut self, token: u128, now: i64) -> (r: Option<u128>)
        requires
            old(self).wf(),
        ensures
            final(self).wf(),
            final(self).erikas == old(self).erikas,
            final(self).galleries == old(self).galleries,
            final(self).photos == old(self).photos,
            final(self).files == old(self).files,
            !has_session(old(self).sessions@, token) ==> r is None && final(self).sessions == old(self).sessions,
            forall|k: int|
                0 <= k < old(self).sessions@.len() && #[trigger] old(self).sessions@[k].token == token ==> if session_expired(
                    old(self).sessions@[k],
                    now,
                ) {
                    r is None && final(self).sessions@ == old(self).sessions@.remove(k)
                } else {
                    r == Some(old(self).sessions@[k].erika_id) && final(self).sessions@
                        == old(self).sessions@.update(k, Session { last_seen: now, ..old(self).sessions@[k] })
                },
    {
        let k = match self.session_index(token) {
            Some(k) => k,
            None => return None,
        };
        let s = self.sessions[k];
        if (now as i128) - (s.last_seen as i128) > (SESSION_INACTIVITY_SECONDS as i128) {
            proof {
                lemma_remove_session(self.sessions@, k as int);
            }
            self.sessions.remove(k);
            None
        } else {
            let ghost before = self.sessions@;
            self.sessions.set(k, Session { token: s.token, erika_id: s.erika_id, last_seen: now });
            proof {
                let after = self.sessions@;
                assert forall|a: int, b: int|
                    0 <= a < after.len() && 0 <= b < after.len() && a != b implies #[trigger] after[a].token
                    != #[trigger] after[b].token by {
                    assert(after[a].token == before[a].token && after[b].token == before[b].token);
                }
            }
            Some(s.erika_id)
        }
    }

    /// Logs out: destroys the session `token`, so that resolving it again
    /// gives `None`. Other sessions stay.
    pub fn logout(&mut self, token: u128)
        requires
            old(self).wf(),
        ensures
            final(self).wf(),
            final(self).erikas == old(self).erikas,
            final(self).galleries == old(self).galleries,
            final(self).photos == old(self).photos,
            final(self).files == old(self).files,
            !has_session(final(self).sessions@, token),
            !has_session(old(self).sessions@, token) ==> final(self).sessions == old(self).sessions,
            forall|k: int|
                0 <= k < old(self).sessions@.len() && #[trigger] old(self).sessions@[k].token == token
                    ==> final(self).sessions@ == old(self).sessions@.remove(k),
    {
        match self.session_index(token) {
            Some(k) => {
                proof {
                    lemma_remove_session(self.sessions@, k as int);
                }
                self.sessions.remove(k);
            },
            None => {},
        }
    }

    /// Flips the online flag of the account `id` and returns the new value.
    /// Nothing else changes. An unknown account is `NotFound`.
    pub fn toggle_online(&mut self, id: u128) -> (r: Result<bool, AppError>)
        requires
            old(self).wf(),
        ensures
            final(self).wf(),
            !has_account(old(self).erikas@, id) ==> r == Err::<bool, AppError>(AppError::NotFound) && *final(self)
                == *old(self),
            has_account(old(self).erikas@, id) ==> online_toggled(*old(self), *final(self), id) && r == Ok::<
                bool,
                AppError,
            >(online_of(final(self).erikas@, id)),
    {
        let i = match self.account_index(id) {
            Some(i) => i,
            None => return Err(AppError::NotFound),
        };
        let ghost before = *self;
        let flipped = !self.erikas[i].is_online;
        self.erikas[i].is_online = flipped;
        proof {
            lemma_replace_account(before, *self, i as int);
            lemma_online_of(self.erikas@, i as int);
        }
        Ok(flipped)
    }
}

/// The online flag of the account `id`.
pub open spec fn online_of(erikas: Seq<Erika>, id: u128) -> bool {
    exists|i: int| 0 <= i < erikas.len() && erikas[i].id == id && #[trigger] erikas[i].is_online
}

proof fn lemma_online_of(erikas: Seq<Erika>, i: int)
    requires
        accounts_wf(erikas),
        0 <= i < erikas.len(),
    ensures
        online_of(erikas, erikas[i].id) == erikas[i].is_online,
{
    if online_of(erikas, erikas[i].id) {
        let j = choose|j: int| 0 <= j < erikas.len() && erikas[j].id == erikas[i].id && #[trigger] erikas[j].is_online;
        assert(erikas[j].id == erikas[i].id);
    }
}

/// `after` is `before` with the online flag of the account `id` flipped and
/// nothing else changed.
pub open spec fn online_toggled(before: Directory, after: Directory, id: u128) -> bool {
    &&& after.sessions == before.sessions
    &&& after.galleries == before.galleries
    &&& after.photos == before.photos
    &&& after.files == before.files
    &&& exists|i: int|
        0 <= i < before.erikas@.len() && #[trigger] before.erikas@[i].id == id && after.erikas@ == before.erikas@.update(
            i,
            Erika { is_online: !before.erikas@[i].is_online, ..before.erikas@[i] },
        )
}

/// The gallery `id`, if there is one.
pub open spec fn gallery_with_id(galleries: Seq<Gallery>, id: u128) -> Option<Gallery> {
    if has_gallery(galleries, id) {
        Some(galleries[choose|i: int| 0 <= i < galleries.len() && #[trigger] galleries[i].id == id])
    } else {
        None
    }
}

/// Whether the gallery `gallery_id` exists and belongs to `account_id`.
pub open spec fn owns_gallery(galleries: Seq<Gallery>, account_id: u128, gallery_id: u128) -> bool {
    match gallery_with_id(galleries, gallery_id) {
        Some(g) => g.erika_id == account_id,
        None => false,
    }
}

/// The photo `id`, if there is one.
pub open spec fn photo_with_id(photos: Seq<Photo>, id: u128) -> Option<Photo> {
    if has_photo(photos, id) {
        Some(photos[choose|i: int| 0 <= i < photos.len() && #[trigger] photos[i].id == id])
    } else {
        None
    }
}

/// The number of photos in the gallery `gallery_id`.
pub open spec fn photo_count(photos: Seq<Photo>, gallery_id: u128) -> nat
    decreases photos.len(),
{
    if photos.len() == 0 {
        0
    } else {
        photo_count(photos.drop_last(), gallery_id) + if photos.last().gallery_id == gallery_id {
            1nat
        } else {
            0nat
        }
    }
}

/// The ids and upload times of the photos in the gallery `gallery_id`, in
/// storage order.
pub open spec fn photo_entries_in(photos: Seq<Photo>, gallery_id: u128) -> Seq<(u128, i64)>
    decreases photos.len(),
{
    if photos.len() == 0 {
        Seq::empty()
    } else if photos.last().gallery_id == gallery_id {
        photo_entries_in(photos.drop_last(), gallery_id).push((photos.last().id, photos.last().created_at))
    } else {
        photo_entries_in(photos.drop_last(), gallery_id)
    }
}

/// The ids and creation times of the galleries that `owner` owns, in reverse
/// storage order.
pub open spec fn gallery_entries_newest_first(galleries: Seq<Gallery>, owner: u128) -> Seq<(u128, i64)>
    decreases galleries.len(),
{
    if galleries.len() == 0 {
        Seq::empty()
    } else {
        let rest = gallery_entries_newest_first(galleries.subrange(1, galleries.len() as int), owner);
        if galleries[0].erika_id == owner {
            rest.push((galleries[0].id, galleries[0].created_at))
        } else {
            rest
        }
    }
}

/// Entries whose times do not decrease.
pub open spec fn ascending_times(e: Seq<(u128, i64)>) -> bool {
    forall|i: int, j: int| 0 <= i <= j < e.len() ==> #[trigger] e[i].1 <= #[trigger] e[j].1
}

/// Entries whose times do not increase.
pub open spec fn descending_times(e: Seq<(u128, i64)>) -> bool {
    forall|i: int, j: int| 0 <= i <= j < e.len() ==> #[trigger] e[i].1 >= #[trigger] e[j].1
}

proof fn lemma_photo_entries_sorted(p: Seq<Photo>, gid: u128)
    requires
        photo_times_sorted(p),
    ensures
        ascending_times(photo_entries_in(p, gid)),
        p.len() > 0 ==> forall|k: int|
            0 <= k < photo_entries_in(p, gid).len() ==> #[trigger] photo_entries_in(p, gid)[k].1
                <= p.last().created_at,
    decreases p.len(),
{
    if p.len() > 0 {
        let q = p.drop_last();
        assert forall|i: int, j: int| 0 <= i <= j < q.len() implies #[trigger] q[i].created_at
            <= #[trigger] q[j].created_at by {
            assert(q[i] == p[i] && q[j] == p[j]);
        }
        lemma_photo_entries_sorted(q, gid);
        let e0 = photo_entries_in(q, gid);
        if q.len() > 0 {
            assert(q.last() == p[p.len() - 2]);
            assert(p[p.len() - 2].created_at <= p[p.len() - 1].created_at);
        } else {
            assert(e0.len() == 0);
        }
        let e = photo_entries_in(p, gid);
        assert forall|k: int| 0 <= k < e.len() implies #[trigger] e[k].1 <= p.last().created_at by {
            if k < e0.len() {
                assert(e[k] == e0[k]);
            }
        }
        assert forall|i: int, j: int| 0 <= i <= j < e.len() implies #[trigger] e[i].1 <= #[trigger] e[j].1 by {
            if j < e0.len() {
                assert(e[i] == e0[i] && e[j] == e0[j]);
            } else if i < e0.len() {
                assert(e[i] == e0[i]);
            }
        }
    }
}

proof fn lemma_gallery_entries_sorted(g: Seq<Gallery>, owner: u128)
    requires
        gallery_times_sorted(g),
    ensures
        descending_times(gallery_entries_newest_first(g, owner)),
        g.len() > 0 ==> forall|k: int|
            0 <= k < gallery_entries_newest_first(g, owner).len() ==> #[trigger] gallery_entries_newest_first(
                g,
                owner,
            )[k].1 >= g[0].created_at,
    decreases g.len(),
{
    if g.len() > 0 {
        let q = g.subrange(1, g.len() as int);
        assert forall|i: int, j: int| 0 <= i <= j < q.len() implies #[trigger] q[i].created_at
            <= #[trigger] q[j].created_at by {
            assert(q[i] == g[i + 1] && q[j] == g[j + 1]);
        }
        lemma_gallery_entries_sorted(q, owner);
        let e0 = gallery_entries_newest_first(q, owner);
        if q.len() > 0 {
            assert(q[0] == g[1]);
            assert(g[0].created_at <= g[1].created_at);
        } else {
            assert(e0.len() == 0);
        }
        let e = gallery_entries_newest_first(g, owner);
        assert forall|k: int| 0 <= k < e.len() implies #[trigger] e[k].1 >= g[0].created_at by {
            if k < e0.len() {
                assert(e[k] == e0[k]);
            }
        }
        assert forall|i: int, j: int| 0 <= i <= j < e.len() implies #[trigger] e[i].1 >= #[trigger] e[j].1 by {
            if j < e0.len() {
                assert(e[i] == e0[i] && e[j] == e0[j]);
            } else if i < e0.len() {
                assert(e[i] == e0[i]);
            }
        }
    }
}

proof fn lemma_gallery_with_id(galleries: Seq<Gallery>, i: int)
    requires
        forall|a: int, b: int|
            0 <= a < galleries.len() && 0 <= b < galleries.len() && a != b ==> #[trigger] galleries[a].id
                != #[trigger] galleries[b].id,
        0 <= i < galleries.len(),
    ensures
        gallery_with_id(galleries, galleries[i].id) == Some(galleries[i]),
{
    assert(galleries[i].id == galleries[i].id);
    let j = choose|j: int| 0 <= j < galleries.len() && #[trigger] galleries[j].id == galleries[i].id;
    assert(j == i);
}

proof fn lemma_photo_with_id(photos: Seq<Photo>, i: int)
    requires
        forall|a: int, b: int|
            0 <= a < photos.len() && 0 <= b < photos.len() && a != b ==> #[trigger] photos[a].id
                != #[trigger] photos[b].id,
        0 <= i < photos.len(),
    ensures
        photo_with_id(photos, photos[i].id) == Some(photos[i]),
{
    assert(photos[i].id == photos[i].id);
    let j = choose|j: int| 0 <= j < photos.len() && #[trigger] photos[j].id == photos[i].id;
    assert(j == i);
}

/// `after` is `before` with gallery `i` replaced by one with the same id and
/// owner; the directory stays well formed.
proof fn lemma_replace_gallery(before: Directory, after: Directory, i: int)
    requires
        before.wf(),
        0 <= i < before.galleries@.len(),
        after.galleries@ == before.galleries@.update(i, after.galleries@[i]),
        after.galleries@[i].id == before.galleries@[i].id,
        after.galleries@[i].erika_id == before.galleries@[i].erika_id,
        after.galleries@[i].created_at == before.galleries@[i].created_at,
        after.erikas == before.erikas,
        after.sessions == before.sessions,
        after.photos == before.photos,
        after.files == before.files,
    ensures
        after.wf(),
{
    let (g0, g1) = (before.galleries@, after.galleries@);
    assert forall|a: int, b: int|
        0 <= a < g1.len() && 0 <= b < g1.len() && a != b implies #[trigger] g1[a].id != #[trigger] g1[b].id by {
        assert(g1[a].id == g0[a].id && g1[b].id == g0[b].id);
    }
    assert forall|k: int| 0 <= k < g1.len() implies has_account(after.erikas@, #[trigger] g1[k].erika_id) by {
        assert(g1[k].erika_id == g0[k].erika_id);
    }
    assert forall|a: int, b: int| 0 <= a <= b < g1.len() implies #[trigger] g1[a].created_at
        <= #[trigger] g1[b].created_at by {
        assert(g1[a].created_at == g0[a].created_at && g1[b].created_at == g0[b].created_at);
    }
    let p = after.photos@;
    assert forall|k: int| 0 <= k < p.len() implies has_gallery(g1, #[trigger] p[k].gallery_id) by {
        let m = choose|m: int| 0 <= m < g0.len() && #[trigger] g0[m].id == p[k].gallery_id;
        assert(g1[m].id == g0[m].id);
    }
}

impl Directory {
    fn gallery_index(&self, id: u128) -> (r: Option<usize>)
        ensures
            match r {
                Some(i) => i < self.galleries@.len() && self.galleries@[i as int].id == id,
                None => !has_gallery(self.galleries@, id),
            },
    {
        let mut i: usize = 0;
        while i < self.galleries.len()
            invariant
                i <= self.galleries@.len(),
                forall|j: int| 0 <= j < i ==> self.galleries@[j].id != id,
            decreases self.galleries@.len() - i,
        {
            if self.galleries[i].id == id {
                return Some(i);
            }
            i += 1;
        }
        None
    }

    fn photo_index(&self, id: u128) -> (r: Option<usize>)
        ensures
            match r {
                Some(i) => i < self.photos@.len() && self.photos@[i as int].id == id,
                None => !has_photo(self.photos@, id),
            },
    {
        let mut i: usize = 0;
        while i < self.photos.len()
            invariant
                i <= self.photos@.len(),
                forall|j: int| 0 <= j < i ==> self.photos@[j].id != id,
            decreases self.photos@.len() - i,
        {
            if self.photos[i].id == id {
                return Some(i);
            }
            i += 1;
        }
        None
    }

    fn file_index(&self, path: &str) -> (r: Option<usize>)
        ensures
            match r {
                Some(i) => i < self.files@.len() && self.files@[i as int]@ == path@,
                None => !has_file(self.files@, path@),
            },
    {
        let mut i: usize = 0;
        while i < self.files.len()
            invariant
                i <= self.files@.len(),
                forall|j: int| 0 <= j < i ==> #[trigger] self.files@[j]@ != path@,
            decreases self.files@.len() - i,
        {
            if same_text(self.files[i].as_str(), path) {
                return Some(i);
            }
            i += 1;
        }
        None
    }

    /// The number of photos in the gallery `gallery_id`.
    pub fn photo_count(&self, gallery_id: u128) -> (r: usize)
        ensures
            r == photo_count(self.photos@, gallery_id),
    {
        let mut n: usize = 0;
        let mut i: usize = 0;
        while i < self.photos.len()
            invariant
                i <= self.photos@.len(),
                n == photo_count(self.photos@.subrange(0, i as int), gallery_id),
                n <= i,
            decreases self.photos@.len() - i,
        {
            proof {
                assert(self.photos@.subrange(0, i + 1).drop_last() =~= self.photos@.subrange(0, i as int));
            }
            if self.photos[i].gallery_id == gallery_id {
                n += 1;
            }
            i += 1;
        }
        proof {
            assert(self.photos@.subrange(0, i as int) =~= self.photos@);
        }
        n
    }

    /// Creates a gallery of the category labelled `category`, owned by
    /// `owner_id`, free and without description. An owner that is not an
    /// account is `Unauthorized`; an unknown category is `InvalidInput`; an
    /// id already in use is an internal error. On failure nothing changes.
    pub fn create_gallery(&mut self, owner_id: u128, category: &str, new_id: u128, now: i64) -> (r: Result<(), AppError>)
        requires
            old(self).wf(),
        ensures
            final(self).wf(),
            final(self).erikas == old(self).erikas,
            final(self).sessions == old(self).sessions,
            final(self).photos == old(self).photos,
            final(self).files == old(self).files,
            !has_account(old(self).erikas@, owner_id) ==> r == Err::<(), AppError>(AppError::Unauthorized),
            has_account(old(self).erikas@, owner_id) && (forall|c: GalleryCategory| #[trigger] c.spec_label()
                != category@) ==> r == Err::<(), AppError>(AppError::InvalidInput),
            has_account(old(self).erikas@, owner_id) && (exists|c: GalleryCategory| #[trigger] c.spec_label()
                == category@) && has_gallery(old(self).galleries@, new_id) ==> r == Err::<(), AppError>(
                AppError::InternalServerError,
            ),
            has_account(old(self).erikas@, owner_id) && (exists|c: GalleryCategory| #[trigger] c.spec_label()
                == category@) && !has_gallery(old(self).galleries@, new_id) ==> r is Ok,
            r is Err ==> final(self).galleries == old(self).galleries,
            r is Ok ==> has_account(old(self).erikas@, owner_id) && final(self).galleries@.len()
                == old(self).galleries@.len() + 1 && final(self).galleries@.drop_last() == old(self).galleries@ && ({
                let g = final(self).galleries@.last();
                &&& g.id == new_id
                &&& g.erika_id == owner_id
                &&& g.name.spec_label() == category@
                &&& g.description is None
                &&& g.price_pln is None
                &&& g.created_at == gallery_stamp(old(self).galleries@, now)
            }),
    {
        if self.account_index(owner_id).is_none() {
            return Err(AppError::Unauthorized);
        }
        let name = GalleryCategory::parse(category)?;
        if self.gallery_index(new_id).is_some() {
            return Err(AppError::InternalServerError);
        }
        let n = self.galleries.len();
        let created_at = if n > 0 && self.galleries[n - 1].created_at > now {
            self.galleries[n - 1].created_at
        } else {
            now
        };
        let ghost before = self.galleries@;
        self.galleries.push(
            Gallery { id: new_id, erika_id: owner_id, name, description: None, price_pln: None, created_at },
        );
        proof {
            let g = self.galleries@;
            assert(g.drop_last() =~= before);
            assert forall|a: int, b: int|
                0 <= a < g.len() && 0 <= b < g.len() && a != b implies #[trigger] g[a].id != #[trigger] g[b].id by {
                if a < before.len() {
                    assert(g[a] == before[a]);
                }
                if b < before.len() {
                    assert(g[b] == before[b]);
                }
            }
            assert forall|k: int| 0 <= k < g.len() implies has_account(self.erikas@, #[trigger] g[k].erika_id) by {
                if k < before.len() {
                    assert(g[k] == before[k]);
                }
            }
            assert forall|a: int, b: int| 0 <= a <= b < g.len() implies #[trigger] g[a].created_at
                <= #[trigger] g[b].created_at by {
                if b < before.len() {
                    assert(g[a] == before[a] && g[b] == before[b]);
                } else if a < before.len() {
                    assert(g[a] == before[a]);
                    assert(before[a].created_at <= before[before.len() - 1].created_at);
                }
            }
            let p = self.photos@;
            assert forall|k: int| 0 <= k < p.len() implies has_gallery(g, #[trigger] p[k].gallery_id) by {
                let m = choose|m: int| 0 <= m < before.len() && #[trigger] before[m].id == p[k].gallery_id;
                assert(g[m] == before[m]);
            }
        }
        Ok(())
    }

    /// Sets the category, description and price of a gallery. Only its owner
    /// may: a missing gallery and another account's gallery are both
    /// `Unauthorized`. A category label outside the closed set is
    /// `InvalidInput`. On failure nothing changes.
    pub fn update_gallery_details(&mut self, requestor: u128, gallery_id: u128, payload: &UpdateGalleryPayload) -> (r: Result<(), AppError>)
        requires
            old(self).wf(),
        ensures
            final(self).wf(),
            final(self).erikas == old(self).erikas,
            final(self).sessions == old(self).sessions,
            final(self).photos == old(self).photos,
            final(self).files == old(self).files,
            !owns_gallery(old(self).galleries@, requestor, gallery_id) ==> r == Err::<(), AppError>(
                AppError::Unauthorized,
            ) && *final(self) == *old(self),
            owns_gallery(old(self).galleries@, requestor, gallery_id) && (
            forall|c: GalleryCategory| #[trigger] c.spec_label() != payload.name@) ==> r == Err::<(), AppError>(
                AppError::InvalidInput,
            ),
            owns_gallery(old(self).galleries@, requestor, gallery_id) && (exists|c: GalleryCategory|
                #[trigger] c.spec_label() == payload.name@) ==> r is Ok,
            r is Err ==> *final(self) == *old(self),
            r is Ok ==> exists|i: int|
                0 <= i < old(self).galleries@.len() && #[trigger] old(self).galleries@[i].id == gallery_id
                    && old(self).galleries@[i].erika_id == requestor && final(self).galleries@.len()
                    == old(self).galleries@.len() && (forall|j: int|
                    0 <= j < old(self).galleries@.len() && j != i ==> final(self).galleries@[j]
                        == old(self).galleries@[j]) && ({
                    let (g0, g1) = (old(self).galleries@[i], final(self).galleries@[i]);
                    &&& g1.id == g0.id
                    &&& g1.erika_id == g0.erika_id
                    &&& g1.created_at == g0.created_at
                    &&& g1.name.spec_label() == payload.name@
                    &&& g1.description matches Some(d) && d@ == payload.description@
                    &&& g1.price_pln == payload.price_pln
                }),
    {
        let i = match self.gallery_index(gallery_id) {
            Some(i) => i,
            None => return Err(AppError::Unauthorized),
        };
        proof {
            lemma_gallery_with_id(self.galleries@, i as int);
        }
        let name = authorize_gallery_update(requestor, Some(&self.galleries[i]), payload.name.as_str())?;
        let ghost before = *self;
        self.galleries[i].name = name;
        self.galleries[i].description = Some(payload.description.clone());
        self.galleries[i].price_pln = payload.price_pln;
        proof {
            assert(self.galleries@ =~= before.galleries@.update(i as int, self.galleries@[i as int]));
            lemma_replace_gallery(before, *self, i as int);
        }
        Ok(())
    }
}

/// The view of an optional name.
pub open spec fn name_view(name: Option<&str>) -> Option<Seq<char>> {
    match name {
        Some(n) => Some(n@),
        None => None,
    }
}

impl Gallery {
    /// Looks a gallery up by id.
    pub fn find_by_id<'a>(id: u128, db: &'a Directory) -> (r: Option<&'a Gallery>)
        requires
            db.wf(),
        ensures
            match gallery_with_id(db.galleries@, id) {
                Some(g) => r matches Some(x) && *x == g,
                None => r is None,
            },
    {
        match db.gallery_index(id) {
            Some(i) => {
                proof {
                    lemma_gallery_with_id(db.galleries@, i as int);
                }
                Some(&db.galleries[i])
            },
            None => None,
        }
    }

    /// The ids and creation times of the galleries that `erika_id` owns,
    /// newest first.
    pub fn find_by_erika_id(erika_id: u128, db: &Directory) -> (r: Vec<(u128, i64)>)
        requires
            db.wf(),
        ensures
            r@ == gallery_entries_newest_first(db.galleries@, erika_id),
            descending_times(r@),
    {
        let n = db.galleries.len();
        let mut r: Vec<(u128, i64)> = Vec::new();
        let mut i: usize = n;
        proof {
            assert(db.galleries@.subrange(n as int, n as int) =~= Seq::<Gallery>::empty());
        }
        while i > 0
            invariant
                i <= n == db.galleries@.len(),
                r@ == gallery_entries_newest_first(db.galleries@.subrange(i as int, n as int), erika_id),
            decreases i,
        {
            proof {
                let t = db.galleries@.subrange(i - 1, n as int);
                assert(t.subrange(1, t.len() as int) =~= db.galleries@.subrange(i as int, n as int));
                assert(t[0] == db.galleries@[i - 1]);
            }
            if db.galleries[i - 1].erika_id == erika_id {
                r.push((db.galleries[i - 1].id, db.galleries[i - 1].created_at));
            }
            i -= 1;
        }
        proof {
            assert(db.galleries@.subrange(0, n as int) =~= db.galleries@);
            lemma_gallery_entries_sorted(db.galleries@, erika_id);
        }
        r
    }

    /// Looks a gallery up by id, provided that `erika_id` owns it.
    pub fn find_by_id_and_erika_id<'a>(id: u128, erika_id: u128, db: &'a Directory) -> (r: Option<&'a Gallery>)
        requires
            db.wf(),
        ensures
            match gallery_with_id(db.galleries@, id) {
                Some(g) => if g.erika_id == erika_id {
                    r matches Some(x) && *x == g
                } else {
                    r is None
                },
                None => r is None,
            },
    {
        match Gallery::find_by_id(id, db) {
            Some(g) => if g.erika_id == erika_id {
                Some(g)
            } else {
                None
            },
            None => None,
        }
    }
}

impl Photo {
    /// The ids and upload times of the photos in the gallery `gallery_id`,
    /// oldest first.
    pub fn find_by_gallery_id(gallery_id: u128, db: &Directory) -> (r: Vec<(u128, i64)>)
        requires
            db.wf(),
        ensures
            r@ == photo_entries_in(db.photos@, gallery_id),
            ascending_times(r@),
    {
        let mut r: Vec<(u128, i64)> = Vec::new();
        let mut i: usize = 0;
        while i < db.photos.len()
            invariant
                i <= db.photos@.len(),
                r@ == photo_entries_in(db.photos@.subrange(0, i as int), gallery_id),
            decreases db.photos@.len() - i,
        {
            proof {
                assert(db.photos@.subrange(0, i + 1).drop_last() =~= db.photos@.subrange(0, i as int));
            }
            if db.photos[i].gallery_id == gallery_id {
                r.push((db.photos[i].id, db.photos[i].created_at));
            }
            i += 1;
        }
        proof {
            assert(db.photos@.subrange(0, i as int) =~= db.photos@);
            lemma_photo_entries_sorted(db.photos@, gallery_id);
        }
        r
    }

    /// Looks a photo up by id; a missing photo is `NotFound`.
    pub fn find_by_id<'a>(id: u128, db: &'a Directory) -> (r: Result<&'a Photo, AppError>)
        requires
            db.wf(),
        ensures
            match photo_with_id(db.photos@, id) {
                Some(p) => r matches Ok(x) && *x == p,
                None => r == Err::<&Photo, AppError>(AppError::NotFound),
            },
    {
        match db.photo_index(id) {
            Some(i) => {
                proof {
                    lemma_photo_with_id(db.photos@, i as int);
                }
                Ok(&db.photos[i])
            },
            None => Err(AppError::NotFound),
        }
    }
}

/// Removing one photo keeps photo ids unique, and its id is gone.
proof fn lemma_remove_photo(p: Seq<Photo>, g: Seq<Gallery>, k: int)
    requires
        photos_wf(p, g),
        photo_times_sorted(p),
        0 <= k < p.len(),
    ensures
        photos_wf(p.remove(k), g),
        photo_times_sorted(p.remove(k)),
        !has_photo(p.remove(k), p[k].id),
{
    let r = p.remove(k);
    assert forall|a: int, b: int|
        0 <= a < r.len() && 0 <= b < r.len() && a != b implies #[trigger] r[a].id != #[trigger] r[b].id by {
        let a0 = if a < k { a } else { a + 1 };
        let b0 = if b < k { b } else { b + 1 };
        assert(r[a] == p[a0] && r[b] == p[b0]);
    }
    assert forall|a: int, b: int| 0 <= a <= b < r.len() implies #[trigger] r[a].created_at
        <= #[trigger] r[b].created_at by {
        let a0 = if a < k { a } else { a + 1 };
        let b0 = if b < k { b } else { b + 1 };
        assert(r[a] == p[a0] && r[b] == p[b0]);
    }
    assert forall|a: int| 0 <= a < r.len() implies has_gallery(g, #[trigger] r[a].gallery_id) by {
        let a0 = if a < k { a } else { a + 1 };
        assert(r[a] == p[a0]);
    }
    if has_photo(r, p[k].id) {
        let a = choose|a: int| 0 <= a < r.len() && #[trigger] r[a].id == p[k].id;
        let a0 = if a < k { a } else { a + 1 };
        assert(r[a] == p[a0]);
    }
}

/// Removing one file keeps paths unique, and its path is gone.
proof fn lemma_remove_file(f: Seq<String>, k: int)
    requires
        files_wf(f),
        0 <= k < f.len(),
    ensures
        files_wf(f.remove(k)),
        !has_file(f.remove(k), f[k]@),
{
    let r = f.remove(k);
    assert forall|a: int, b: int|
        0 <= a < r.len() && 0 <= b < r.len() && a != b implies #[trigger] r[a]@ != #[trigger] r[b]@ by {
        let a0 = if a < k { a } else { a + 1 };
        let b0 = if b < k { b } else { b + 1 };
        assert(r[a] == f[a0] && r[b] == f[b0]);
    }
    if has_file(r, f[k]@) {
        let a = choose|a: int| 0 <= a < r.len() && #[trigger] r[a]@ == f[k]@;
        let a0 = if a < k { a } else { a + 1 };
        assert(r[a] == f[a0]);
    }
}

impl Directory {
    /// Uploads a photo into a gallery of the requesting account. Only the
    /// owner may: a missing gallery and another account's gallery are both
    /// `Unauthorized`. An empty payload is ignored and gives `Ok(None)`.
    /// Otherwise the file is stored under `uploads/` with the name that
    /// `photo_file_name` derives from `unique`, `now` and the name it arrived with,
    /// and then the photo row is added, served from `/uploads/`. A photo id or
    /// a file path already in use is an internal error. On failure, and for an
    /// empty payload, nothing changes.
    pub fn upload_photo(
        &mut self,
        requestor: u128,
        gallery_id: u128,
        data: &[u8],
        client_name: Option<&str>,
        unique: &str,
        now: i64,
        new_id: u128,
    ) -> (r: Result<Option<u128>, AppError>)
        requires
            old(self).wf(),
        ensures
            final(self).wf(),
            final(self).erikas == old(self).erikas,
            final(self).sessions == old(self).sessions,
            final(self).galleries == old(self).galleries,
            !owns_gallery(old(self).galleries@, requestor, gallery_id) ==> r == Err::<Option<u128>, AppError>(
                AppError::Unauthorized,
            ),
            owns_gallery(old(self).galleries@, requestor, gallery_id) && data@.len() == 0 ==> r == Ok::<
                Option<u128>,
                AppError,
            >(None),
            owns_gallery(old(self).galleries@, requestor, gallery_id) && data@.len() > 0 && (has_photo(
                old(self).photos@,
                new_id,
            ) || has_file(
                old(self).files@,
                "uploads/"@ + stored_file_name(unique@, now as int, name_view(client_name)),
            )) ==> r == Err::<Option<u128>, AppError>(AppError::InternalServerError),
            owns_gallery(old(self).galleries@, requestor, gallery_id) && data@.len() > 0 && !has_photo(
                old(self).photos@,
                new_id,
            ) && !has_file(
                old(self).files@,
                "uploads/"@ + stored_file_name(unique@, now as int, name_view(client_name)),
            ) ==> r == Ok::<Option<u128>, AppError>(Some(new_id)),
            !(r matches Ok(Some(_))) ==> *final(self) == *old(self),
            data@.len() == 0 ==> *final(self) == *old(self) && photo_count(final(self).photos@, gallery_id)
                == photo_count(old(self).photos@, gallery_id),
            r matches Ok(Some(_)) ==> ({
                let name = stored_file_name(unique@, now as int, name_view(client_name));
                let p = final(self).photos@.last();
                &&& final(self).photos@.len() == old(self).photos@.len() + 1
                &&& final(self).photos@.drop_last() == old(self).photos@
                &&& p.id == new_id
                &&& p.gallery_id == gallery_id
                &&& p.file_url@ == "/uploads/"@ + name
                &&& p.description is None
                &&& p.created_at == photo_stamp(old(self).photos@, now)
                &&& final(self).files@.len() == old(self).files@.len() + 1
                &&& final(self).files@.drop_last() == old(self).files@
                &&& final(self).files@.last()@ == "uploads/"@ + name
            }),
    {
        let gi = match self.gallery_index(gallery_id) {
            Some(i) => i,
            None => return Err(AppError::Unauthorized),
        };
        proof {
            lemma_gallery_with_id(self.galleries@, gi as int);
        }
        require_gallery_owner(requestor, Some(&self.galleries[gi]))?;
        let plan = match plan_upload(data.len(), unique, now, client_name) {
            Some(plan) => plan,
            None => return Ok(None),
        };
        if self.photo_index(new_id).is_some() {
            return Err(AppError::InternalServerError);
        }
        if self.file_index(plan.path.as_str()).is_some() {
            return Err(AppError::InternalServerError);
        }
        let StoredUpload { file_name: _, path, url } = plan;
        let n = self.photos.len();
        let created_at = if n > 0 && self.photos[n - 1].created_at > now {
            self.photos[n - 1].created_at
        } else {
            now
        };
        let ghost (f0, p0) = (self.files@, self.photos@);
        self.files.push(path);
        self.photos.push(Photo { id: new_id, gallery_id, file_url: url, description: None, created_at });
        proof {
            let (f1, p1) = (self.files@, self.photos@);
            assert(f1.drop_last() =~= f0);
            assert(p1.drop_last() =~= p0);
            assert forall|a: int, b: int|
                0 <= a < f1.len() && 0 <= b < f1.len() && a != b implies #[trigger] f1[a]@ != #[trigger] f1[b]@ by {
                if a < f0.len() {
                    assert(f1[a] == f0[a]);
                }
                if b < f0.len() {
                    assert(f1[b] == f0[b]);
                }
            }
            assert forall|a: int, b: int|
                0 <= a < p1.len() && 0 <= b < p1.len() && a != b implies #[trigger] p1[a].id != #[trigger] p1[b].id by {
                if a < p0.len() {
                    assert(p1[a] == p0[a]);
                }
                if b < p0.len() {
                    assert(p1[b] == p0[b]);
                }
            }
            assert forall|a: int, b: int| 0 <= a <= b < p1.len() implies #[trigger] p1[a].created_at
                <= #[trigger] p1[b].created_at by {
                if b < p0.len() {
                    assert(p1[a] == p0[a] && p1[b] == p0[b]);
                } else if a < p0.len() {
                    assert(p1[a] == p0[a]);
                    assert(p0[a].created_at <= p0[p0.len() - 1].created_at);
                }
            }
            assert forall|a: int| 0 <= a < p1.len() implies has_gallery(self.galleries@, #[trigger] p1[a].gallery_id) by {
                if a < p0.len() {
                    assert(p1[a] == p0[a]);
                } else {
                    assert(self.galleries@[gi as int].id == gallery_id);
                }
            }
        }
        Ok(Some(new_id))
    }

    /// Deletes a photo on behalf of the requesting account: the gallery must
    /// exist and be the requestor's (else `Unauthorized`), the photo must
    /// exist (else `NotFound`) and lie in that gallery (else `Unauthorized`).
    /// The backing file is removed first, then the photo row; a missing file
    /// is an internal error and leaves the row in place. On failure nothing
    /// changes; on success neither the photo nor its file remains.
    pub fn delete_photo(&mut self, requestor: u128, gallery_id: u128, photo_id: u128) -> (r: Result<(), AppError>)
        requires
            old(self).wf(),
        ensures
            final(self).wf(),
            final(self).erikas == old(self).erikas,
            final(self).sessions == old(self).sessions,
            final(self).galleries == old(self).galleries,
            !owns_gallery(old(self).galleries@, requestor, gallery_id) ==> r == Err::<(), AppError>(
                AppError::Unauthorized,
            ) && *final(self) == *old(self),
            owns_gallery(old(self).galleries@, requestor, gallery_id) ==> match photo_with_id(
                old(self).photos@,
                photo_id,
            ) {
                None => r == Err::<(), AppError>(AppError::NotFound),
                Some(p) => if p.gallery_id != gallery_id {
                    r == Err::<(), AppError>(AppError::Unauthorized)
                } else if !has_file(old(self).files@, path_of_url(p.file_url@)) {
                    r == Err::<(), AppError>(AppError::InternalServerError)
                } else {
                    r is Ok && !has_file(final(self).files@, path_of_url(p.file_url@))
                },
            },
            r is Err ==> *final(self) == *old(self),
            r is Ok ==> !has_photo(final(self).photos@, photo_id) && exists|i: int, k: int|
                0 <= i < old(self).photos@.len() && 0 <= k < old(self).files@.len() && #[trigger] old(
                    self,
                ).photos@[i].id == photo_id && final(self).photos@ == old(self).photos@.remove(i) && #[trigger] old(
                    self,
                ).files@[k]@ == path_of_url(old(self).photos@[i].file_url@) && final(self).files@ == old(
                    self,
                ).files@.remove(k),
    {
        let gi = match self.gallery_index(gallery_id) {
            Some(i) => i,
            None => return Err(AppError::Unauthorized),
        };
        proof {
            lemma_gallery_with_id(self.galleries@, gi as int);
        }
        let pi_found = self.photo_index(photo_id);
        proof {
            if let Some(pi) = pi_found {
                lemma_photo_with_id(self.photos@, pi as int);
            }
        }
        let path = {
            let photo = match pi_found {
                Some(pi) => Some(&self.photos[pi]),
                None => None,
            };
            authorize_photo_delete(requestor, Some(&self.galleries[gi]), photo)?
        };
        let pi = pi_found.unwrap();
        let fi = match self.file_index(path.as_str()) {
            Some(fi) => fi,
            None => return Err(AppError::InternalServerError),
        };
        proof {
            lemma_remove_file(self.files@, fi as int);
            lemma_remove_photo(self.photos@, self.galleries@, pi as int);
        }
        self.files.remove(fi);
        self.photos.remove(pi);
        Ok(())
    }
}

/// Whether the account `id` exists and holds the admin role.
pub open spec fn is_admin(erikas: Seq<Erika>, id: u128) -> bool {
    exists|i: int| 0 <= i < erikas.len() && #[trigger] erikas[i].id == id && erikas[i].role == Role::Admin
}

/// Whether some account other than the one at position `skip` has the
/// username `name`, ignoring case.
pub open spec fn username_taken_by_other(erikas: Seq<Erika>, name: Seq<char>, skip: int) -> bool {
    exists|j: int| 0 <= j < erikas.len() && j != skip && #[trigger] same_username(erikas[j].username@, name)
}

impl Directory {
    /// The position of an account other than `skip` named `name`, ignoring case.
    fn other_username_index(&self, name: &str, skip: usize) -> (r: Option<usize>)
        ensures
            match r {
                Some(j) => j < self.erikas@.len() && j != skip && same_username(self.erikas@[j as int].username@, name@),
                None => !username_taken_by_other(self.erikas@, name@, skip as int),
            },
    {
        let mut j: usize = 0;
        while j < self.erikas.len()
            invariant
                j <= self.erikas@.len(),
                forall|k: int| 0 <= k < j && k != skip ==> !same_username(#[trigger] self.erikas@[k].username@, name@),
            decreases self.erikas@.len() - j,
        {
            if j != skip && usernames_match(self.erikas[j].username.as_str(), name) {
                return Some(j);
            }
            j += 1;
        }
        None
    }

    /// Checks that `admin_id` is an administrator right now and finds the
    /// account `target_id`.
    fn admin_target(&self, admin_id: u128, target_id: u128) -> (r: Result<usize, AppError>)
        requires
            self.wf(),
        ensures
            !is_admin(self.erikas@, admin_id) ==> r == Err::<usize, AppError>(AppError::Unauthorized),
            is_admin(self.erikas@, admin_id) && !has_account(self.erikas@, target_id) ==> r == Err::<
                usize,
                AppError,
            >(AppError::NotFound),
            is_admin(self.erikas@, admin_id) && has_account(self.erikas@, target_id) ==> r is Ok,
            r matches Ok(i) ==> is_admin(self.erikas@, admin_id) && i < self.erikas@.len()
                && self.erikas@[i as int].id == target_id,
    {
        let admin = Erika::find_by_id(admin_id, self);
        proof {
            if is_admin(self.erikas@, admin_id) {
                let i = choose|i: int|
                    0 <= i < self.erikas@.len() && #[trigger] self.erikas@[i].id == admin_id && self.erikas@[i].role
                        == Role::Admin;
                let j = choose|j: int| 0 <= j < self.erikas@.len() && self.erikas@[j] == *admin.unwrap();
                assert(self.erikas@[j].id == self.erikas@[i].id);
            }
        }
        crate::authz::require_role(admin, Role::Admin)?;
        match self.account_index(target_id) {
            Some(i) => Ok(i),
            None => Err(AppError::NotFound),
        }
    }

    /// Approves or withdraws approval of the account `target_id`. The caller
    /// `admin_id` must hold the admin role as storage records it now (else
    /// `Unauthorized`); an unknown target is `NotFound`. Only the target's
    /// approval flag changes.
    pub fn set_approved(&mut self, admin_id: u128, target_id: u128, approved: bool) -> (r: Result<(), AppError>)
        requires
            old(self).wf(),
        ensures
            final(self).wf(),
            !is_admin(old(self).erikas@, admin_id) ==> r == Err::<(), AppError>(AppError::Unauthorized),
            is_admin(old(self).erikas@, admin_id) && !has_account(old(self).erikas@, target_id) ==> r == Err::<
                (),
                AppError,
            >(AppError::NotFound),
            is_admin(old(self).erikas@, admin_id) && has_account(old(self).erikas@, target_id) ==> r is Ok,
            r is Err ==> *final(self) == *old(self),
            r is Ok ==> final(self).sessions == old(self).sessions && final(self).galleries == old(self).galleries
                && final(self).photos == old(self).photos && final(self).files == old(self).files && exists|i: int|
                0 <= i < old(self).erikas@.len() && #[trigger] old(self).erikas@[i].id == target_id
                    && final(self).erikas@ == old(self).erikas@.update(
                    i,
                    Erika { is_approved: approved, ..old(self).erikas@[i] },
                ),
    {
        let i = self.admin_target(admin_id, target_id)?;
        let ghost before = *self;
        self.erikas[i].is_approved = approved;
        proof {
            lemma_replace_account(before, *self, i as int);
        }
        Ok(())
    }

    /// Gives the account `target_id` the role `role`, under the same rules
    /// as `set_approved`. Only the target's role changes.
    pub fn set_role(&mut self, admin_id: u128, target_id: u128, role: Role) -> (r: Result<(), AppError>)
        requires
            old(self).wf(),
        ensures
            final(self).wf(),
            !is_admin(old(self).erikas@, admin_id) ==> r == Err::<(), AppError>(AppError::Unauthorized),
            is_admin(old(self).erikas@, admin_id) && !has_account(old(self).erikas@, target_id) ==> r == Err::<
                (),
                AppError,
            >(AppError::NotFound),
            is_admin(old(self).erikas@, admin_id) && has_account(old(self).erikas@, target_id) ==> r is Ok,
            r is Err ==> *final(self) == *old(self),
            r is Ok ==> final(self).sessions == old(self).sessions && final(self).galleries == old(self).galleries
                && final(self).photos == old(self).photos && final(self).files == old(self).files && exists|i: int|
                0 <= i < old(self).erikas@.len() && #[trigger] old(self).erikas@[i].id == target_id
                    && final(self).erikas@ == old(self).erikas@.update(i, Erika { role, ..old(self).erikas@[i] }),
    {
        let i = self.admin_target(admin_id, target_id)?;
        let ghost before = *self;
        self.erikas[i].role = role;
        proof {
            lemma_replace_account(before, *self, i as int);
        }
        Ok(())
    }

    /// Overwrites the username, email and bio of the account `id`. The avatar
    /// changes only when a new one is supplied. A username that another
    /// account has, ignoring case, is a `Conflict`; an unknown account is
    /// `NotFound`. On failure nothing changes.
    pub fn update_profile(
        &mut self,
        id: u128,
        username: &str,
        email: &str,
        bio: &str,
        avatar_url: Option<String>,
    ) -> (r: Result<(), AppError>)
        requires
            old(self).wf(),
        ensures
            final(self).wf(),
            final(self).sessions == old(self).sessions,
            final(self).galleries == old(self).galleries,
            final(self).photos == old(self).photos,
            final(self).files == old(self).files,
            !has_account(old(self).erikas@, id) ==> r == Err::<(), AppError>(AppError::NotFound),
            r is Err ==> *final(self) == *old(self),
            forall|i: int|
                0 <= i < old(self).erikas@.len() && #[trigger] old(self).erikas@[i].id == id ==> if username_taken_by_other(
                    old(self).erikas@,
                    username@,
                    i,
                ) {
                    r == Err::<(), AppError>(AppError::Conflict)
                } else {
                    &&& r is Ok
                    &&& final(self).erikas@.len() == old(self).erikas@.len()
                    &&& forall|j: int|
                        0 <= j < old(self).erikas@.len() && j != i ==> final(self).erikas@[j] == old(self).erikas@[j]
                    &&& ({
                        let (e0, e1) = (old(self).erikas@[i], final(self).erikas@[i]);
                        &&& e1.id == e0.id
                        &&& e1.username@ == username@
                        &&& e1.email@ == email@
                        &&& e1.bio matches Some(b) && b@ == bio@
                        &&& e1.profile_image_url == match avatar_url {
                            Some(a) => Some(a),
                            None => e0.profile_image_url,
                        }
                        &&& e1.password_hash == e0.password_hash
                        &&& e1.is_online == e0.is_online
                        &&& e1.role == e0.role
                        &&& e1.is_approved == e0.is_approved
                    })
                },
    {
        let i = match self.account_index(id) {
            Some(i) => i,
            None => return Err(AppError::NotFound),
        };
        if self.other_username_index(username, i).is_some() {
            return Err(AppError::Conflict);
        }
        let ghost before = *self;
        self.erikas[i].username = String::from_str(username);
        self.erikas[i].email = String::from_str(email);
        self.erikas[i].bio = Some(String::from_str(bio));
        match avatar_url {
            Some(a) => {
                self.erikas[i].profile_image_url = Some(a);
            },
            None => {},
        }
        proof {
            assert(self.erikas@ =~= before.erikas@.update(i as int, self.erikas@[i as int]));
            assert forall|j: int|
                0 <= j < before.erikas@.len() && j != i implies !same_username(
                #[trigger] before.erikas@[j].username@,
                self.erikas@[i as int].username@,
            ) by {}
            lemma_replace_account(before, *self, i as int);
        }
        Ok(())
    }
}

/// Once an account is registered, a second registration whose username
/// differs only in case finds the name taken, so `Erika::create` refuses it
/// with `Conflict`.
pub proof fn registered_username_conflicts(after: Directory, first: Seq<char>, second: Seq<char>)
    requires
        after.erikas@.len() > 0,
        after.erikas@.last().username@ == first,
        lowercase_of(first) == lowercase_of(second),
    ensures
        username_taken(after.erikas@, second),
{
    let e = after.erikas@;
    assert(same_username(e[e.len() - 1].username@, second));
}

proof fn lemma_toggle_step(a: Directory, b: Directory, id: u128)
    requires
        accounts_wf(a.erikas@),
        online_toggled(a, b, id),
    ensures
        accounts_wf(b.erikas@),
        has_account(b.erikas@, id),
        online_of(b.erikas@, id) == !online_of(a.erikas@, id),
{
    let i = choose|i: int|
        0 <= i < a.erikas@.len() && #[trigger] a.erikas@[i].id == id && b.erikas@ == a.erikas@.update(
            i,
            Erika { is_online: !a.erikas@[i].is_online, ..a.erikas@[i] },
        );
    let (e0, e1) = (a.erikas@, b.erikas@);
    assert forall|x: int, y: int|
        0 <= x < e1.len() && 0 <= y < e1.len() && x != y implies #[trigger] e1[x].id != #[trigger] e1[y].id by {
        assert(e1[x].id == e0[x].id && e1[y].id == e0[y].id);
    }
    assert forall|x: int, y: int|
        0 <= x < e1.len() && 0 <= y < e1.len() && x != y implies !same_username(
        #[trigger] e1[x].username@,
        #[trigger] e1[y].username@,
    ) by {
        assert(e1[x].username == e0[x].username && e1[y].username == e0[y].username);
    }
    lemma_online_of(e0, i);
    lemma_online_of(e1, i);
    assert(e1[i].id == id);
}

/// Each toggle of the online flag flips it, so along any run of toggles of
/// one account the flag strictly alternates: after `k` toggles it differs
/// from where it started exactly when `k` is odd. Starting offline, it ends
/// online exactly when the number of toggles is odd.
pub proof fn toggles_alternate(states: Seq<Directory>, id: u128)
    requires
        states.len() > 0,
        states[0].wf(),
        forall|k: int| 0 <= k < states.len() - 1 ==> #[trigger] online_toggled(states[k], states[k + 1], id),
    ensures
        forall|k: int|
            0 <= k < states.len() ==> #[trigger] online_of(states[k].erikas@, id) == (online_of(
                states[0].erikas@,
                id,
            ) != (k % 2 == 1)),
    decreases states.len(),
{
    if states.len() > 1 {
        let prefix = states.drop_last();
        assert forall|k: int| 0 <= k < prefix.len() - 1 implies #[trigger] online_toggled(prefix[k], prefix[k + 1], id) by {
            assert(online_toggled(states[k], states[k + 1], id));
        }
        toggles_alternate(prefix, id);
        let n = states.len() - 1;
        lemma_toggles_keep_accounts(states, id, n - 1);
        let j = n - 1;
        assert(online_toggled(states[j], states[j + 1], id));
        assert(states[j + 1] == states[n]);
        lemma_toggle_step(states[n - 1], states[n], id);
        assert forall|k: int| 0 <= k < states.len() implies #[trigger] online_of(states[k].erikas@, id) == (online_of(
            states[0].erikas@,
            id,
        ) != (k % 2 == 1)) by {
            if k < n {
                assert(prefix[k] == states[k]);
                assert(online_of(prefix[k].erikas@, id) == (online_of(prefix[0].erikas@, id) != (k % 2 == 1)));
            } else {
                assert(prefix[n - 1] == states[n - 1]);
                assert(online_of(prefix[n - 1].erikas@, id) == (online_of(prefix[0].erikas@, id) != ((n - 1) % 2
                    == 1)));
            }
        }
    }
}

/// Along a run of toggles the accounts stay well formed.
proof fn lemma_toggles_keep_accounts(states: Seq<Directory>, id: u128, k: int)
    requires
        0 <= k < states.len(),
        states[0].wf(),
        forall|j: int| 0 <= j < states.len() - 1 ==> #[trigger] online_toggled(states[j], states[j + 1], id),
    ensures
        accounts_wf(states[k].erikas@),
    decreases k,
{
    if k > 0 {
        lemma_toggles_keep_accounts(states, id, k - 1);
        let j = k - 1;
        assert(online_toggled(states[j], states[j + 1], id));
        assert(states[j + 1] == states[k]);
        lemma_toggle_step(states[k - 1], states[k], id);
    }
}

/// A photo that is gone from the directory, as `delete_photo` leaves it, is
/// not found by a later `Photo::find_by_id`.
pub proof fn deleted_photo_not_found(d: Directory, photo_id: u128)
    requires
        !has_photo(d.photos@, photo_id),
    ensures
        photo_with_id(d.photos@, photo_id) is None,
{
}

} // verus!
