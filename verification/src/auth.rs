//! Authentication and authorization: user accounts with hashed passwords,
//! sessions with expiry, and role-based permissions.

use vstd::prelude::*;
use sha2::{Digest, Sha256};
use crate::clock::current_timestamp;
use crate::text::{decimal, u64_to_string, concat2, concat3, str_equal};

verus! {

/// User role for access control.
#[derive(Debug, Clone, Copy, PartialEq, Eq, Structural)]
pub enum Role {
    /// Full access
    Admin,
    /// Can read and write data
    ReadWrite,
    /// Can only read data
    ReadOnly,
}

/// The SHA-256 digest of the UTF-8 encoding of `text`, in lowercase hex.
pub uninterp spec fn sha256_hex(text: Seq<char>) -> Seq<char>;

/// A lowercase hexadecimal digit.
pub open spec fn is_lower_hex(c: char) -> bool {
    ('0' <= c && c <= '9') || ('a' <= c && c <= 'f')
}

/// 64 lowercase hexadecimal digits: the text of a 32-byte digest.
pub open spec fn is_digest_text(s: Seq<char>) -> bool {
    s.len() == 64 && forall|i: int| 0 <= i < s.len() ==> is_lower_hex(#[trigger] s[i])
}

/// Hashes the UTF-8 bytes of `text` with `sha2::Sha256` and renders the
/// digest in lowercase hex (`{:x}`). Claimed: the result is a function of
/// the text, and (the digest being 32 bytes, each written as two lowercase
/// hex digits) it is 64 lowercase hex digits.
#[verifier::external_body]
pub(crate) fn sha256_hex_digest(text: &str) -> (r: String)
    ensures
        r@ == sha256_hex(text@),
        r@.len() == 64,
        forall|i: int| 0 <= i < r@.len() ==> is_lower_hex(#[trigger] r@[i]),
{
    let mut hasher = Sha256::new();
    hasher.update(text.as_bytes());
    format!("{:x}", hasher.finalize())
}

/// Hash a password with SHA-256.
pub fn hash_password(password: &str) -> (r: String)
    ensures
        r@ == sha256_hex(password@),
        is_digest_text(r@),
{
    sha256_hex_digest(password)
}

/// The session id of `username` at second `timestamp`: the SHA-256 of the
/// user name followed by the decimal timestamp.
pub open spec fn session_id_for(username: Seq<char>, timestamp: u64) -> Seq<char> {
    sha256_hex(username + decimal(timestamp as nat))
}

fn generate_session_id_at(username: &str, timestamp: u64) -> (r: String)
    ensures
        r@ == session_id_for(username@, timestamp),
        is_digest_text(r@),
{
    let t = u64_to_string(timestamp);
    let text = concat2(username, t.as_str());
    sha256_hex_digest(text.as_str())
}

fn copy_string(s: &String) -> (r: String)
    ensures
        r@ == s@,
{
    s.clone()
}

/// User account.
#[derive(Debug)]
pub struct User {
    pub username: String,
    pub password_hash: String,
    pub role: Role,
    pub created_at: u64,
    pub last_login: Option<u64>,
}

/// The abstract value of a user.
pub struct UserView {
    pub username: Seq<char>,
    pub password_hash: Seq<char>,
    pub role: Role,
    pub created_at: u64,
    pub last_login: Option<u64>,
}

impl View for User {
    type V = UserView;

    open spec fn view(&self) -> UserView {
        UserView {
            username: self.username@,
            password_hash: self.password_hash@,
            role: self.role,
            created_at: self.created_at,
            last_login: self.last_login,
        }
    }
}

impl User {
    /// A user with the hash of `password`, created at second `now`, never
    /// logged in.
    pub fn new_at(username: String, password: &str, role: Role, now: u64) -> (r: Self)
        ensures
            r.username@ == username@,
            r.password_hash@ == sha256_hex(password@),
            r.role == role,
            r.created_at == now,
            r.last_login is None,
    {
        User { username, password_hash: hash_password(password), role, created_at: now, last_login: None }
    }

    /// A user with the hash of `password`, created now, never logged in.
    pub fn new(username: String, password: &str, role: Role) -> (r: Self)
        ensures
            r.username@ == username@,
            r.password_hash@ == sha256_hex(password@),
            r.role == role,
            r.last_login is None,
    {
        User::new_at(username, password, role, current_timestamp())
    }

    /// Whether `password` hashes to the stored hash.
    pub fn verify_password(&self, password: &str) -> (r: bool)
        ensures
            r == (self.password_hash@ == sha256_hex(password@)),
    {
        let h = hash_password(password);
        str_equal(self.password_hash.as_str(), h.as_str())
    }

    /// Set the last login to second `now`.
    pub fn update_last_login_at(&mut self, now: u64)
        ensures
            final(self).last_login == Some(now),
            final(self).username@ == old(self).username@,
            final(self).password_hash@ == old(self).password_hash@,
            final(self).role == old(self).role,
            final(self).created_at == old(self).created_at,
    {
        self.last_login = Some(now);
    }

    /// Set the last login to now.
    pub fn update_last_login(&mut self)
        ensures
            final(self).last_login is Some,
            final(self).username@ == old(self).username@,
            final(self).password_hash@ == old(self).password_hash@,
            final(self).role == old(self).role,
            final(self).created_at == old(self).created_at,
    {
        self.update_last_login_at(current_timestamp());
    }

    /// A copy with the same abstract value.
    pub fn duplicate(&self) -> (r: Self)
        ensures
            r@ == self@,
    {
        User {
            username: copy_string(&self.username),
            password_hash: copy_string(&self.password_hash),
            role: self.role,
            created_at: self.created_at,
            last_login: self.last_login,
        }
    }
}

/// Active session.
#[derive(Debug)]
pub struct Session {
    pub session_id: String,
    pub username: String,
    pub role: Role,
    pub created_at: u64,
    pub expires_at: u64,
}

/// The abstract value of a session.
pub struct SessionView {
    pub session_id: Seq<char>,
    pub username: Seq<char>,
    pub role: Role,
    pub created_at: u64,
    pub expires_at: u64,
}

impl View for Session {
    type V = SessionView;

    open spec fn view(&self) -> SessionView {
        SessionView {
            session_id: self.session_id@,
            username: self.username@,
            role: self.role,
            created_at: self.created_at,
            expires_at: self.expires_at,
        }
    }
}

/// Roles that may read.
pub open spec fn role_can_read(r: Role) -> bool {
    r == Role::Admin || r == Role::ReadWrite || r == Role::ReadOnly
}

/// Roles that may write.
pub open spec fn role_can_write(r: Role) -> bool {
    r == Role::Admin || r == Role::ReadWrite
}

/// Roles with administration rights.
pub open spec fn role_is_admin(r: Role) -> bool {
    r == Role::Admin
}

impl Session {
    /// A session for `username` with `role`, created at `created_at`, expiring
    /// `duration_secs` later (at the largest timestamp if that overflows); its
    /// id hashes the user name with `id_timestamp`.
    pub fn new_at(username: String, role: Role, duration_secs: u64, id_timestamp: u64, created_at: u64) -> (r: Self)
        ensures
            r.session_id@ == session_id_for(username@, id_timestamp),
            is_digest_text(r.session_id@),
            r.username@ == username@,
            r.role == role,
            r.created_at == created_at,
            r.expires_at == created_at.saturating_add(duration_secs),
    {
        let session_id = generate_session_id_at(username.as_str(), id_timestamp);
        let expires_at = created_at.saturating_add(duration_secs);
        Session { session_id, username, role, created_at, expires_at }
    }

    /// A session for `username` with `role`, created now, expiring
    /// `duration_secs` later.
    pub fn new(username: String, role: Role, duration_secs: u64) -> (r: Self)
        ensures
            r.username@ == username@,
            r.role == role,
            r.expires_at == r.created_at.saturating_add(duration_secs),
            exists|t: u64| r.session_id@ == session_id_for(username@, t),
            is_digest_text(r.session_id@),
    {
        let id_timestamp = current_timestamp();
        let created_at = current_timestamp();
        Self::new_at(username, role, duration_secs, id_timestamp, created_at)
    }

    /// Whether the session is expired at second `now`.
    pub fn is_expired_at(&self, now: u64) -> (r: bool)
        ensures
            r == (now > self.expires_at),
    {
        now > self.expires_at
    }

    /// Whether the session is expired now.
    pub fn is_expired(&self) -> (r: bool) {
        self.is_expired_at(current_timestamp())
    }

    pub fn can_read(&self) -> (r: bool)
        ensures
            r == role_can_read(self.role),
    {
        match self.role {
            Role::Admin | Role::ReadWrite | Role::ReadOnly => true,
        }
    }

    pub fn can_write(&self) -> (r: bool)
        ensures
            r == role_can_write(self.role),
    {
        match self.role {
            Role::Admin | Role::ReadWrite => true,
            Role::ReadOnly => false,
        }
    }

    pub fn is_admin(&self) -> (r: bool)
        ensures
            r == role_is_admin(self.role),
    {
        match self.role {
            Role::Admin => true,
            _ => false,
        }
    }

    /// A copy with the same abstract value.
    pub fn duplicate(&self) -> (r: Self)
        ensures
            r@ == self@,
    {
        Session {
            session_id: copy_string(&self.session_id),
            username: copy_string(&self.username),
            role: self.role,
            created_at: self.created_at,
            expires_at: self.expires_at,
        }
    }
}

/// Whether some user is named `name`.
pub open spec fn has_user(users: Seq<UserView>, name: Seq<char>) -> bool {
    exists|i: int| 0 <= i < users.len() && users[i].username == name
}

/// The position of the user named `name`.
pub open spec fn user_index(users: Seq<UserView>, name: Seq<char>) -> int {
    choose|i: int| 0 <= i < users.len() && users[i].username == name
}

/// Whether some session has id `id`.
pub open spec fn has_session(sessions: Seq<SessionView>, id: Seq<char>) -> bool {
    exists|i: int| 0 <= i < sessions.len() && sessions[i].session_id == id
}

/// The position of the session with id `id`.
pub open spec fn session_index(sessions: Seq<SessionView>, id: Seq<char>) -> int {
    choose|i: int| 0 <= i < sessions.len() && sessions[i].session_id == id
}

/// User names are pairwise distinct.
pub open spec fn usernames_unique(users: Seq<UserView>) -> bool {
    forall|i: int, j: int| 0 <= i < users.len() && 0 <= j < users.len() && users[i].username == users[j].username ==> i == j
}

/// Session ids are pairwise distinct.
/// The views of a sequence of users.
pub open spec fn user_views(v: Seq<User>) -> Seq<UserView> {
    v.map_values(|u: User| u@)
}

/// The views of a sequence of sessions.
pub open spec fn session_views(v: Seq<Session>) -> Seq<SessionView> {
    v.map_values(|s: Session| s@)
}

proof fn lemma_user_views_push(v: Seq<User>, x: User)
    ensures
        user_views(v.push(x)) == user_views(v).push(x@),
{
    assert(user_views(v.push(x)) =~= user_views(v).push(x@));
}

proof fn lemma_session_views_push(v: Seq<Session>, x: Session)
    ensures
        session_views(v.push(x)) == session_views(v).push(x@),
{
    assert(session_views(v.push(x)) =~= session_views(v).push(x@));
}

/// The sessions of `sessions` that have not expired at second `now`, in order.
pub open spec fn active_sessions(sessions: Seq<SessionView>, now: u64) -> Seq<SessionView> {
    sessions.filter(is_active(now))
}

/// Whether a session is still open at second `now`.
pub open spec fn is_active(now: u64) -> spec_fn(SessionView) -> bool {
    |s: SessionView| s.expires_at > now
}

pub open spec fn session_ids_unique(sessions: Seq<SessionView>) -> bool {
    forall|i: int, j: int| 0 <= i < sessions.len() && 0 <= j < sessions.len() && sessions[i].session_id == sessions[j].session_id ==> i == j
}

/// The message for an unknown user.
pub open spec fn user_not_found(name: Seq<char>) -> Seq<char> {
    "User "@ + name + " not found"@
}

/// The message for a user name that is taken.
pub open spec fn user_exists(name: Seq<char>) -> Seq<char> {
    "User "@ + name + " already exists"@
}

/// The outcome of validating a session at second `now`.
pub open spec fn validation_outcome(sessions: Seq<SessionView>, id: Seq<char>, now: u64) -> Result<SessionView, Seq<char>> {
    if !has_session(sessions, id) {
        Err("Invalid session"@)
    } else if now > sessions[session_index(sessions, id)].expires_at {
        Err("Session expired"@)
    } else {
        Ok(sessions[session_index(sessions, id)])
    }
}

/// A result without a value, its error as characters.
pub open spec fn unit_result_view(r: Result<(), String>) -> Result<(), Seq<char>> {
    match r {
        Ok(_) => Ok(()),
        Err(e) => Err(e@),
    }
}

/// A validation's result, its session or error as abstract values.
pub open spec fn session_result_view(r: Result<Session, String>) -> Result<SessionView, Seq<char>> {
    match r {
        Ok(s) => Ok(s@),
        Err(e) => Err(e@),
    }
}

/// The answer to a permission check at second `now`: the validation's
/// error, or success where the role allows, or the denial `denied`.
pub open spec fn permission_outcome(
    sessions: Seq<SessionView>,
    id: Seq<char>,
    now: u64,
    allowed: bool,
    denied: Seq<char>,
) -> Result<(), Seq<char>> {
    match validation_outcome(sessions, id, now) {
        Err(m) => Err(m),
        Ok(_) => if allowed {
            Ok(())
        } else {
            Err(denied)
        },
    }
}

/// The answer to a read check at second `now`.
pub open spec fn read_outcome(sessions: Seq<SessionView>, id: Seq<char>, now: u64) -> Result<(), Seq<char>> {
    permission_outcome(sessions, id, now, has_session(sessions, id) && role_can_read(
        sessions[session_index(sessions, id)].role), "Permission denied: read access required"@)
}

/// The answer to a write check at second `now`.
pub open spec fn write_outcome(sessions: Seq<SessionView>, id: Seq<char>, now: u64) -> Result<(), Seq<char>> {
    permission_outcome(sessions, id, now, has_session(sessions, id) && role_can_write(
        sessions[session_index(sessions, id)].role), "Permission denied: write access required"@)
}

/// The answer to an administration check at second `now`.
pub open spec fn admin_outcome(sessions: Seq<SessionView>, id: Seq<char>, now: u64) -> Result<(), Seq<char>> {
    permission_outcome(sessions, id, now, has_session(sessions, id) && role_is_admin(
        sessions[session_index(sessions, id)].role), "Permission denied: admin access required"@)
}

/// The sessions after validating `id` at second `now`: an expired session
/// is dropped.
pub open spec fn sessions_after_validation(sessions: Seq<SessionView>, id: Seq<char>, now: u64) -> Seq<SessionView> {
    if has_session(sessions, id) && now > sessions[session_index(sessions, id)].expires_at {
        sessions.remove(session_index(sessions, id))
    } else {
        sessions
    }
}

proof fn lemma_index_of_user(users: Seq<UserView>, i: int)
    requires
        usernames_unique(users),
        0 <= i < users.len(),
    ensures
        has_user(users, users[i].username),
        user_index(users, users[i].username) == i,
{
    let j = user_index(users, users[i].username);
    assert(users[j].username == users[i].username);
}

proof fn lemma_index_of_session(sessions: Seq<SessionView>, i: int)
    requires
        session_ids_unique(sessions),
        0 <= i < sessions.len(),
    ensures
        has_session(sessions, sessions[i].session_id),
        session_index(sessions, sessions[i].session_id) == i,
{
    let j = session_index(sessions, sessions[i].session_id);
    assert(sessions[j].session_id == sessions[i].session_id);
}

/// Authentication manager.
///
/// Users and sessions are vectors with distinct user names and session ids
/// (see `wf`) rather than maps keyed by `String`: vstd's `HashMap`
/// specifications hold only for key types that obey its key model, and it
/// gives `String` no such fact.
pub struct AuthManager {
    users: Vec<User>,
    sessions: Vec<Session>,
    /// Session duration in seconds
    session_duration: u64,
}

impl AuthManager {
    pub closed spec fn wf(&self) -> bool {
        &&& usernames_unique(self.users_spec())
        &&& session_ids_unique(self.sessions_spec())
    }

    /// The user accounts.
    pub closed spec fn users_spec(&self) -> Seq<UserView> {
        user_views(self.users@)
    }

    /// The open sessions.
    pub closed spec fn sessions_spec(&self) -> Seq<SessionView> {
        session_views(self.sessions@)
    }

    pub closed spec fn session_duration_spec(&self) -> u64 {
        self.session_duration
    }

    fn find_user(&self, name: &str) -> (r: Option<usize>)
        requires
            self.wf(),
        ensures
            match r {
                Some(i) => i < self.users@.len() && self.users_spec()[i as int].username == name@
                    && has_user(self.users_spec(), name@) && user_index(self.users_spec(), name@) == i,
                None => !has_user(self.users_spec(), name@),
            },
    {
        let mut i: usize = 0;
        while i < self.users.len()
            invariant
                self.wf(),
                i <= self.users@.len(),
                forall|j: int| 0 <= j < i ==> self.users_spec()[j].username != name@,
            decreases self.users.len() - i,
        {
            if str_equal(self.users[i].username.as_str(), name) {
                proof { lemma_index_of_user(self.users_spec(), i as int); }
                return Some(i);
            }
            i = i + 1;
        }
        proof {
            if has_user(self.users_spec(), name@) {
                let j = choose|j: int| 0 <= j < self.users_spec().len() && self.users_spec()[j].username == name@;
                assert(self.users_spec()[j].username == name@);
            }
        }
        None
    }

    fn find_session(&self, id: &str) -> (r: Option<usize>)
        requires
            self.wf(),
        ensures
            match r {
                Some(i) => i < self.sessions@.len() && self.sessions_spec()[i as int].session_id == id@
                    && has_session(self.sessions_spec(), id@) && session_index(self.sessions_spec(), id@) == i,
                None => !has_session(self.sessions_spec(), id@),
            },
    {
        let mut i: usize = 0;
        while i < self.sessions.len()
            invariant
                self.wf(),
                i <= self.sessions@.len(),
                forall|j: int| 0 <= j < i ==> self.sessions_spec()[j].session_id != id@,
            decreases self.sessions.len() - i,
        {
            if str_equal(self.sessions[i].session_id.as_str(), id) {
                proof { lemma_index_of_session(self.sessions_spec(), i as int); }
                return Some(i);
            }
            i = i + 1;
        }
        proof {
            if has_session(self.sessions_spec(), id@) {
                let j = choose|j: int| 0 <= j < self.sessions_spec().len() && self.sessions_spec()[j].session_id == id@;
                assert(self.sessions_spec()[j].session_id == id@);
            }
        }
        None
    }

    /// A manager with one administrator, `admin` with password `admin`, no
    /// sessions, and sessions lasting an hour.
    pub fn new() -> (r: Self)
        ensures
            r.wf(),
            r.users_spec().len() == 1,
            r.users_spec()[0].username == "admin"@,
            r.users_spec()[0].password_hash == sha256_hex("admin"@),
            r.users_spec()[0].role == Role::Admin,
            r.users_spec()[0].last_login is None,
            r.sessions_spec() == Seq::<SessionView>::empty(),
            r.session_duration_spec() == 3600,
    {
        let mut manager = AuthManager { users: Vec::new(), sessions: Vec::new(), session_duration: 3600 };
        proof {
            assert(manager.users_spec() =~= Seq::<UserView>::empty());
            assert(manager.sessions_spec() =~= Seq::<SessionView>::empty());
        }
        let _ = manager.create_user(String::from_str("admin"), "admin", Role::Admin);
        proof {
            reveal_strlit("admin");
        }
        manager
    }

    /// Create a user at second `now`; a taken name is refused.
    pub fn create_user_at(&mut self, username: String, password: &str, role: Role, now: u64) -> (r: Result<(), String>)
        requires
            old(self).wf(),
        ensures
            final(self).wf(),
            has_user(old(self).users_spec(), username@) ==> (r matches Err(e) && e@ == user_exists(username@))
                && final(self).users_spec() == old(self).users_spec(),
            !has_user(old(self).users_spec(), username@) ==> r is Ok
                && final(self).users_spec().len() == old(self).users_spec().len() + 1
                && final(self).users_spec().drop_last() == old(self).users_spec()
                && final(self).users_spec().last().username == username@
                && final(self).users_spec().last().password_hash == sha256_hex(password@)
                && final(self).users_spec().last().role == role
                && final(self).users_spec().last().last_login is None
                && final(self).users_spec().last().created_at == now,
            final(self).sessions_spec() == old(self).sessions_spec(),
            final(self).session_duration_spec() == old(self).session_duration_spec(),
    {
        if self.find_user(username.as_str()).is_some() {
            return Err(concat3("User ", username.as_str(), " already exists"));
        }
        let user = User::new_at(username, password, role, now);
        let ghost before = self.users_spec();
        self.users.push(user);
        proof {
            assert(self.users_spec() =~= before.push(user@));
            assert(self.users_spec().drop_last() =~= before);
            assert forall|i: int, j: int| 0 <= i < self.users_spec().len() && 0 <= j < self.users_spec().len()
                && self.users_spec()[i].username == self.users_spec()[j].username implies i == j by {
                if i < before.len() && j == before.len() {
                    assert(before[i].username == user@.username);
                } else if j < before.len() && i == before.len() {
                    assert(before[j].username == user@.username);
                }
            }
        }
        Ok(())
    }

    /// Create a user now; a taken name is refused.
    pub fn create_user(&mut self, username: String, password: &str, role: Role) -> (r: Result<(), String>)
        requires
            old(self).wf(),
        ensures
            final(self).wf(),
            has_user(old(self).users_spec(), username@) ==> (r matches Err(e) && e@ == user_exists(username@))
                && final(self).users_spec() == old(self).users_spec(),
            !has_user(old(self).users_spec(), username@) ==> r is Ok
                && final(self).users_spec().len() == old(self).users_spec().len() + 1
                && final(self).users_spec().drop_last() == old(self).users_spec()
                && final(self).users_spec().last().username == username@
                && final(self).users_spec().last().password_hash == sha256_hex(password@)
                && final(self).users_spec().last().role == role
                && final(self).users_spec().last().last_login is None,
            final(self).sessions_spec() == old(self).sessions_spec(),
            final(self).session_duration_spec() == old(self).session_duration_spec(),
    {
        self.create_user_at(username, password, role, current_timestamp())
    }

    /// Delete a user; an unknown name is refused.
    pub fn delete_user(&mut self, username: &str) -> (r: Result<(), String>)
        requires
            old(self).wf(),
        ensures
            final(self).wf(),
            !has_user(old(self).users_spec(), username@) ==> (r matches Err(e) && e@ == user_not_found(username@))
                && final(self).users_spec() == old(self).users_spec(),
            has_user(old(self).users_spec(), username@) ==> r is Ok
                && final(self).users_spec() == old(self).users_spec().remove(user_index(old(self).users_spec(), username@)),
            final(self).sessions_spec() == old(self).sessions_spec(),
            final(self).session_duration_spec() == old(self).session_duration_spec(),
    {
        match self.find_user(username) {
            None => Err(concat3("User ", username, " not found")),
            Some(i) => {
                let ghost before = self.users_spec();
                self.users.remove(i);
                proof {
                    assert(self.users_spec() =~= before.remove(i as int));
                    assert forall|a: int, b: int| 0 <= a < self.users_spec().len() && 0 <= b < self.users_spec().len()
                        && self.users_spec()[a].username == self.users_spec()[b].username implies a == b by {
                        let aa = if a < i { a } else { a + 1 };
                        let bb = if b < i { b } else { b + 1 };
                        assert(self.users_spec()[a] == before[aa]);
                        assert(self.users_spec()[b] == before[bb]);
                    }
                }
                Ok(())
            },
        }
    }

    /// Replace a user's password hash; an unknown name is refused.
    pub fn change_password(&mut self, username: &str, new_password: &str) -> (r: Result<(), String>)
        requires
            old(self).wf(),
        ensures
            final(self).wf(),
            !has_user(old(self).users_spec(), username@) ==> (r matches Err(e) && e@ == user_not_found(username@))
                && final(self).users_spec() == old(self).users_spec(),
            has_user(old(self).users_spec(), username@) ==> r is Ok && ({
                let i = user_index(old(self).users_spec(), username@);
                final(self).users_spec() == old(self).users_spec().update(i,
                    UserView { password_hash: sha256_hex(new_password@), ..old(self).users_spec()[i] })
            }),
            final(self).sessions_spec() == old(self).sessions_spec(),
            final(self).session_duration_spec() == old(self).session_duration_spec(),
    {
        match self.find_user(username) {
            None => Err(concat3("User ", username, " not found")),
            Some(i) => {
                let ghost before = self.users_spec();
                let mut u = self.users[i].duplicate();
                u.password_hash = hash_password(new_password);
                self.users.set(i, u);
                proof {
                    let nu = UserView { password_hash: sha256_hex(new_password@), ..before[i as int] };
                    assert(self.users_spec() =~= before.update(i as int, nu));
                    assert forall|a: int, b: int| 0 <= a < self.users_spec().len() && 0 <= b < self.users_spec().len()
                        && self.users_spec()[a].username == self.users_spec()[b].username implies a == b by {
                        assert(self.users_spec()[a].username == before[a].username);
                        assert(self.users_spec()[b].username == before[b].username);
                    }
                }
                Ok(())
            },
        }
    }

    /// Record a session, replacing one with the same id.
    fn put_session(&mut self, session: Session)
        requires
            old(self).wf(),
        ensures
            final(self).wf(),
            has_session(final(self).sessions_spec(), session@.session_id),
            final(self).sessions_spec()[session_index(final(self).sessions_spec(), session@.session_id)] == session@,
            forall|id: Seq<char>| id != session@.session_id ==> (has_session(final(self).sessions_spec(), id)
                == has_session(old(self).sessions_spec(), id)),
            forall|id: Seq<char>| id != session@.session_id && has_session(old(self).sessions_spec(), id) ==>
                final(self).sessions_spec()[session_index(final(self).sessions_spec(), id)]
                    == old(self).sessions_spec()[session_index(old(self).sessions_spec(), id)],
            final(self).users_spec() == old(self).users_spec(),
            final(self).session_duration_spec() == old(self).session_duration_spec(),
    {
        let ghost before = self.sessions_spec();
        let ghost sv = session@;
        match self.find_session(session.session_id.as_str()) {
            Some(i) => {
                self.sessions.set(i, session);
                proof {
                    let after = self.sessions_spec();
                    assert(after =~= before.update(i as int, sv));
                    assert forall|a: int, b: int| 0 <= a < after.len() && 0 <= b < after.len()
                        && after[a].session_id == after[b].session_id implies a == b by {
                        assert(after[a].session_id == before[a].session_id);
                        assert(after[b].session_id == before[b].session_id);
                    }
                    lemma_index_of_session(after, i as int);
                    assert forall|id: Seq<char>| id != sv.session_id implies (has_session(after, id) == has_session(before, id)) by {
                        if has_session(after, id) {
                            let j = choose|j: int| 0 <= j < after.len() && after[j].session_id == id;
                            assert(before[j].session_id == id);
                        }
                        if has_session(before, id) {
                            let j = choose|j: int| 0 <= j < before.len() && before[j].session_id == id;
                            assert(after[j].session_id == id);
                        }
                    }
                    assert forall|id: Seq<char>| id != sv.session_id && has_session(before, id) implies
                        after[session_index(after, id)] == before[session_index(before, id)] by {
                        let j = session_index(before, id);
                        assert(after[j].session_id == id);
                        lemma_index_of_session(after, j);
                    }
                }
            },
            None => {
                self.sessions.push(session);
                proof {
                    let after = self.sessions_spec();
                    assert(after =~= before.push(sv));
                    assert forall|a: int, b: int| 0 <= a < after.len() && 0 <= b < after.len()
                        && after[a].session_id == after[b].session_id implies a == b by {
                        if a < before.len() && b == before.len() {
                            assert(before[a].session_id == sv.session_id);
                        } else if b < before.len() && a == before.len() {
                            assert(before[b].session_id == sv.session_id);
                        }
                    }
                    lemma_index_of_session(after, before.len() as int);
                    assert forall|id: Seq<char>| id != sv.session_id implies (has_session(after, id) == has_session(before, id)) by {
                        if has_session(after, id) {
                            let j = choose|j: int| 0 <= j < after.len() && after[j].session_id == id;
                            assert(before[j].session_id == id);
                        }
                        if has_session(before, id) {
                            let j = choose|j: int| 0 <= j < before.len() && before[j].session_id == id;
                            assert(after[j].session_id == id);
                        }
                    }
                    assert forall|id: Seq<char>| id != sv.session_id && has_session(before, id) implies
                        after[session_index(after, id)] == before[session_index(before, id)] by {
                        let j = session_index(before, id);
                        assert(after[j].session_id == id);
                        lemma_index_of_session(after, j);
                    }
                }
            },
        }
    }

    /// Authenticate and open a session at second `now`. An unknown user
    /// and a wrong password are refused; otherwise the user's last login
    /// becomes `now` and a session with the user's role, created at `now`
    /// and lasting the session duration, is recorded under the returned id.
    pub fn login_at(&mut self, username: &str, password: &str, now: u64) -> (r: Result<String, String>)
        requires
            old(self).wf(),
        ensures
            final(self).wf(),
            !has_user(old(self).users_spec(), username@) ==> (r matches Err(e) && e@ == user_not_found(username@))
                && final(self).users_spec() == old(self).users_spec()
                && final(self).sessions_spec() == old(self).sessions_spec(),
            has_user(old(self).users_spec(), username@)
                && old(self).users_spec()[user_index(old(self).users_spec(), username@)].password_hash != sha256_hex(password@)
                ==> (r matches Err(e) && e@ == "Invalid password"@)
                && final(self).users_spec() == old(self).users_spec()
                && final(self).sessions_spec() == old(self).sessions_spec(),
            has_user(old(self).users_spec(), username@)
                && old(self).users_spec()[user_index(old(self).users_spec(), username@)].password_hash == sha256_hex(password@)
                ==> (r matches Ok(id) && {
                    let u = old(self).users_spec()[user_index(old(self).users_spec(), username@)];
                    let s = final(self).sessions_spec()[session_index(final(self).sessions_spec(), id@)];
                    &&& has_session(final(self).sessions_spec(), id@)
                    &&& s.session_id == id@
                    &&& s.username == username@
                    &&& s.role == u.role
                    &&& s.created_at == now
                    &&& s.expires_at == now.saturating_add(old(self).session_duration_spec())
                    &&& id@ == session_id_for(username@, now)
                    &&& forall|other: Seq<char>| other != id@ && has_session(old(self).sessions_spec(), other) ==>
                        final(self).sessions_spec()[session_index(final(self).sessions_spec(), other)]
                            == old(self).sessions_spec()[session_index(old(self).sessions_spec(), other)]
                    &&& is_digest_text(id@)
                    &&& forall|other: Seq<char>| other != id@ ==> (has_session(final(self).sessions_spec(), other)
                        == has_session(old(self).sessions_spec(), other))
                    &&& final(self).users_spec().len() == old(self).users_spec().len()
                    &&& final(self).users_spec()[user_index(old(self).users_spec(), username@)]
                        == UserView { last_login: final(self).users_spec()[user_index(old(self).users_spec(), username@)].last_login, ..u }
                    &&& final(self).users_spec()[user_index(old(self).users_spec(), username@)].last_login == Some(now)
                    &&& forall|j: int| 0 <= j < old(self).users_spec().len() && j != user_index(old(self).users_spec(), username@)
                        ==> final(self).users_spec()[j] == old(self).users_spec()[j]
                }),
            final(self).session_duration_spec() == old(self).session_duration_spec(),
    {
        let i = match self.find_user(username) {
            None => {
                return Err(concat3("User ", username, " not found"));
            },
            Some(i) => i,
        };
        if !self.users[i].verify_password(password) {
            return Err(String::from_str("Invalid password"));
        }
        let ghost before_users = self.users_spec();
        let mut u = self.users[i].duplicate();
        u.update_last_login_at(now);
        let role = u.role;
        self.users.set(i, u);
        proof {
            assert forall|j: int| 0 <= j < before_users.len() && j != i implies self.users_spec()[j] == before_users[j] by {}
            assert(self.users_spec().len() == before_users.len());
            assert forall|a: int, b: int| 0 <= a < self.users_spec().len() && 0 <= b < self.users_spec().len()
                && self.users_spec()[a].username == self.users_spec()[b].username implies a == b by {
                assert(self.users_spec()[a].username == before_users[a].username);
                assert(self.users_spec()[b].username == before_users[b].username);
            }
        }
        let session = Session::new_at(String::from_str(username), role, self.session_duration, now, now);
        let session_id = copy_string(&session.session_id);
        self.put_session(session);
        Ok(session_id)
    }

    /// Authenticate and open a session. An unknown user and a wrong
    /// password are refused; otherwise the user's last login is set and a
    /// session with the user's role, lasting the session duration, is
    /// recorded under the returned id.
    pub fn login(&mut self, username: &str, password: &str) -> (r: Result<String, String>)
        requires
            old(self).wf(),
        ensures
            final(self).wf(),
            !has_user(old(self).users_spec(), username@) ==> (r matches Err(e) && e@ == user_not_found(username@))
                && final(self).users_spec() == old(self).users_spec()
                && final(self).sessions_spec() == old(self).sessions_spec(),
            has_user(old(self).users_spec(), username@)
                && old(self).users_spec()[user_index(old(self).users_spec(), username@)].password_hash != sha256_hex(password@)
                ==> (r matches Err(e) && e@ == "Invalid password"@)
                && final(self).users_spec() == old(self).users_spec()
                && final(self).sessions_spec() == old(self).sessions_spec(),
            has_user(old(self).users_spec(), username@)
                && old(self).users_spec()[user_index(old(self).users_spec(), username@)].password_hash == sha256_hex(password@)
                ==> (r matches Ok(id) && {
                    let u = old(self).users_spec()[user_index(old(self).users_spec(), username@)];
                    let s = final(self).sessions_spec()[session_index(final(self).sessions_spec(), id@)];
                    &&& has_session(final(self).sessions_spec(), id@)
                    &&& s.session_id == id@
                    &&& s.username == username@
                    &&& s.role == u.role
                    &&& s.expires_at == s.created_at.saturating_add(old(self).session_duration_spec())
                    &&& id@ == session_id_for(username@, s.created_at)
                    &&& forall|other: Seq<char>| other != id@ && has_session(old(self).sessions_spec(), other) ==>
                        final(self).sessions_spec()[session_index(final(self).sessions_spec(), other)]
                            == old(self).sessions_spec()[session_index(old(self).sessions_spec(), other)]
                    &&& is_digest_text(id@)
                    &&& forall|other: Seq<char>| other != id@ ==> (has_session(final(self).sessions_spec(), other)
                        == has_session(old(self).sessions_spec(), other))
                    &&& final(self).users_spec().len() == old(self).users_spec().len()
                    &&& final(self).users_spec()[user_index(old(self).users_spec(), username@)]
                        == UserView { last_login: final(self).users_spec()[user_index(old(self).users_spec(), username@)].last_login, ..u }
                    &&& final(self).users_spec()[user_index(old(self).users_spec(), username@)].last_login == Some(s.created_at)
                    &&& forall|j: int| 0 <= j < old(self).users_spec().len() && j != user_index(old(self).users_spec(), username@)
                        ==> final(self).users_spec()[j] == old(self).users_spec()[j]
                }),
            final(self).session_duration_spec() == old(self).session_duration_spec(),
    {
        let now = current_timestamp();
        self.login_at(username, password, now)
    }

    /// Close a session; an unknown id is refused.
    pub fn logout(&mut self, session_id: &str) -> (r: Result<(), String>)
        requires
            old(self).wf(),
        ensures
            final(self).wf(),
            !has_session(old(self).sessions_spec(), session_id@) ==> (r matches Err(e) && e@ == "Invalid session"@)
                && final(self).sessions_spec() == old(self).sessions_spec(),
            has_session(old(self).sessions_spec(), session_id@) ==> r is Ok
                && final(self).sessions_spec() == old(self).sessions_spec().remove(
                    session_index(old(self).sessions_spec(), session_id@)),
            !has_session(final(self).sessions_spec(), session_id@),
            final(self).users_spec() == old(self).users_spec(),
            final(self).session_duration_spec() == old(self).session_duration_spec(),
    {
        match self.find_session(session_id) {
            None => Err(String::from_str("Invalid session")),
            Some(i) => {
                self.remove_session_at(i);
                Ok(())
            },
        }
    }

    fn remove_session_at(&mut self, i: usize)
        requires
            old(self).wf(),
            i < old(self).sessions_spec().len(),
        ensures
            final(self).wf(),
            final(self).sessions_spec() == old(self).sessions_spec().remove(i as int),
            !has_session(final(self).sessions_spec(), old(self).sessions_spec()[i as int].session_id),
            final(self).users_spec() == old(self).users_spec(),
            final(self).session_duration_spec() == old(self).session_duration_spec(),
    {
        let ghost before = self.sessions_spec();
        self.sessions.remove(i);
        proof {
            let after = self.sessions_spec();
            assert(after =~= before.remove(i as int));
            assert forall|a: int, b: int| 0 <= a < after.len() && 0 <= b < after.len()
                && after[a].session_id == after[b].session_id implies a == b by {
                let aa = if a < i { a } else { a + 1 };
                let bb = if b < i { b } else { b + 1 };
                assert(after[a] == before[aa]);
                assert(after[b] == before[bb]);
            }
            if has_session(after, before[i as int].session_id) {
                let j = choose|j: int| 0 <= j < after.len() && after[j].session_id == before[i as int].session_id;
                let jj = if j < i { j } else { j + 1 };
                assert(after[j] == before[jj]);
            }
        }
    }

    /// Validate a session at second `now`: an unknown id is refused, an
    /// expired session is dropped and refused, a live one is returned.
    pub fn validate_session_at(&mut self, session_id: &str, now: u64) -> (r: Result<Session, String>)
        requires
            old(self).wf(),
        ensures
            final(self).wf(),
            match (r, validation_outcome(old(self).sessions_spec(), session_id@, now)) {
                (Ok(s), Ok(v)) => s@ == v,
                (Err(e), Err(m)) => e@ == m,
                _ => false,
            },
            final(self).sessions_spec() == sessions_after_validation(old(self).sessions_spec(), session_id@, now),
            final(self).users_spec() == old(self).users_spec(),
            final(self).session_duration_spec() == old(self).session_duration_spec(),
    {
        match self.find_session(session_id) {
            None => Err(String::from_str("Invalid session")),
            Some(i) => {
                if self.sessions[i].is_expired_at(now) {
                    self.remove_session_at(i);
                    Err(String::from_str("Session expired"))
                } else {
                    Ok(self.sessions[i].duplicate())
                }
            },
        }
    }

    /// Validate a session against the clock.
    pub fn validate_session(&mut self, session_id: &str) -> (r: Result<Session, String>)
        requires
            old(self).wf(),
        ensures
            final(self).wf(),
            !has_session(old(self).sessions_spec(), session_id@) ==> (r matches Err(e) && e@ == "Invalid session"@),
            r matches Ok(s) ==> has_session(old(self).sessions_spec(), session_id@)
                && s@ == old(self).sessions_spec()[session_index(old(self).sessions_spec(), session_id@)]
                && final(self).sessions_spec() == old(self).sessions_spec(),
            exists|now: u64| {
                &&& session_result_view(r) == #[trigger] validation_outcome(old(self).sessions_spec(), session_id@, now)
                &&& final(self).sessions_spec() == sessions_after_validation(old(self).sessions_spec(), session_id@, now)
            },
            final(self).users_spec() == old(self).users_spec(),
            final(self).session_duration_spec() == old(self).session_duration_spec(),
    {
        let now = current_timestamp();
        let r = self.validate_session_at(session_id, now);
        assert(session_result_view(r) == validation_outcome(old(self).sessions_spec(), session_id@, now));
        r
    }

    /// Read permission at second `now`: the session must validate and its
    /// role must allow reading.
    pub fn check_read_permission_at(&mut self, session_id: &str, now: u64) -> (r: Result<(), String>)
        requires
            old(self).wf(),
        ensures
            final(self).wf(),
            match validation_outcome(old(self).sessions_spec(), session_id@, now) {
                Err(m) => (r matches Err(e) && e@ == m),
                Ok(v) => if role_can_read(v.role) { r is Ok } else {
                    r matches Err(e) && e@ == "Permission denied: read access required"@ },
            },
            final(self).sessions_spec() == sessions_after_validation(old(self).sessions_spec(), session_id@, now),
            final(self).users_spec() == old(self).users_spec(),
            final(self).session_duration_spec() == old(self).session_duration_spec(),
    {
        let session = self.validate_session_at(session_id, now)?;
        if session.can_read() {
            Ok(())
        } else {
            Err(String::from_str("Permission denied: read access required"))
        }
    }

    /// Write permission at second `now`: the session must validate and its
    /// role must allow writing.
    pub fn check_write_permission_at(&mut self, session_id: &str, now: u64) -> (r: Result<(), String>)
        requires
            old(self).wf(),
        ensures
            final(self).wf(),
            match validation_outcome(old(self).sessions_spec(), session_id@, now) {
                Err(m) => (r matches Err(e) && e@ == m),
                Ok(v) => if role_can_write(v.role) { r is Ok } else {
                    r matches Err(e) && e@ == "Permission denied: write access required"@ },
            },
            final(self).sessions_spec() == sessions_after_validation(old(self).sessions_spec(), session_id@, now),
            final(self).users_spec() == old(self).users_spec(),
            final(self).session_duration_spec() == old(self).session_duration_spec(),
    {
        let session = self.validate_session_at(session_id, now)?;
        if session.can_write() {
            Ok(())
        } else {
            Err(String::from_str("Permission denied: write access required"))
        }
    }

    /// Administration permission at second `now`: the session must validate
    /// and its role must be administrator.
    pub fn check_admin_permission_at(&mut self, session_id: &str, now: u64) -> (r: Result<(), String>)
        requires
            old(self).wf(),
        ensures
            final(self).wf(),
            match validation_outcome(old(self).sessions_spec(), session_id@, now) {
                Err(m) => (r matches Err(e) && e@ == m),
                Ok(v) => if role_is_admin(v.role) { r is Ok } else {
                    r matches Err(e) && e@ == "Permission denied: admin access required"@ },
            },
            final(self).sessions_spec() == sessions_after_validation(old(self).sessions_spec(), session_id@, now),
            final(self).users_spec() == old(self).users_spec(),
            final(self).session_duration_spec() == old(self).session_duration_spec(),
    {
        let session = self.validate_session_at(session_id, now)?;
        if session.is_admin() {
            Ok(())
        } else {
            Err(String::from_str("Permission denied: admin access required"))
        }
    }

    /// Read permission against the clock.
    pub fn check_read_permission(&mut self, session_id: &str) -> (r: Result<(), String>)
        requires
            old(self).wf(),
        ensures
            final(self).wf(),
            !has_session(old(self).sessions_spec(), session_id@) ==> (r matches Err(e) && e@ == "Invalid session"@),
            r is Ok ==> has_session(old(self).sessions_spec(), session_id@) && role_can_read(
                old(self).sessions_spec()[session_index(old(self).sessions_spec(), session_id@)].role),
            exists|now: u64| {
                &&& unit_result_view(r) == #[trigger] read_outcome(old(self).sessions_spec(), session_id@, now)
                &&& final(self).sessions_spec() == sessions_after_validation(old(self).sessions_spec(), session_id@, now)
            },
            final(self).users_spec() == old(self).users_spec(),
    {
        let now = current_timestamp();
        let r = self.check_read_permission_at(session_id, now);
        assert(unit_result_view(r) == read_outcome(old(self).sessions_spec(), session_id@, now));
        r
    }

    /// Write permission against the clock.
    pub fn check_write_permission(&mut self, session_id: &str) -> (r: Result<(), String>)
        requires
            old(self).wf(),
        ensures
            final(self).wf(),
            !has_session(old(self).sessions_spec(), session_id@) ==> (r matches Err(e) && e@ == "Invalid session"@),
            r is Ok ==> has_session(old(self).sessions_spec(), session_id@) && role_can_write(
                old(self).sessions_spec()[session_index(old(self).sessions_spec(), session_id@)].role),
            exists|now: u64| {
                &&& unit_result_view(r) == #[trigger] write_outcome(old(self).sessions_spec(), session_id@, now)
                &&& final(self).sessions_spec() == sessions_after_validation(old(self).sessions_spec(), session_id@, now)
            },
            final(self).users_spec() == old(self).users_spec(),
    {
        let now = current_timestamp();
        let r = self.check_write_permission_at(session_id, now);
        assert(unit_result_view(r) == write_outcome(old(self).sessions_spec(), session_id@, now));
        r
    }

    /// Administration permission against the clock.
    pub fn check_admin_permission(&mut self, session_id: &str) -> (r: Result<(), String>)
        requires
            old(self).wf(),
        ensures
            final(self).wf(),
            !has_session(old(self).sessions_spec(), session_id@) ==> (r matches Err(e) && e@ == "Invalid session"@),
            r is Ok ==> has_session(old(self).sessions_spec(), session_id@) && role_is_admin(
                old(self).sessions_spec()[session_index(old(self).sessions_spec(), session_id@)].role),
            exists|now: u64| {
                &&& unit_result_view(r) == #[trigger] admin_outcome(old(self).sessions_spec(), session_id@, now)
                &&& final(self).sessions_spec() == sessions_after_validation(old(self).sessions_spec(), session_id@, now)
            },
            final(self).users_spec() == old(self).users_spec(),
    {
        let now = current_timestamp();
        let r = self.check_admin_permission_at(session_id, now);
        assert(unit_result_view(r) == admin_outcome(old(self).sessions_spec(), session_id@, now));
        r
    }

    /// Copies of all users.
    pub fn list_users(&self) -> (r: Vec<User>)
        ensures
            user_views(r@) == self.users_spec(),
    {
        let mut out: Vec<User> = Vec::new();
        let mut i: usize = 0;
        while i < self.users.len()
            invariant
                i <= self.users@.len(),
                user_views(out@) == self.users_spec().subrange(0, i as int),
            decreases self.users.len() - i,
        {
            let u = self.users[i].duplicate();
            proof {
                lemma_user_views_push(out@, u);
            }
            out.push(u);
            proof {
                assert(user_views(out@) =~= self.users_spec().subrange(0, i + 1));
            }
            i = i + 1;
        }
        assert(self.users_spec().subrange(0, self.users@.len() as int) =~= self.users_spec());
        out
    }

    /// Copies of the sessions that have not expired at second `now`
    /// (expiry strictly after `now`), in order.
    pub fn list_active_sessions_at(&self, now: u64) -> (r: Vec<Session>)
        ensures
            session_views(r@) == active_sessions(self.sessions_spec(), now),
    {
        let mut out: Vec<Session> = Vec::new();
        let mut i: usize = 0;
        while i < self.sessions.len()
            invariant
                i <= self.sessions@.len(),
                session_views(out@) == self.sessions_spec().subrange(0, i as int).filter(is_active(now)),
            decreases self.sessions.len() - i,
        {
            let ghost sub = self.sessions_spec().subrange(0, i + 1);
            proof {
                assert(sub.drop_last() =~= self.sessions_spec().subrange(0, i as int));
                sub.drop_last().lemma_filter_push(sub.last(), is_active(now));
                assert(sub =~= sub.drop_last().push(sub.last()));
            }
            if self.sessions[i].expires_at > now {
                let c = self.sessions[i].duplicate();
                proof {
                    lemma_session_views_push(out@, c);
                }
                out.push(c);
            }
            proof {
                assert(session_views(out@) =~= sub.filter(is_active(now)));
            }
            i = i + 1;
        }
        assert(self.sessions_spec().subrange(0, self.sessions@.len() as int) =~= self.sessions_spec());
        out
    }

    /// Copies of the sessions that have not expired now.
    pub fn list_active_sessions(&self) -> (r: Vec<Session>)
        ensures
            exists|now: u64| session_views(r@) == #[trigger] active_sessions(self.sessions_spec(), now),
    {
        let now = current_timestamp();
        self.list_active_sessions_at(now)
    }

    /// Drop the sessions that have expired at second `now` (expiry at or
    /// before `now`).
    pub fn cleanup_expired_sessions_at(&mut self, now: u64)
        requires
            old(self).wf(),
        ensures
            final(self).wf(),
            final(self).sessions_spec() == active_sessions(old(self).sessions_spec(), now),
            final(self).users_spec() == old(self).users_spec(),
            final(self).session_duration_spec() == old(self).session_duration_spec(),
    {
        let mut kept: Vec<Session> = Vec::new();
        let mut old_sessions: Vec<Session> = Vec::new();
        std::mem::swap(&mut old_sessions, &mut self.sessions);
        let ghost s0 = session_views(old_sessions@);
        assert(s0 == old(self).sessions_spec());
        let mut i: usize = 0;
        while i < old_sessions.len()
            invariant
                s0 == session_views(old_sessions@),
                i <= old_sessions@.len(),
                session_views(kept@) == s0.subrange(0, i as int).filter(is_active(now)),
            decreases old_sessions.len() - i,
        {
            let ghost sub = s0.subrange(0, i + 1);
            proof {
                assert(sub.drop_last() =~= s0.subrange(0, i as int));
                sub.drop_last().lemma_filter_push(sub.last(), is_active(now));
                assert(sub =~= sub.drop_last().push(sub.last()));
            }
            if old_sessions[i].expires_at > now {
                let c = old_sessions[i].duplicate();
                proof {
                    lemma_session_views_push(kept@, c);
                }
                kept.push(c);
            }
            proof {
                assert(session_views(kept@) =~= sub.filter(is_active(now)));
            }
            i = i + 1;
        }
        assert(s0.subrange(0, old_sessions@.len() as int) =~= s0);
        self.sessions = kept;
        proof {
            let after = self.sessions_spec();
            assert(after == s0.filter(is_active(now)));
            Self::lemma_filter_unique(s0, now);
        }
    }

    proof fn lemma_filter_unique(s: Seq<SessionView>, now: u64)
        requires
            session_ids_unique(s),
        ensures
            session_ids_unique(s.filter(is_active(now))),
        decreases s.len(),
    {
        let p = is_active(now);
        if s.len() > 0 {
            let t = s.drop_last();
            assert(session_ids_unique(t)) by {
                assert forall|i: int, j: int| 0 <= i < t.len() && 0 <= j < t.len() && t[i].session_id == t[j].session_id implies i == j by {
                    assert(s[i] == t[i] && s[j] == t[j]);
                }
            }
            Self::lemma_filter_unique(t, now);
            t.lemma_filter_push(s.last(), p);
            assert(s =~= t.push(s.last()));
            let ft = t.filter(p);
            if p(s.last()) {
                let fs = ft.push(s.last());
                assert forall|i: int, j: int| 0 <= i < fs.len() && 0 <= j < fs.len() && fs[i].session_id == fs[j].session_id implies i == j by {
                    if i < ft.len() && j == ft.len() {
                        assert(t.contains(ft[i])) by {
                            assert(ft.contains(ft[i]));
                            t.lemma_filter_contains_rev(p, ft[i]);
                        }
                        let w = choose|w: int| 0 <= w < t.len() && t[w] == ft[i];
                        assert(s[w].session_id == s[s.len() - 1].session_id);
                    } else if j < ft.len() && i == ft.len() {
                        assert(t.contains(ft[j])) by {
                            assert(ft.contains(ft[j]));
                            t.lemma_filter_contains_rev(p, ft[j]);
                        }
                        let w = choose|w: int| 0 <= w < t.len() && t[w] == ft[j];
                        assert(s[w].session_id == s[s.len() - 1].session_id);
                    }
                }
            }
        }
    }

    /// Drop the sessions that have expired now.
    pub fn cleanup_expired_sessions(&mut self)
        requires
            old(self).wf(),
        ensures
            final(self).wf(),
            exists|now: u64| final(self).sessions_spec() == #[trigger] active_sessions(old(self).sessions_spec(), now),
            final(self).users_spec() == old(self).users_spec(),
    {
        let now = current_timestamp();
        self.cleanup_expired_sessions_at(now)
    }
}


/// Permissions are nested: an administrator may write, a writer may read,
/// and every role may read.
pub proof fn law_role_permissions_nested(r: Role)
    ensures
        role_is_admin(r) ==> role_can_write(r),
        role_can_write(r) ==> role_can_read(r),
        role_can_read(r),
{
}

/// A live session validates: until its expiry, validating an open session
/// gives it back and keeps every session.
pub proof fn law_live_session_validates(sessions: Seq<SessionView>, id: Seq<char>, now: u64)
    requires
        has_session(sessions, id),
        now <= sessions[session_index(sessions, id)].expires_at,
    ensures
        validation_outcome(sessions, id, now) == Ok::<SessionView, Seq<char>>(sessions[session_index(sessions, id)]),
        sessions_after_validation(sessions, id, now) == sessions,
{
}

proof fn lemma_removed_session_gone(sessions: Seq<SessionView>, id: Seq<char>)
    requires
        session_ids_unique(sessions),
        has_session(sessions, id),
    ensures
        !has_session(sessions.remove(session_index(sessions, id)), id),
{
    let k = session_index(sessions, id);
    let r = sessions.remove(k);
    if has_session(r, id) {
        let j = choose|j: int| 0 <= j < r.len() && r[j].session_id == id;
        if j < k {
            assert(r[j] == sessions[j]);
        } else {
            assert(r[j] == sessions[j + 1]);
        }
    }
}

/// An expired session is refused once as expired and is then gone: any
/// later validation finds no such session.
pub proof fn law_expired_session_dropped(sessions: Seq<SessionView>, id: Seq<char>, now: u64, later: u64)
    requires
        session_ids_unique(sessions),
        has_session(sessions, id),
        now > sessions[session_index(sessions, id)].expires_at,
    ensures
        validation_outcome(sessions, id, now) == Err::<SessionView, Seq<char>>("Session expired"@),
        validation_outcome(sessions_after_validation(sessions, id, now), id, later)
            == Err::<SessionView, Seq<char>>("Invalid session"@),
{
    lemma_removed_session_gone(sessions, id);
}

/// Logging out ends a session: after the session is removed, validating its
/// id at any time is refused as an invalid session.
pub proof fn law_logout_invalidates(sessions: Seq<SessionView>, id: Seq<char>, now: u64)
    requires
        session_ids_unique(sessions),
        has_session(sessions, id),
    ensures
        validation_outcome(sessions.remove(session_index(sessions, id)), id, now)
            == Err::<SessionView, Seq<char>>("Invalid session"@),
{
    lemma_removed_session_gone(sessions, id);
}

/// Dropping expired sessions a second time at the same second changes
/// nothing: the sessions left are all still active.
pub proof fn law_cleanup_is_idempotent(sessions: Seq<SessionView>, now: u64)
    ensures
        active_sessions(active_sessions(sessions, now), now) == active_sessions(sessions, now),
{
    let f = active_sessions(sessions, now);
    sessions.filter_lemma(is_active(now));
    lemma_filter_keeps_all(f, is_active(now));
}

/// Filtering a sequence by a predicate that holds of all its items keeps
/// the sequence.
proof fn lemma_filter_keeps_all(s: Seq<SessionView>, p: spec_fn(SessionView) -> bool)
    requires
        forall|i: int| 0 <= i < s.len() ==> p(#[trigger] s[i]),
    ensures
        s.filter(p) == s,
    decreases s.len(),
{
    reveal_with_fuel(Seq::<SessionView>::filter, 1);
    if s.len() > 0 {
        let t = s.drop_last();
        assert forall|i: int| 0 <= i < t.len() implies p(#[trigger] t[i]) by {
            assert(t[i] == s[i]);
        }
        lemma_filter_keeps_all(t, p);
        assert(s.last() == s[s.len() - 1]);
        assert(t.push(s.last()) =~= s);
    } else {
        assert(s =~= Seq::<SessionView>::empty());
    }
}

} // verus!
