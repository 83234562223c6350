//! Moderator accounts and their sessions.
//!
//! A password is kept only as a salted, stretched SHA-256 digest. A session is
//! known by a random token and ends when it has not been used for a while.
use vstd::prelude::*;
use vstd::utf8::encode_utf8;

use crate::hex::{encode_hex, hex_of};
use crate::table::Table;
use crate::text::{
    all_blank, is_space, lower_of, only_capitals_are_lowered, to_ascii_lowercase, trim,
    trim_of, trimmed_texts_stay, trimming_takes_the_blanks_off,
};

verus! {

/// How often a password is digested.
pub const PASSWORD_ITERATIONS: u32 = 60_000;

/// How long a session lives without being used.
pub const SESSION_MAX_AGE_SECS: u64 = 28_800;

/// The same in nanoseconds.
pub const SESSION_MAX_AGE_NANOS: u64 = 28_800_000_000_000;

// ---------------------------------------------------------------------------
// Passwords
// ---------------------------------------------------------------------------

/// The SHA-256 digest of the bytes.
pub uninterp spec fn sha256_of(bytes: Seq<u8>) -> Seq<u8>;

/// `sha2::Sha256::digest`: 32 bytes that are a function of the input. What
/// digest it is, is left to that function.
#[verifier::external_body]
fn sha256(bytes: &[u8]) -> (r: [u8; 32])
    ensures
        r@ == sha256_of(bytes@),
{
    <sha2::Sha256 as sha2::Digest>::digest(bytes).into()
}

/// The bytes digested `n` times.
pub open spec fn digested(bytes: Seq<u8>, n: nat) -> Seq<u8>
    decreases n,
{
    if n == 0 {
        bytes
    } else {
        sha256_of(digested(bytes, (n - 1) as nat))
    }
}

/// What is kept of a password: salt and password, digested again and again.
pub open spec fn password_hash(salt: Seq<u8>, password: Seq<char>) -> Seq<u8> {
    digested(salt + encode_utf8(password), PASSWORD_ITERATIONS as nat)
}

/// The salted, stretched digest of a password.
pub fn hash_password(salt: &[u8], password: &str) -> (r: [u8; 32])
    ensures
        r@ == password_hash(salt@, password@),
{
    let mut input: Vec<u8> = Vec::new();
    input.extend_from_slice(salt);
    input.extend_from_slice(password.as_bytes());
    let ghost start = salt@ + encode_utf8(password@);
    assert(input@ =~= start);
    let mut digest: [u8; 32] = sha256(input.as_slice());
    let mut i: u32 = 1;
    assert(digested(start, 1) == sha256_of(digested(start, 0)));
    while i < PASSWORD_ITERATIONS
        invariant
            1 <= i <= PASSWORD_ITERATIONS,
            digest@ == digested(start, i as nat),
        decreases PASSWORD_ITERATIONS - i,
    {
        digest = sha256(digest.as_slice());
        i += 1;
    }
    digest
}

/// Compares without stopping at the first difference.
pub fn ct_eq(a: &[u8], b: &[u8]) -> (r: bool)
    ensures
        r == (a@ == b@),
{
    if a.len() != b.len() {
        return false;
    }
    let mut diff: u8 = 0;
    let mut i: usize = 0;
    while i < a.len()
        invariant
            0 <= i <= a.len(),
            a.len() == b.len(),
            diff == 0 <==> (forall|j: int| 0 <= j < i ==> a@[j] == b@[j]),
        decreases a.len() - i,
    {
        let x: u8 = a[i];
        let y: u8 = b[i];
        let next: u8 = diff | (x ^ y);
        assert(next == 0 <==> diff == 0 && x == y) by (bit_vector)
            requires
                next == diff | (x ^ y),
        ;
        diff = next;
        i += 1;
    }
    proof {
        if diff == 0 {
            assert(a@ =~= b@);
        }
    }
    diff == 0
}

// ---------------------------------------------------------------------------
// Accounts
// ---------------------------------------------------------------------------

/// What a moderator may do; only an administrator manages accounts.
#[derive(Clone, Copy, PartialEq, Eq, Structural, Debug)]
pub enum ModRole {
    Admin,
    User,
}

impl ModRole {
    /// The name of the role.
    pub open spec fn name(self) -> Seq<char> {
        match self {
            ModRole::Admin => "admin"@,
            ModRole::User => "user"@,
        }
    }

    pub fn label(self) -> (r: &'static str)
        ensures
            r@ == self.name(),
    {
        match self {
            ModRole::Admin => "admin",
            ModRole::User => "user",
        }
    }

    /// The role with a name.
    pub fn parse(name: &str) -> (r: Option<ModRole>)
        ensures
            match r {
                Some(role) => role.name() == name@,
                None => name@ != ModRole::Admin.name() && name@ != ModRole::User.name(),
            },
    {
        if crate::text::same_text(name, "admin") {
            Some(ModRole::Admin)
        } else if crate::text::same_text(name, "user") {
            Some(ModRole::User)
        } else {
            None
        }
    }
}

/// The two roles have different names, so each is read back from its own.
pub proof fn roles_read_back(a: ModRole, b: ModRole)
    requires
        a.name() == b.name(),
    ensures
        a == b,
{
    reveal_strlit("admin");
    reveal_strlit("user");
    assert("admin"@.len() == 5 && "user"@.len() == 4);
}

/// What is stored of a moderator.
pub struct Account {
    pub salt: Vec<u8>,
    pub pass_hash: Vec<u8>,
    pub role: ModRole,
}

pub struct AccountView {
    pub salt: Seq<u8>,
    pub pass_hash: Seq<u8>,
    pub role: ModRole,
}

impl View for Account {
    type V = AccountView;

    open spec fn view(&self) -> AccountView {
        AccountView { salt: self.salt@, pass_hash: self.pass_hash@, role: self.role }
    }
}

/// The moderators by name.
pub struct Moderators {
    pub accounts: Table<String, Account>,
}

impl View for Moderators {
    type V = Map<Seq<char>, AccountView>;

    open spec fn view(&self) -> Map<Seq<char>, AccountView> {
        self.accounts@
    }
}

/// A name without space around it and in lower case.
pub open spec fn normalized(username: Seq<char>) -> Seq<char> {
    lower_of(trim_of(username))
}

pub fn normalize(username: &str) -> (r: String)
    ensures
        r@ == normalized(username@),
{
    to_ascii_lowercase(trim(username).as_str())
}

/// Why an account cannot be made, if it cannot.
pub open spec fn account_refusal(username: Seq<char>, password: Seq<char>) -> Option<Seq<char>> {
    if normalized(username).len() == 0 {
        Some("el nombre de moderador no puede estar vacío"@)
    } else if password.len() == 0 {
        Some("la contraseña no puede estar vacía"@)
    } else {
        None
    }
}

/// The role of the moderator with this name and password.
pub open spec fn verified_role(
    m: Map<Seq<char>, AccountView>,
    username: Seq<char>,
    password: Seq<char>,
) -> Option<ModRole> {
    let user = normalized(username);
    if m.contains_key(user) && password_hash(m[user].salt, password) == m[user].pass_hash {
        Some(m[user].role)
    } else {
        None
    }
}

/// `rand::Rng::fill` of the thread's generator: 16 bytes of which nothing is
/// known.
#[verifier::external_body]
fn random_salt() -> (r: [u8; 16])
{
    let mut salt = [0u8; 16];
    rand::Rng::fill(&mut rand::rng(), &mut salt);
    salt
}

/// `rand::Rng::random` of the thread's generator: 32 bytes of which nothing is
/// known.
#[verifier::external_body]
fn random_token() -> (r: [u8; 32])
{
    rand::Rng::random(&mut rand::rng())
}

impl Moderators {
    pub open spec fn wf(&self) -> bool {
        self.accounts.wf()
    }

    pub fn new() -> (r: Moderators)
        ensures
            r.wf(),
            r@ == Map::<Seq<char>, AccountView>::empty(),
    {
        Moderators { accounts: Table::new() }
    }

    /// Makes an account, or gives it a new password, with this salt.
    pub fn set_moderator_salted(
        &mut self,
        username: &str,
        password: &str,
        role: ModRole,
        salt: &[u8],
    ) -> (r: Result<(), String>)
        requires
            old(self).wf(),
        ensures
            final(self).wf(),
            match r {
                Ok(_) => {
                    &&& account_refusal(username@, password@) is None
                    &&& final(self)@ == old(self)@.insert(
                        normalized(username@),
                        AccountView {
                            salt: salt@,
                            pass_hash: password_hash(salt@, password@),
                            role,
                        },
                    )
                },
                Err(e) => {
                    &&& account_refusal(username@, password@) == Some(e@)
                    &&& final(self)@ == old(self)@
                },
            },
    {
        let user = normalize(username);
        if user.as_str().is_empty() {
            return Err("el nombre de moderador no puede estar vacío".to_owned());
        }
        if password.is_empty() {
            return Err("la contraseña no puede estar vacía".to_owned());
        }
        let hash = hash_password(salt, password);
        let mut kept_salt: Vec<u8> = Vec::new();
        kept_salt.extend_from_slice(salt);
        let mut kept_hash: Vec<u8> = Vec::new();
        kept_hash.extend_from_slice(hash.as_slice());
        assert(kept_salt@ =~= salt@);
        assert(kept_hash@ =~= hash@);
        self.accounts.insert(user, Account { salt: kept_salt, pass_hash: kept_hash, role });
        Ok(())
    }

    /// Makes an account, or gives it a new password, with a fresh salt.
    pub fn set_moderator(&mut self, username: &str, password: &str, role: ModRole) -> (r: Result<
        (),
        String,
    >)
        requires
            old(self).wf(),
        ensures
            final(self).wf(),
            match r {
                Ok(_) => {
                    &&& account_refusal(username@, password@) is None
                    &&& exists|salt: Seq<u8>|
                        salt.len() == 16 && final(self)@ == old(self)@.insert(
                            normalized(username@),
                            AccountView {
                                salt,
                                pass_hash: #[trigger] password_hash(salt, password@),
                                role,
                            },
                        )
                },
                Err(e) => {
                    &&& account_refusal(username@, password@) == Some(e@)
                    &&& final(self)@ == old(self)@
                },
            },
    {
        let salt = random_salt();
        let r = self.set_moderator_salted(username, password, role, salt.as_slice());
        assert(salt@.len() == 16);
        r
    }

    /// Removes an account; tells whether there was one.
    pub fn remove_moderator(&mut self, username: &str) -> (r: bool)
        requires
            old(self).wf(),
        ensures
            final(self).wf(),
            final(self)@ == old(self)@.remove(normalized(username@)),
            r == old(self)@.contains_key(normalized(username@)),
    {
        let user = normalize(username);
        self.accounts.remove(&user)
    }

    /// The role of the moderator with this name and password.
    pub fn check(&self, username: &str, password: &str) -> (r: Option<ModRole>)
        requires
            self.wf(),
        ensures
            r == verified_role(self@, username@, password@),
    {
        let user = normalize(username);
        match self.accounts.get(&user) {
            Some(account) => {
                let computed = hash_password(account.salt.as_slice(), password);
                if ct_eq(computed.as_slice(), account.pass_hash.as_slice()) {
                    Some(account.role)
                } else {
                    None
                }
            },
            None => None,
        }
    }

    /// Whether a moderator has this name and password.
    pub fn verify_moderator(&self, username: &str, password: &str) -> (r: bool)
        requires
            self.wf(),
        ensures
            r == (verified_role(self@, username@, password@) is Some),
    {
        self.check(username, password).is_some()
    }

    /// How many moderators there are.
    pub fn moderator_count(&self) -> (r: usize)
        requires
            self.wf(),
        ensures
            r == self@.len(),
    {
        self.accounts.len()
    }
}

/// The line without the line ends behind it.
pub open spec fn without_line_ends(s: Seq<char>) -> Seq<char>
    decreases s.len(),
{
    if s.len() > 0 && (s.last() == '\r' || s.last() == '\n') {
        without_line_ends(s.drop_last())
    } else {
        s
    }
}

/// The password on an input line; an empty one is refused.
pub fn password_of_line(line: &str) -> (r: Result<String, String>)
    ensures
        match r {
            Ok(p) => p@ == without_line_ends(line@) && p@.len() > 0,
            Err(e) => without_line_ends(line@).len() == 0 && e@
                == "la contraseña no puede estar vacía"@,
        },
{
    let mut v = crate::text::chars_of(line);
    while v.len() > 0 && (v[v.len() - 1] == '\r' || v[v.len() - 1] == '\n')
        invariant
            without_line_ends(v@) == without_line_ends(line@),
        decreases v.len(),
    {
        let ghost before = v@;
        v.pop();
        assert(v@ =~= before.drop_last());
    }
    if v.len() == 0 {
        return Err("la contraseña no puede estar vacía".to_owned());
    }
    Ok(crate::text::text_of(&v))
}

// ---------------------------------------------------------------------------
// Sessions
// ---------------------------------------------------------------------------

/// Who is logged in, in what role, and when the session was last used.
pub struct Session {
    pub user: String,
    pub role: ModRole,
    pub used_at: u64,
}

pub struct SessionView {
    pub user: Seq<char>,
    pub role: ModRole,
    pub used_at: u64,
}

impl View for Session {
    type V = SessionView;

    open spec fn view(&self) -> SessionView {
        SessionView { user: self.user@, role: self.role, used_at: self.used_at }
    }
}

/// The sessions by token. They live in memory only: a restart ends them all.
/// Times are nanoseconds of a clock that does not run backwards.
pub struct Auth {
    pub sessions: Table<String, Session>,
}

impl View for Auth {
    type V = Map<Seq<char>, SessionView>;

    open spec fn view(&self) -> Map<Seq<char>, SessionView> {
        self.sessions@
    }
}

/// A moderator with a live session.
pub struct Moderator {
    pub username: String,
    pub role: ModRole,
}

/// Whether a session has not been used for too long.
pub open spec fn expired(used_at: u64, now: u64) -> bool {
    now - used_at > SESSION_MAX_AGE_NANOS
}

/// Who a token belongs to.
pub open spec fn who_of(
    a: Map<Seq<char>, SessionView>,
    token: Option<Seq<char>>,
    now: u64,
) -> Option<(Seq<char>, ModRole)> {
    match token {
        Some(t) => if a.contains_key(t) && !expired(a[t].used_at, now) {
            Some((a[t].user, a[t].role))
        } else {
            None
        },
        None => None,
    }
}

/// The sessions after a token was looked up: a live one is used now, a dead
/// one is gone.
pub open spec fn looked_up(
    a: Map<Seq<char>, SessionView>,
    token: Option<Seq<char>>,
    now: u64,
) -> Map<Seq<char>, SessionView> {
    match token {
        Some(t) => if a.contains_key(t) {
            if expired(a[t].used_at, now) {
                a.remove(t)
            } else {
                a.insert(t, SessionView { used_at: now, ..a[t] })
            }
        } else {
            a
        },
        None => a,
    }
}

/// The sessions without a token.
pub open spec fn logged_out(
    a: Map<Seq<char>, SessionView>,
    token: Option<Seq<char>>,
) -> Map<Seq<char>, SessionView> {
    match token {
        Some(t) => a.remove(t),
        None => a,
    }
}

/// The role in which a login is granted: name and password must be given, and
/// right.
pub open spec fn login_role(
    m: Map<Seq<char>, AccountView>,
    username: Seq<char>,
    password: Seq<char>,
) -> Option<ModRole> {
    if normalized(username).len() == 0 || password.len() == 0 {
        None
    } else {
        verified_role(m, normalized(username), password)
    }
}

impl Auth {
    pub open spec fn wf(&self) -> bool {
        self.sessions.wf()
    }

    /// No sessions.
    pub fn new() -> (r: Auth)
        ensures
            r.wf(),
            r@ == Map::<Seq<char>, SessionView>::empty(),
    {
        Auth { sessions: Table::new() }
    }

    /// Checks name and password and, if they are right, opens a session under
    /// this token.
    pub fn login_as(
        &mut self,
        moderators: &Moderators,
        username: &str,
        password: &str,
        token: String,
        now: u64,
    ) -> (r: Option<String>)
        requires
            old(self).wf(),
            moderators.wf(),
        ensures
            final(self).wf(),
            match (r, login_role(moderators@, username@, password@)) {
                (Some(t), Some(role)) => {
                    &&& t@ == token@
                    &&& final(self)@ == old(self)@.insert(
                        token@,
                        SessionView { user: normalized(username@), role, used_at: now },
                    )
                },
                (None, None) => final(self)@ == old(self)@,
                _ => false,
            },
    {
        let user = normalize(username);
        if user.as_str().is_empty() || password.is_empty() {
            return None;
        }
        match moderators.check(user.as_str(), password) {
            Some(role) => {
                self.sessions.insert(token.clone(), Session { user, role, used_at: now });
                Some(token)
            },
            None => None,
        }
    }

    /// Checks name and password and, if they are right, opens a session under
    /// a fresh random token, which is returned.
    pub fn login(
        &mut self,
        moderators: &Moderators,
        username: &str,
        password: &str,
        now: u64,
    ) -> (r: Option<String>)
        requires
            old(self).wf(),
            moderators.wf(),
        ensures
            final(self).wf(),
            match (r, login_role(moderators@, username@, password@)) {
                (Some(t), Some(role)) => {
                    &&& is_token(t@)
                    &&& final(self)@ == old(self)@.insert(
                        t@,
                        SessionView { user: normalized(username@), role, used_at: now },
                    )
                },
                (None, None) => final(self)@ == old(self)@,
                _ => false,
            },
    {
        let token = session_token();
        self.login_as(moderators, username, password, token, now)
    }

    /// The moderator whose session has this token; using it keeps it alive.
    pub fn who(&mut self, token: Option<&String>, now: u64) -> (r: Option<Moderator>)
        requires
            old(self).wf(),
        ensures
            final(self).wf(),
            final(self)@ == looked_up(old(self)@, opt_token(token), now),
            match r {
                Some(m) => who_of(old(self)@, opt_token(token), now) == Some((m.username@, m.role)),
                None => who_of(old(self)@, opt_token(token), now) is None,
            },
    {
        match token {
            None => None,
            Some(t) => {
                let found: Option<(Moderator, bool)> = match self.sessions.get(t) {
                    Some(s) => {
                        let old_age = now > s.used_at && now - s.used_at > SESSION_MAX_AGE_NANOS;
                        Some((Moderator { username: s.user.clone(), role: s.role }, old_age))
                    },
                    None => None,
                };
                match found {
                    None => None,
                    Some((_, true)) => {
                        self.sessions.remove(t);
                        None
                    },
                    Some((m, false)) => {
                        self.sessions.insert(
                            t.clone(),
                            Session { user: m.username.clone(), role: m.role, used_at: now },
                        );
                        Some(m)
                    },
                }
            },
        }
    }

    /// Ends the session with this token.
    pub fn logout(&mut self, token: Option<&String>)
        requires
            old(self).wf(),
        ensures
            final(self).wf(),
            final(self)@ == logged_out(old(self)@, opt_token(token)),
    {
        match token {
            Some(t) => {
                self.sessions.remove(t);
            },
            None => {},
        }
    }
}

pub open spec fn opt_token(token: Option<&String>) -> Option<Seq<char>> {
    match token {
        Some(t) => Some(t@),
        None => None,
    }
}

/// Whether a text is a session token: 32 bytes in hexadecimal.
pub open spec fn is_token(t: Seq<char>) -> bool {
    exists|bytes: Seq<u8>| bytes.len() == 32 && t == #[trigger] hex_of(bytes)
}

/// A fresh session token.
pub fn session_token() -> (r: String)
    ensures
        is_token(r@),
{
    let bytes = random_token();
    let r = encode_hex(bytes.as_slice());
    assert(bytes@.len() == 32);
    r
}

// ---------------------------------------------------------------------------
// Laws
// ---------------------------------------------------------------------------

/// Names differ neither by case nor by space around them, and a new password
/// replaces the old one: afterwards it is the only one that is right, as far
/// as digests tell passwords apart.
pub proof fn new_password_replaces_old(
    m: Map<Seq<char>, AccountView>,
    username: Seq<char>,
    other_spelling: Seq<char>,
    password: Seq<char>,
    tried: Seq<char>,
    salt: Seq<u8>,
    role: ModRole,
)
    requires
        normalized(other_spelling) == normalized(username),
    ensures
        ({
            let m2 = m.insert(
                normalized(username),
                AccountView { salt, pass_hash: password_hash(salt, password), role },
            );
            &&& verified_role(m2, other_spelling, password) == Some(role)
            &&& password_hash(salt, tried) != password_hash(salt, password) ==> verified_role(
                m2,
                other_spelling,
                tried,
            ) is None
        }),
{
}

/// Nobody logs in to an account that was removed.
pub proof fn removed_accounts_are_shut(
    m: Map<Seq<char>, AccountView>,
    username: Seq<char>,
    password: Seq<char>,
)
    ensures
        verified_role(m.remove(normalized(username)), username, password) is None,
{
}

/// A session lives on as long as it is used in time, carries its role, and
/// ends for good once it has not been.
pub proof fn sessions_slide(a: Map<Seq<char>, SessionView>, t: Seq<char>, now: u64, later: u64)
    requires
        a.contains_key(t),
        now <= later,
    ensures
        ({
            let b = looked_up(a, Some(t), now);
            &&& !expired(a[t].used_at, now) ==> {
                &&& b.contains_key(t)
                &&& b[t].used_at == now
                &&& b[t].role == a[t].role
                &&& later - now <= SESSION_MAX_AGE_NANOS ==> who_of(b, Some(t), later) == Some(
                    (a[t].user, a[t].role),
                )
                &&& later - now > SESSION_MAX_AGE_NANOS ==> who_of(b, Some(t), later) is None
            }
            &&& expired(a[t].used_at, now) ==> who_of(b, Some(t), later) is None
        }),
{
}

/// After logging out the token is worth nothing, and other sessions go on.
pub proof fn logging_out_ends_one_session(
    a: Map<Seq<char>, SessionView>,
    t: Seq<char>,
    other: Seq<char>,
    now: u64,
)
    requires
        other != t,
    ensures
        who_of(logged_out(a, Some(t)), Some(t), now) is None,
        who_of(logged_out(a, Some(t)), Some(other), now) == who_of(a, Some(other), now),
{
}

/// A password is hashed by sixty thousand rounds of the digest, beginning with
/// the salt and the bytes of the password behind it. Rounds add up.
pub proof fn passwords_are_digested_often(
    salt: Seq<u8>,
    password: Seq<char>,
    bytes: Seq<u8>,
    n: nat,
    m: nat,
)
    ensures
        digested(bytes, 0) == bytes,
        digested(bytes, 1) == sha256_of(bytes),
        digested(digested(bytes, n), m) == digested(bytes, n + m),
        password_hash(salt, password) == digested(salt + encode_utf8(password), 60_000),
    decreases m,
{
    reveal_with_fuel(digested, 2);
    if m > 0 {
        passwords_are_digested_often(salt, password, bytes, n, (m - 1) as nat);
    }
}

/// A name is taken without the white space around it and in lower case: blanks
/// at its ends and capitals make no other moderator.
pub proof fn spellings_name_the_same_moderator(
    before: Seq<char>,
    name: Seq<char>,
    after: Seq<char>,
    i: int,
)
    requires
        all_blank(before),
        all_blank(after),
        0 <= i < name.len(),
        !is_space(name[0]) && !is_space(name.last()),
    ensures
        normalized(before + name + after).len() == name.len(),
        'A' <= name[i] <= 'Z' ==> normalized(before + name + after)[i] as u32 == name[i] as u32
            + 32,
        !('A' <= name[i] <= 'Z') ==> normalized(before + name + after)[i] == name[i],
{
    trimming_takes_the_blanks_off(before, name, after);
    only_capitals_are_lowered(name, i);
}

/// Bringing a name to its form twice is doing it once.
pub proof fn normal_names_stay(username: Seq<char>)
    ensures
        normalized(normalized(username)) == normalized(username),
{
    let t = trim_of(username);
    let n = normalized(username);
    trimmed_texts_stay(username);
    if t.len() > 0 {
        only_capitals_are_lowered(t, 0);
        only_capitals_are_lowered(t, t.len() - 1);
        let none = Seq::<char>::empty();
        assert(n.last() == n[t.len() - 1]);
        trimming_takes_the_blanks_off(none, n, none);
        assert(none + n + none =~= n);
    } else {
        assert(n =~= t);
    }
}

/// An account is refused for want of a name or of a password, and for nothing
/// else; a name that is all white space is none.
pub proof fn accounts_need_name_and_password(username: Seq<char>, password: Seq<char>)
    ensures
        account_refusal(username, password) is None <==> trim_of(username).len() > 0
            && password.len() > 0,
        all_blank(username) ==> account_refusal(username, password) == Some(
            "el nombre de moderador no puede estar vacío"@,
        ),
        trim_of(username).len() > 0 && password.len() == 0 ==> account_refusal(username, password)
            == Some("la contraseña no puede estar vacía"@),
{
    if all_blank(username) {
        let none = Seq::<char>::empty();
        assert(username + none + none =~= username);
        trimming_takes_the_blanks_off(username, none, none);
    }
}

/// Somebody logs in to the account of their name, with its role, if the digest
/// of their password under its salt is the one that was kept; nobody else does.
pub proof fn logging_in_needs_the_password(
    m: Map<Seq<char>, AccountView>,
    username: Seq<char>,
    password: Seq<char>,
    role: ModRole,
)
    requires
        trim_of(username).len() > 0,
        password.len() > 0,
    ensures
        ({
            let user = normalized(username);
            let right = m.contains_key(user) && digested(
                m[user].salt + encode_utf8(password),
                60_000,
            ) == m[user].pass_hash;
            &&& login_role(m, username, password) == Some(role) <==> right && m[user].role == role
            &&& login_role(m, username, password) is None <==> !right
            &&& verified_role(m, username, password) == login_role(m, username, password)
            &&& login_role(m, username, Seq::empty()) is None
            &&& login_role(m, Seq::empty(), password) is None
        }),
{
    normal_names_stay(username);
    let none = Seq::<char>::empty();
    assert(none + none + none =~= none);
    trimming_takes_the_blanks_off(none, none, none);
    assert(normalized(none).len() == 0);
}

/// A session ends eight hours after it was last used, and not before.
pub proof fn sessions_last_eight_hours(
    a: Map<Seq<char>, SessionView>,
    t: Seq<char>,
    now: u64,
)
    ensures
        who_of(a, None, now) is None,
        !a.contains_key(t) ==> who_of(a, Some(t), now) is None,
        a.contains_key(t) ==> (who_of(a, Some(t), now) is Some <==> now - a[t].used_at
            <= 28_800_000_000_000),
        who_of(a, Some(t), now) matches Some(w) ==> w.0 == a[t].user && w.1 == a[t].role,
        SESSION_MAX_AGE_SECS * 1_000_000_000 == SESSION_MAX_AGE_NANOS,
{
}

/// Asking who somebody is touches their own session alone: it is used anew, or
/// gone if it was too old.
pub proof fn asking_touches_one_session(
    a: Map<Seq<char>, SessionView>,
    t: Seq<char>,
    other: Seq<char>,
    now: u64,
)
    requires
        other != t,
    ensures
        looked_up(a, None, now) == a,
        logged_out(a, None) == a,
        !a.contains_key(t) ==> looked_up(a, Some(t), now) == a,
        ({
            let b = looked_up(a, Some(t), now);
            let c = logged_out(a, Some(t));
            &&& b.contains_key(other) == a.contains_key(other)
            &&& c.contains_key(other) == a.contains_key(other)
            &&& a.contains_key(other) ==> b[other] == a[other] && c[other] == a[other]
            &&& b.contains_key(t) <==> a.contains_key(t) && now - a[t].used_at
                <= 28_800_000_000_000
            &&& b.contains_key(t) ==> b[t].user == a[t].user && b[t].role == a[t].role
                && b[t].used_at == now
            &&& !c.contains_key(t)
        }),
{
}

/// A password is taken off its line: line ends behind it are dropped, and
/// nothing else is.
pub proof fn line_ends_are_no_password(s: Seq<char>)
    ensures
        without_line_ends(s.push('\n')) == without_line_ends(s),
        without_line_ends(s.push('\r')) == without_line_ends(s),
        s.len() > 0 && s.last() != '\n' && s.last() != '\r' ==> without_line_ends(s) == s,
        without_line_ends(Seq::empty()).len() == 0,
{
    assert(s.push('\n').drop_last() =~= s);
    assert(s.push('\r').drop_last() =~= s);
}

/// The roles have the names by which they are written.
pub proof fn roles_have_names()
    ensures
        ModRole::Admin.name() == "admin"@,
        ModRole::User.name() == "user"@,
{
}

} // verus!
