use vstd::prelude::*;
use vstd::string::StringSliceAdditionalSpecFns;
use argon2::password_hash::rand_core::OsRng;
use argon2::password_hash::{PasswordHash, PasswordHasher, PasswordVerifier, SaltString};
use argon2::Argon2;
use crate::text::{push_str, string_or_empty, text_or_empty};

verus! {

/// Whether `password_hash::PasswordHash::new` accepts a stored hash text
/// (a PHC string).
pub uninterp spec fn phc_parses(stored: Seq<char>) -> bool;

/// Whether `Argon2::default().verify_password` accepts a password against a
/// stored hash text that parses.
pub uninterp spec fn argon2_accepts(password: Seq<char>, stored: Seq<char>) -> bool;

/// The text that a parsed stored hash writes out (its `Display`).
pub uninterp spec fn phc_text(stored: Seq<char>) -> Seq<char>;

/// Parses a stored hash (`PasswordHash::new`), checks a password against it
/// (`Argon2::default().verify_password`) and writes the parsed hash back out
/// (`to_string`). `None` exactly where the stored text does not parse. The
/// contract names the verdict and the written text; Argon2 itself is not
/// restated.
#[verifier::external_body]
fn check_stored_password(password: &str, stored: &str) -> (r: Option<(bool, String)>)
    ensures
        r is Some <==> phc_parses(stored@),
        r matches Some((ok, text)) ==> ok == argon2_accepts(password@, stored@) && text@ == phc_text(stored@),
{
    match PasswordHash::new(stored) {
        Ok(hash) => {
            let ok = Argon2::default().verify_password(password.as_bytes(), &hash).is_ok();
            Some((ok, hash.to_string()))
        },
        Err(_) => None,
    }
}

/// Hashes a new password with Argon2's default parameters and a fresh
/// random salt (`SaltString::generate(&mut OsRng)`, then
/// `Argon2::default().hash_password`, then `to_string`). `None` where
/// hashing fails. The salt is random, so the text itself is not named; the
/// crate's documented use is stated: the text parses and the password is
/// accepted against it. With the default parameters and a generated salt,
/// the one check in `hash_password` that depends on the input is
/// `pwd.len() > MAX_PWD_LEN` (`0xFFFFFFFF` bytes), so hashing succeeds for
/// every shorter password. (`OsRng` panics only where the system's random
/// source fails, which no input decides.)
#[verifier::external_body]
fn argon2_hash_new(password: &str) -> (r: Option<String>)
    ensures
        password.spec_bytes().len() <= 0xFFFF_FFFF ==> r is Some,
        r matches Some(s) ==> phc_parses(s@) && argon2_accepts(password@, s@),
{
    let salt = SaltString::generate(&mut OsRng);
    match Argon2::default().hash_password(password.as_bytes(), &salt) {
        Ok(hash) => Some(hash.to_string()),
        Err(_) => None,
    }
}

/// The stored credentials of one row of the authors table, each `None`
/// where the column could not be read as its type.
pub struct Credential {
    pub stored_hash: Option<String>,
    pub perm_level: Option<i16>,
}

/// The stored hash text of a row (empty where missing).
pub open spec fn stored_text(c: Credential) -> Seq<char> {
    text_or_empty(c.stored_hash)
}

/// The permission level of a row (zero where missing).
pub open spec fn level_of(c: Credential) -> i16 {
    c.perm_level.unwrap_or(0)
}

/// The level that may edit the site.
pub const EDITOR_LEVEL: i16 = 5;

/// Whether the cookies let their holder edit: both the email and the token
/// cookie are present, and one of the rows stored for that email holds the
/// token as its hash text and has the editor level.
pub open spec fn may_edit(email: Option<String>, token: Option<String>, rows: Seq<Credential>) -> bool {
    &&& email is Some
    &&& token is Some
    &&& exists|k: int|
        0 <= k < rows.len() && stored_text(#[trigger] rows[k]) == token->0@ && level_of(rows[k])
            == EDITOR_LEVEL
}

/// Whether the holder of the given cookies may edit the site; `rows` are the
/// rows stored for the email cookie.
pub fn can_user_edit(email: &Option<String>, token: &Option<String>, rows: &Vec<Credential>) -> (r: bool)
    ensures
        r == may_edit(*email, *token, rows@),
{
    if email.is_none() {
        return false;
    }
    let t = match token {
        Some(t) => t,
        None => {
            return false;
        },
    };
    for k in 0..rows.len()
        invariant
            email is Some,
            *token == Some(*t),
            forall|m: int|
                0 <= m < k ==> !(stored_text(#[trigger] rows@[m]) == t@ && level_of(rows@[m]) == EDITOR_LEVEL),
    {
        let stored = string_or_empty(&rows[k].stored_hash);
        if stored == *t && rows[k].perm_level.unwrap_or(0) == EDITOR_LEVEL {
            return true;
        }
    }
    false
}

/// How a sign-in attempt ends.
pub enum LoginOutcome {
    /// The password is right and the member may edit; `token` is the text
    /// kept in the token cookie.
    Granted { token: String },
    /// The password is right but the member may not edit.
    Verified,
    /// No row accepts the password.
    Denied,
    /// A row's stored hash, reached before any row accepted the password,
    /// does not parse.
    UnreadableHash,
}

/// How a sign-in with `password` against the rows ends: rows are tried in
/// order; the first row whose hash does not parse, or that accepts the
/// password, decides.
pub open spec fn login_result(out: LoginOutcome, password: Seq<char>, rows: Seq<Credential>) -> bool
    decreases rows.len(),
{
    if rows.len() == 0 {
        out is Denied
    } else {
        let h = stored_text(rows[0]);
        if !phc_parses(h) {
            out is UnreadableHash
        } else if argon2_accepts(password, h) {
            if level_of(rows[0]) == EDITOR_LEVEL {
                out matches LoginOutcome::Granted { token } && token@ == phc_text(h)
            } else {
                out is Verified
            }
        } else {
            login_result(out, password, rows.drop_first())
        }
    }
}

proof fn lemma_login_skip(out: LoginOutcome, password: Seq<char>, rows: Seq<Credential>, i: int)
    requires
        0 <= i <= rows.len(),
        forall|m: int|
            0 <= m < i ==> phc_parses(stored_text(#[trigger] rows[m])) && !argon2_accepts(
                password,
                stored_text(rows[m]),
            ),
    ensures
        login_result(out, password, rows) == login_result(out, password, rows.skip(i)),
    decreases i,
{
    if i > 0 {
        assert(phc_parses(stored_text(rows[0])));
        let rest = rows.drop_first();
        assert forall|m: int| 0 <= m < i - 1 implies phc_parses(stored_text(#[trigger] rest[m])) && !argon2_accepts(
            password,
            stored_text(rest[m]),
        ) by {
            assert(rest[m] == rows[m + 1]);
        }
        lemma_login_skip(out, password, rest, i - 1);
        assert(rest.skip(i - 1) =~= rows.skip(i));
    } else {
        assert(rows.skip(0) =~= rows);
    }
}

/// Signs in with `password` against the rows stored for an email.
pub fn check_login(password: &str, rows: &Vec<Credential>) -> (out: LoginOutcome)
    ensures
        login_result(out, password@, rows@),
{
    for k in 0..rows.len()
        invariant
            forall|m: int|
                0 <= m < k ==> phc_parses(stored_text(#[trigger] rows@[m])) && !argon2_accepts(
                    password@,
                    stored_text(rows@[m]),
                ),
    {
        let stored = string_or_empty(&rows[k].stored_hash);
        match check_stored_password(password, stored.as_str()) {
            None => {
                proof {
                    lemma_login_skip(LoginOutcome::UnreadableHash, password@, rows@, k as int);
                }
                return LoginOutcome::UnreadableHash;
            },
            Some((ok, text)) => {
                if ok {
                    let out = if rows[k].perm_level.unwrap_or(0) == EDITOR_LEVEL {
                        LoginOutcome::Granted { token: text }
                    } else {
                        LoginOutcome::Verified
                    };
                    proof {
                        lemma_login_skip(out, password@, rows@, k as int);
                    }
                    return out;
                }
            },
        }
    }
    proof {
        lemma_login_skip(LoginOutcome::Denied, password@, rows@, rows@.len() as int);
    }
    LoginOutcome::Denied
}

/// The stored hash text of a new account's password: present for every
/// password of at most `0xFFFFFFFF` bytes (`None` only beyond that). The
/// text parses and accepts the password.
pub fn new_account_hash(password: &str) -> (r: Option<String>)
    ensures
        password.spec_bytes().len() <= 0xFFFF_FFFF ==> r is Some,
        r matches Some(s) ==> phc_parses(s@) && argon2_accepts(password@, s@),
{
    argon2_hash_new(password)
}

/// The page that sends a signed-in editor on to `redirect`.
pub open spec fn redirect_page(redirect: Seq<char>) -> Seq<char> {
    "<meta http-equiv=\"refresh\" content=\"0; url=/"@ + redirect + " \" />"@
}

/// The page that sends a signed-in editor on to `redirect`.
pub fn login_redirect(redirect: &str) -> (page: String)
    ensures
        page@ == redirect_page(redirect@),
{
    let mut page = String::new();
    push_str(&mut page, "<meta http-equiv=\"refresh\" content=\"0; url=/");
    push_str(&mut page, redirect);
    push_str(&mut page, " \" />");
    page
}

/// A password set at sign-up is accepted at sign-in: against a single row
/// holding the hash text of the password, signing in with the same password
/// is granted (with the written-out hash as token) at the editor level and
/// verified otherwise.
pub proof fn lemma_signup_then_login(password: Seq<char>, row: Credential, out: LoginOutcome)
    requires
        phc_parses(stored_text(row)),
        argon2_accepts(password, stored_text(row)),
    ensures
        login_result(out, password, seq![row]) <==> (if level_of(row) == EDITOR_LEVEL {
            out matches LoginOutcome::Granted { token } && token@ == phc_text(stored_text(row))
        } else {
            out is Verified
        }),
{
}

} // verus!

verus! {

/// Signing in as an editor lets the new cookies edit: when a sign-in
/// against the rows stored for an email is granted, the email and the
/// granted token pass the edit check against the same rows, provided the
/// stored hash texts are in the form a parsed hash writes out.
pub proof fn lemma_granted_editor_may_edit(
    password: Seq<char>,
    rows: Seq<Credential>,
    email: String,
    token: String,
)
    requires
        login_result(LoginOutcome::Granted { token }, password, rows),
        forall|k: int| 0 <= k < rows.len() ==> phc_text(stored_text(#[trigger] rows[k])) == stored_text(rows[k]),
    ensures
        may_edit(Some(email), Some(token), rows),
    decreases rows.len(),
{
    let h = stored_text(rows[0]);
    if phc_parses(h) && argon2_accepts(password, h) {
        assert(stored_text(rows[0]) == token@);
    } else {
        let rest = rows.drop_first();
        assert forall|k: int| 0 <= k < rest.len() implies phc_text(stored_text(#[trigger] rest[k])) == stored_text(rest[k]) by {
            assert(rest[k] == rows[k + 1]);
        }
        lemma_granted_editor_may_edit(password, rest, email, token);
        let k = choose|k: int|
            0 <= k < rest.len() && stored_text(#[trigger] rest[k]) == token@ && level_of(rest[k]) == EDITOR_LEVEL;
        assert(rows[k + 1] == rest[k]);
    }
}

} // verus!
