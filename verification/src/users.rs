//! The rules of the user service that do not touch the database: password
//! checks, password hashing, nicknames and the duplicate-email rule.
use crate::models::{NewUser, UpdateUser, User, UserWithPassword};
use crate::text::{digit_char, digit_value, digits_value, is_digit, trim, trimmed};
use argon2::{Argon2, PasswordHash, PasswordHasher, PasswordVerifier};
use password_hash::rand_core::OsRng;
use password_hash::{Salt, SaltString};
use vstd::prelude::*;
use vstd::string::*;

verus! {

#[verifier::external_type_specification]
#[verifier::external_body]
pub struct ExPasswordHashError(password_hash::Error);

/// Why an operation of the user service failed.
#[derive(Debug)]
pub enum UserServiceError {
    Database(sqlx::Error),
    DuplicateEmail,
    InvalidCredentials,
    PasswordHash(String),
}

/// Whether `PasswordHash::new` accepts `hash` as a PHC string.
pub uninterp spec fn phc_parses(hash: Seq<char>) -> bool;

/// Whether Argon2 (default configuration) verifies `password` against the
/// PHC string `hash`.
pub uninterp spec fn argon2_accepts(password: Seq<char>, hash: Seq<char>) -> bool;

/// Calls `PasswordHash::new`. Claims that it fails exactly when `hash` is no
/// PHC string; the text of the error (its `Display`) is not stated.
#[verifier::external_body]
fn phc_parse_error(hash: &str) -> (r: Option<String>)
    ensures
        r is None <==> phc_parses(hash@),
{
    match PasswordHash::new(hash) {
        Ok(_) => None,
        Err(e) => Some(e.to_string()),
    }
}

/// Calls `Argon2::default().verify_password` on the parsed `hash`. Claims
/// that the answer is a function of the password and the hash.
#[verifier::external_body]
fn argon2_verify(password: &str, hash: &str) -> (r: bool)
    requires
        phc_parses(hash@),
    ensures
        r == argon2_accepts(password@, hash@),
{
    match PasswordHash::new(hash) {
        Ok(parsed) => Argon2::default().verify_password(password.as_bytes(), &parsed).is_ok(),
        Err(_) => false,
    }
}

/// A character of standard Base64.
pub open spec fn b64_char(c: char) -> bool {
    ('A' <= c && c <= 'Z') || ('a' <= c && c <= 'z') || ('0' <= c && c <= '9') || c == '+'
        || c == '/'
}

/// Sixteen bytes written in unpadded standard Base64: 22 characters, the
/// last of which carries two bits and zeros.
pub open spec fn b64_of_sixteen_bytes(s: Seq<char>) -> bool {
    &&& s.len() == 22
    &&& forall|i: int| 0 <= i < s.len() ==> b64_char(#[trigger] s[i])
    &&& (s[21] == 'A' || s[21] == 'Q' || s[21] == 'g' || s[21] == 'w')
}

/// The largest password, in UTF-8 bytes, that Argon2 takes.
pub open spec fn argon2_max_password_bytes() -> int {
    0xFFFF_FFFF
}

/// Calls `SaltString::generate` with the operating system's random source
/// and hands back its text. Claims only the form of the text: sixteen
/// random bytes in unpadded Base64, as `SaltString::encode_b64` writes them.
#[verifier::external_body]
fn random_salt() -> (r: String)
    ensures
        b64_of_sixteen_bytes(r@),
{
    SaltString::generate(&mut OsRng).as_str().to_string()
}

/// Calls `Argon2::default().hash_password` on the password's bytes and the
/// salt text (read by `Salt::from_b64`), and renders the PHC string. Claims
/// that a produced string parses and that Argon2 verifies the same password
/// against it, and that hashing succeeds for a password of at most
/// `MAX_PWD_LEN` bytes with a salt of sixteen bytes in Base64 (the only
/// failures of the default configuration are the password, salt and output
/// length checks).
#[verifier::external_body]
fn argon2_hash(password: &str, salt: &str) -> (r: Result<String, password_hash::Error>)
    ensures
        r matches Ok(h) ==> phc_parses(h@) && argon2_accepts(password@, h@),
        vstd::utf8::encode_utf8(password@).len() <= argon2_max_password_bytes()
            && b64_of_sixteen_bytes(salt@) ==> r is Ok,
{
    let salt = match Salt::from_b64(salt) {
        Ok(s) => s,
        Err(e) => return Err(e),
    };
    match Argon2::default().hash_password(password.as_bytes(), salt) {
        Ok(h) => Ok(h.to_string()),
        Err(e) => Err(e),
    }
}

/// The stored form of a new password: an Argon2 PHC string under a fresh
/// random salt, which verifies the password. Hashing succeeds for every
/// password that Argon2 takes (at most `MAX_PWD_LEN` bytes).
pub fn hash_password(password: &str) -> (r: Result<String, password_hash::Error>)
    ensures
        r matches Ok(h) ==> phc_parses(h@) && argon2_accepts(password@, h@),
        vstd::utf8::encode_utf8(password@).len() <= argon2_max_password_bytes() ==> r is Ok,
{
    let salt = random_salt();
    argon2_hash(password, salt.as_str())
}

/// What checking a password against a stored hash found.
#[derive(Debug)]
pub enum PasswordCheck {
    Match,
    Mismatch,
    Malformed(String),
}

/// What checking `password` against `hash` finds.
pub open spec fn password_check_holds(password: Seq<char>, hash: Seq<char>, c: PasswordCheck) -> bool {
    match c {
        PasswordCheck::Malformed(_) => !phc_parses(hash),
        PasswordCheck::Match => phc_parses(hash) && argon2_accepts(password, hash),
        PasswordCheck::Mismatch => phc_parses(hash) && !argon2_accepts(password, hash),
    }
}

/// Checks `password` against the stored `hash`.
pub fn check_password(password: &str, hash: &str) -> (r: PasswordCheck)
    ensures
        password_check_holds(password@, hash@, r),
        r is Malformed <==> !phc_parses(hash@),
        r is Match <==> (phc_parses(hash@) && argon2_accepts(password@, hash@)),
        r is Mismatch <==> (phc_parses(hash@) && !argon2_accepts(password@, hash@)),
{
    match phc_parse_error(hash) {
        Some(msg) => PasswordCheck::Malformed(msg),
        None => if argon2_verify(password, hash) {
            PasswordCheck::Match
        } else {
            PasswordCheck::Mismatch
        },
    }
}

/// The answer to a sign-in for a found account, given what the password
/// check found.
pub fn finish_authentication(record: UserWithPassword, check: PasswordCheck) -> (r: Result<
    User,
    UserServiceError,
>)
    ensures
        match check {
            PasswordCheck::Match => r == Ok::<User, UserServiceError>(record.user_view()),
            PasswordCheck::Mismatch => r matches Err(UserServiceError::InvalidCredentials),
            PasswordCheck::Malformed(m) => r matches Err(UserServiceError::PasswordHash(t))
                && t == m,
        },
{
    match check {
        PasswordCheck::Match => Ok(record.into_user()),
        PasswordCheck::Mismatch => Err(UserServiceError::InvalidCredentials),
        PasswordCheck::Malformed(m) => Err(UserServiceError::PasswordHash(m)),
    }
}

/// Whether signing in with `password` succeeds for the account `record`.
pub open spec fn signs_in(record: Option<UserWithPassword>, password: Seq<char>) -> bool {
    match record {
        Some(r) => phc_parses(r.password_hash@) && argon2_accepts(password, r.password_hash@),
        None => false,
    }
}

/// Signs in with `password` to the account `record` that the email found:
/// no account or a wrong password is `InvalidCredentials`, a stored hash
/// that does not parse is `PasswordHash`, otherwise the user.
pub fn authenticate_record(record: Option<UserWithPassword>, password: &str) -> (r: Result<
    User,
    UserServiceError,
>)
    ensures
        r is Ok <==> signs_in(record, password@),
        r matches Ok(u) ==> u == record->0.user_view(),
        r matches Err(UserServiceError::InvalidCredentials) <==> (record is None || (phc_parses(
            record->0.password_hash@,
        ) && !argon2_accepts(password@, record->0.password_hash@))),
        r matches Err(UserServiceError::PasswordHash(_)) <==> (record is Some && !phc_parses(
            record->0.password_hash@,
        )),
        !(r matches Err(UserServiceError::Database(_))),
        !(r matches Err(UserServiceError::DuplicateEmail)),
{
    match record {
        None => Err(UserServiceError::InvalidCredentials),
        Some(rec) => {
            let check = check_password(password, rec.password_hash.as_str());
            finish_authentication(rec, check)
        },
    }
}

/// A password stored by `hash_password` signs the account in with the same
/// password.
pub proof fn lemma_stored_hash_signs_in(record: UserWithPassword, password: Seq<char>)
    requires
        phc_parses(record.password_hash@),
        argon2_accepts(password, record.password_hash@),
    ensures
        signs_in(Some(record), password),
{
}

/// No account, or a password that Argon2 does not verify against the
/// stored hash, never signs in.
pub proof fn lemma_unverified_password_refused(record: Option<UserWithPassword>, password: Seq<char>)
    requires
        record is None || !argon2_accepts(password, record->0.password_hash@),
    ensures
        !signs_in(record, password),
{
}

/// Calls `SystemTime::now().duration_since(UNIX_EPOCH)` and takes the
/// nanoseconds within the second (zero if the clock is before the epoch).
/// Claims only the range of `Duration::subsec_nanos`.
#[verifier::external_body]
fn clock_subsec_nanos() -> (r: u32)
    ensures
        r < 1_000_000_000,
{
    std::time::SystemTime::now().duration_since(std::time::UNIX_EPOCH).unwrap_or_default().subsec_nanos()
}

/// Four decimal digits of `n` (below 10000), with leading zeros.
pub open spec fn padded4(n: int) -> Seq<char> {
    seq![
        digit_char(n / 1000),
        digit_char((n / 100) % 10),
        digit_char((n / 10) % 10),
        digit_char(n % 10),
    ]
}

/// `base`, `#` and four digits of `tag`.
pub open spec fn tagged(base: Seq<char>, tag: int) -> Seq<char> {
    base + seq!['#'] + padded4(tag)
}

fn digit_of(d: u32) -> (c: char)
    requires
        d < 10,
    ensures
        c == digit_char(d as int),
{
    let b: u8 = (d as u8) + 48;
    b as char
}

/// `base` followed by `#` and the last four decimal digits of `seed`.
pub fn nickname_with_tag(base: &str, seed: u32) -> (r: String)
    ensures
        r@ == tagged(base@, (seed % 10000) as int),
        r@.len() == base@.len() + 5,
        r@.take(base@.len() as int) == base@,
        r@[base@.len() as int] == '#',
        digits_value(r@.skip(base@.len() + 1int)) == seed % 10000,
{
    let t: u32 = seed % 10000;
    let mut s = String::from_str(base);
    s.push('#');
    s.push(digit_of(t / 1000));
    s.push(digit_of((t / 100) % 10));
    s.push(digit_of((t / 10) % 10));
    s.push(digit_of(t % 10));
    assert(s@ == tagged(base@, t as int));
    proof {
        lemma_tagged_shape(base@, t as int);
    }
    s
}

/// A tagged nickname is the base, `#` and four digits whose value is the
/// tag.
pub proof fn lemma_tagged_shape(base: Seq<char>, tag: int)
    requires
        0 <= tag < 10000,
    ensures
        tagged(base, tag).len() == base.len() + 5,
        tagged(base, tag).take(base.len() as int) == base,
        tagged(base, tag)[base.len() as int] == '#',
        forall|i: int| base.len() < i < base.len() + 5 ==> is_digit(#[trigger] tagged(base, tag)[i]),
        digits_value(tagged(base, tag).skip(base.len() + 1int)) == tag,
{
    let t = tagged(base, tag);
    let d = t.skip(base.len() + 1int);
    assert(d == padded4(tag));
    assert(t.take(base.len() as int) =~= base);
    assert(d.drop_last().drop_last().drop_last().drop_last() =~= Seq::<char>::empty());
    assert(d.drop_last().drop_last().drop_last() =~= seq![digit_char(tag / 1000)]);
    assert(d.drop_last().drop_last() =~= seq![digit_char(tag / 1000), digit_char((tag / 100) % 10)]);
    assert(d.drop_last() =~= seq![
        digit_char(tag / 1000),
        digit_char((tag / 100) % 10),
        digit_char((tag / 10) % 10),
    ]);
    assert(digit_value(digit_char(tag / 1000)) == tag / 1000);
    assert(digit_value(digit_char((tag / 100) % 10)) == (tag / 100) % 10);
    assert(digit_value(digit_char((tag / 10) % 10)) == (tag / 10) % 10);
    assert(digit_value(digit_char(tag % 10)) == tag % 10);
    assert(((tag / 1000) * 10 + (tag / 100) % 10) == tag / 100);
    assert(((tag / 100) * 10 + (tag / 10) % 10) == tag / 10);
    assert((tag / 10) * 10 + tag % 10 == tag);
    let d1 = d.drop_last();
    let d2 = d1.drop_last();
    let d3 = d2.drop_last();
    assert(d.last() == digit_char(tag % 10));
    assert(d1.last() == digit_char((tag / 10) % 10));
    assert(d2.last() == digit_char((tag / 100) % 10));
    assert(d3.last() == digit_char(tag / 1000));
    assert(digits_value(d3.drop_last()) == 0);
    assert(digits_value(d3) == tag / 1000);
    assert(digits_value(d2) == tag / 100);
    assert(digits_value(d1) == tag / 10);
    assert(digits_value(d) == tag);
}

/// `base` with a `#` and a four-digit tag taken from the clock.
pub fn generate_nickname(base: &str) -> (r: String)
    ensures
        exists|t: int| 0 <= t < 10000 && r@ == tagged(base@, t),
{
    let seed = clock_subsec_nanos();
    nickname_with_tag(base, seed)
}

/// The nickname that a requested one becomes, given the current nickname
/// (`None` for a new user) and the tag a fresh one would carry.
pub open spec fn resolved_nickname(
    requested: Option<Seq<char>>,
    current: Option<Seq<char>>,
    tag: int,
) -> Option<Seq<char>> {
    match requested {
        None => None,
        Some(n) => {
            let t = trimmed(n);
            if t.len() == 0 {
                None
            } else if current == Some(t) {
                Some(t)
            } else {
                Some(tagged(t, tag))
            }
        },
    }
}

/// The view of an optional text.
pub open spec fn opt_view(t: Option<String>) -> Option<Seq<char>> {
    match t {
        Some(s) => Some(s@),
        None => None,
    }
}

/// The nickname stored for a request: none when none or only white space
/// was asked for, the current one when it is asked for again, otherwise the
/// trimmed request with a tag taken from `seed`.
pub fn nickname_for_request(requested: Option<String>, current: Option<String>, seed: u32) -> (r:
    Option<String>)
    ensures
        opt_view(r) == resolved_nickname(opt_view(requested), opt_view(current), (seed % 10000) as int),
        requested is None ==> r is None,
        requested is Some && trimmed(requested->0@).len() == 0 ==> r is None,
        requested is Some && trimmed(requested->0@).len() > 0 && opt_view(current) == Some(
            trimmed(requested->0@),
        ) ==> opt_view(r) == Some(trimmed(requested->0@)),
        requested is Some && trimmed(requested->0@).len() > 0 && opt_view(current) != Some(
            trimmed(requested->0@),
        ) ==> (r is Some && r->0@.len() == trimmed(requested->0@).len() + 5 && r->0@.take(
            trimmed(requested->0@).len() as int,
        ) == trimmed(requested->0@) && r->0@[trimmed(requested->0@).len() as int] == '#'
            && digits_value(r->0@.skip(trimmed(requested->0@).len() + 1int)) == seed % 10000),
{
    match requested {
        None => None,
        Some(n) => {
            let t = trim(n.as_str());
            if t.as_str().is_empty() {
                None
            } else {
                let same = match &current {
                    Some(c) => *c == t,
                    None => false,
                };
                if same {
                    Some(t)
                } else {
                    Some(nickname_with_tag(t.as_str(), seed))
                }
            }
        },
    }
}

/// The nickname stored for a request, tagged from the clock when a new one
/// is made.
pub fn resolve_nickname(requested: Option<String>, current: Option<String>) -> (r: Option<String>)
    ensures
        exists|t: int| 0 <= t < 10000 && opt_view(r) == resolved_nickname(opt_view(requested), opt_view(current), t),
{
    let seed = clock_subsec_nanos();
    nickname_for_request(requested, current, seed)
}

/// Whether changing a user's email from `current` to `requested` collides
/// with another account: only a changed email that is already taken does.
pub fn email_change_conflicts(current: &str, requested: &str, requested_is_taken: bool) -> (r: bool)
    ensures
        r == (current@ != requested@ && requested_is_taken),
{
    let a = String::from_str(current);
    let b = String::from_str(requested);
    a != b && requested_is_taken
}

/// Calls `Display` on a hashing error. Nothing is claimed of the text.
#[verifier::external_body]
fn hash_error_text(e: &password_hash::Error) -> String {
    e.to_string()
}

/// The record stored for a new user, given whether the email is taken,
/// what hashing the password gave (its text, or the error's text) and the
/// seed of a nickname tag: a taken email is refused, a failed hash is a
/// `PasswordHash` error, otherwise the user with the hash in place of the
/// password and the requested nickname resolved.
pub fn new_user_record(
    user: NewUser,
    email_taken: bool,
    hashed: Result<String, String>,
    seed: u32,
) -> (r: Result<NewUser, UserServiceError>)
    ensures
        email_taken ==> r matches Err(UserServiceError::DuplicateEmail),
        !email_taken ==> match hashed {
            Err(m) => r matches Err(UserServiceError::PasswordHash(t)) && t == m,
            Ok(h) => r matches Ok(n) && n.name == user.name && n.email == user.email && n.password
                == h && opt_view(n.nickname) == resolved_nickname(
                opt_view(user.nickname),
                None,
                (seed % 10000) as int,
            ),
        },
{
    if email_taken {
        return Err(UserServiceError::DuplicateEmail);
    }
    match hashed {
        Err(m) => Err(UserServiceError::PasswordHash(m)),
        Ok(h) => {
            let nickname = nickname_for_request(user.nickname, None, seed);
            Ok(NewUser { name: user.name, email: user.email, password: h, nickname })
        },
    }
}

/// The record stored for a new user: a taken email is refused; otherwise
/// the password is replaced by a fresh hash that verifies it, and the
/// requested nickname is resolved with a tag from the clock. A free email
/// with a password that Argon2 takes always gives the record.
pub fn prepare_new_user(user: NewUser, email_taken: bool) -> (r: Result<NewUser, UserServiceError>)
    ensures
        email_taken ==> r matches Err(UserServiceError::DuplicateEmail),
        r matches Ok(n) ==> !email_taken && n.name == user.name && n.email == user.email
            && phc_parses(n.password@) && argon2_accepts(user.password@, n.password@) && exists|t: int|
            0 <= t < 10000 && opt_view(n.nickname) == resolved_nickname(
                opt_view(user.nickname),
                None,
                t,
            ),
        r matches Err(e) ==> (e is DuplicateEmail && email_taken) || (e is PasswordHash
            && !email_taken),
        !email_taken && vstd::utf8::encode_utf8(user.password@).len()
            <= argon2_max_password_bytes() ==> r is Ok,
{
    if email_taken {
        return Err(UserServiceError::DuplicateEmail);
    }
    let hashed = match hash_password(user.password.as_str()) {
        Ok(h) => Ok(h),
        Err(e) => Err(hash_error_text(&e)),
    };
    let ghost pw = user.password@;
    let ghost h = hashed;
    let seed = clock_subsec_nanos();
    let r = new_user_record(user, false, hashed, seed);
    assert(r matches Ok(n) ==> h matches Ok(hh) && n.password == hh);
    assert(h is Ok ==> r is Ok);
    r
}

/// What an edit of a user stores, for a nickname tag `tag`: nothing for a
/// gone user, a refusal for a changed email that is taken, otherwise the
/// edit with its nickname resolved against the current one.
pub open spec fn update_record_holds(
    current: Option<User>,
    update: UpdateUser,
    email_taken: bool,
    tag: int,
    r: Result<Option<UpdateUser>, UserServiceError>,
) -> bool {
    match current {
        None => r matches Ok(None),
        Some(c) => if c.email@ != update.email@ && email_taken {
            r matches Err(UserServiceError::DuplicateEmail)
        } else {
            r matches Ok(Some(u)) && u.name == update.name && u.email == update.email && opt_view(
                u.nickname,
            ) == resolved_nickname(opt_view(update.nickname), opt_view(c.nickname), tag)
        },
    }
}

/// The fields stored for an edit of a user, given the user as stored
/// (`None` if gone), whether the requested email belongs to an account and
/// the seed of a nickname tag: a gone user gives `None`, a changed email
/// that is taken is refused, otherwise the edit with its nickname
/// resolved against the current one.
pub fn user_update_record(
    current: Option<User>,
    update: UpdateUser,
    email_taken: bool,
    seed: u32,
) -> (r: Result<Option<UpdateUser>, UserServiceError>)
    ensures
        update_record_holds(current, update, email_taken, (seed % 10000) as int, r),
        current is None ==> r matches Ok(None),
        current is Some && current->0.email@ != update.email@ && email_taken ==> r matches Err(
            UserServiceError::DuplicateEmail,
        ),
        current is Some && (current->0.email@ == update.email@ || !email_taken) ==> (r matches Ok(
            Some(u),
        ) && u.name == update.name && u.email == update.email),
{
    match current {
        None => Ok(None),
        Some(c) => {
            if email_change_conflicts(c.email.as_str(), update.email.as_str(), email_taken) {
                return Err(UserServiceError::DuplicateEmail);
            }
            let nickname = nickname_for_request(update.nickname, c.nickname, seed);
            Ok(Some(UpdateUser { name: update.name, email: update.email, nickname }))
        },
    }
}

/// The fields stored for an edit of a user, with a nickname tag from the
/// clock when a new nickname is made.
pub fn prepare_user_update(current: Option<User>, update: UpdateUser, email_taken: bool) -> (r:
    Result<Option<UpdateUser>, UserServiceError>)
    ensures
        exists|t: int|
            0 <= t < 10000 && #[trigger] update_record_holds(current, update, email_taken, t, r),
        current is None ==> r matches Ok(None),
        current is Some && current->0.email@ != update.email@ && email_taken ==> r matches Err(
            UserServiceError::DuplicateEmail,
        ),
        current is Some && (current->0.email@ == update.email@ || !email_taken) ==> (r matches Ok(
            Some(u),
        ) && u.name == update.name && u.email == update.email),
{
    let seed = clock_subsec_nanos();
    let r = user_update_record(current, update, email_taken, seed);
    assert(0 <= (seed % 10000) as int && (seed % 10000) < 10000);
    r
}

/// An edit that keeps the user's email, or asks for an email no account
/// holds, is never refused; a user that is gone is never edited.
pub proof fn lemma_update_refused_only_for_taken_new_email(
    current: Option<User>,
    update: UpdateUser,
    email_taken: bool,
    tag: int,
    r: Result<Option<UpdateUser>, UserServiceError>,
)
    requires
        update_record_holds(current, update, email_taken, tag, r),
    ensures
        current is None ==> r matches Ok(None),
        r is Err <==> (current is Some && current->0.email@ != update.email@ && email_taken),
        r matches Ok(Some(u)) ==> u.name == update.name && u.email == update.email,
{
}

/// `n` placeholders `?` separated by `, `.
pub open spec fn placeholders(n: nat) -> Seq<char>
    decreases n,
{
    if n == 0 {
        Seq::empty()
    } else if n == 1 {
        seq!['?']
    } else {
        placeholders((n - 1) as nat) + ", ?"@
    }
}

/// The query that fetches the users with `n` given ids.
pub fn users_by_ids_query(n: usize) -> (r: String)
    ensures
        r@ == "SELECT id, name, email, nickname FROM users WHERE id IN ("@ + placeholders(n as nat)
            + ")"@,
{
    let mut marks = String::new();
    let mut i: usize = 0;
    while i < n
        invariant
            i <= n,
            marks@ == placeholders(i as nat),
        decreases n - i,
    {
        if i == 0 {
            marks.push('?');
        } else {
            marks.append(", ?");
        }
        i += 1;
    }
    let mut q = String::from_str("SELECT id, name, email, nickname FROM users WHERE id IN (");
    q.append(marks.as_str());
    q.append(")");
    q
}

} // verus!
