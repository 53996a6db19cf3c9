//! Sessions: the sign-in form, the session and CSRF cookies, and what a
//! sign-in attempt is answered with.
use crate::error::AppError;
use crate::models::User;
use crate::text::{
    chars_of, decimal, push_decimal, split_chars, split_on, str_has_char, string_of_range, trim,
    trim_bounds, trim_end, trim_start, trimmed, unicode_white_space,
};
use crate::users::UserServiceError;
use vstd::prelude::*;
use vstd::string::*;

verus! {

/// The position of the first `c` in `s`.
pub open spec fn first_index(s: Seq<char>, c: char) -> Option<int>
    decreases s.len(),
{
    if s.len() == 0 {
        None
    } else if s[0] == c {
        Some(0)
    } else {
        match first_index(s.drop_first(), c) {
            Some(k) => Some(k + 1),
            None => None,
        }
    }
}

/// Where `first_index` points, the character is `c` and no `c` comes
/// before it; where it finds none, there is none.
pub proof fn lemma_first_index(s: Seq<char>, c: char)
    ensures
        first_index(s, c) matches Some(k) ==> 0 <= k < s.len() && s[k] == c,
        first_index(s, c) matches Some(k) ==> forall|j: int| 0 <= j < k ==> s[j] != c,
        first_index(s, c) is None ==> !s.contains(c),
    decreases s.len(),
{
    if s.len() > 0 && s[0] != c {
        lemma_first_index(s.drop_first(), c);
        if first_index(s, c) is None {
            assert forall|j: int| 0 <= j < s.len() implies s[j] != c by {
                if j > 0 {
                    assert(s.drop_first()[j - 1] == s[j]);
                }
            }
        } else {
            let k = first_index(s, c)->0;
            assert forall|j: int| 0 <= j < k implies s[j] != c by {
                if j > 0 {
                    assert(s.drop_first()[j - 1] == s[j]);
                }
            }
        }
    }
}

/// A cookie pair is its trimmed piece cut at the first `=`: the name holds
/// no `=`, and name, `=` and value make up the trimmed piece.
pub proof fn lemma_cookie_pair_splits(piece: Seq<char>)
    ensures
        cookie_pair(piece) matches Some(p) ==> trimmed(piece) == p.0 + seq!['='] + p.1
            && !p.0.contains('='),
        cookie_pair(piece) is None ==> !trimmed(piece).contains('='),
{
    let t = trimmed(piece);
    lemma_first_index(t, '=');
    if let Some(k) = first_index(t, '=') {
        assert(t == t.take(k) + seq!['='] + t.skip(k + 1));
        assert forall|j: int| 0 <= j < t.take(k).len() implies t.take(k)[j] != '=' by {
            assert(t.take(k)[j] == t[j]);
        }
    }
}

/// The value found for a cookie name comes from a `;`-separated piece that
/// is, once trimmed, that name, `=` and the value.
pub proof fn lemma_cookie_found_in_header(header: Seq<char>, name: Seq<char>)
    ensures
        cookie_in(header, name) matches Some(v) ==> exists|k: int|
            0 <= k < split_on(header, ';').len() && trimmed(#[trigger] split_on(header, ';')[k])
                == name + seq!['='] + v,
{
    lemma_cookie_lookup_found(split_on(header, ';'), name);
}

proof fn lemma_cookie_lookup_found(pieces: Seq<Seq<char>>, name: Seq<char>)
    ensures
        cookie_lookup(pieces, name) matches Some(v) ==> exists|k: int|
            0 <= k < pieces.len() && trimmed(#[trigger] pieces[k]) == name + seq!['='] + v,
    decreases pieces.len(),
{
    if pieces.len() > 0 {
        lemma_cookie_pair_splits(pieces[0]);
        match cookie_pair(pieces[0]) {
            Some(p) if p.0 == name => {
                assert(trimmed(pieces[0]) == name + seq!['='] + p.1);
            },
            _ => {
                lemma_cookie_lookup_found(pieces.drop_first(), name);
                if let Some(v) = cookie_lookup(pieces, name) {
                    let k = choose|k: int|
                        0 <= k < pieces.drop_first().len() && trimmed(#[trigger] pieces.drop_first()[k])
                            == name + seq!['='] + v;
                    assert(pieces[k + 1] == pieces.drop_first()[k]);
                }
            },
        }
    }
}

/// A `name=value` cookie pair: the piece trimmed and cut at its first `=`.
pub open spec fn cookie_pair(piece: Seq<char>) -> Option<(Seq<char>, Seq<char>)> {
    let t = trimmed(piece);
    match first_index(t, '=') {
        Some(k) => Some((t.take(k), t.skip(k + 1))),
        None => None,
    }
}

/// The value of the first of `pieces` that is a pair named `name`.
pub open spec fn cookie_lookup(pieces: Seq<Seq<char>>, name: Seq<char>) -> Option<Seq<char>>
    decreases pieces.len(),
{
    if pieces.len() == 0 {
        None
    } else {
        match cookie_pair(pieces[0]) {
            Some(p) if p.0 == name => Some(p.1),
            _ => cookie_lookup(pieces.drop_first(), name),
        }
    }
}

/// The value of the cookie `name` in a `Cookie` header: the first of the
/// `;`-separated pairs whose name is `name`.
pub open spec fn cookie_in(header: Seq<char>, name: Seq<char>) -> Option<Seq<char>> {
    cookie_lookup(split_on(header, ';'), name)
}

/// The view of an optional text.
pub open spec fn opt_text(t: Option<String>) -> Option<Seq<char>> {
    match t {
        Some(s) => Some(s@),
        None => None,
    }
}

/// The position of the first `c` in `v[lo..hi]`, counted from `lo`.
fn find_char(v: &Vec<char>, lo: usize, hi: usize, c: char) -> (r: Option<usize>)
    requires
        lo <= hi <= v.len(),
    ensures
        r matches Some(a) ==> lo <= a < hi && first_index(v@.subrange(lo as int, hi as int), c)
            == Some(a - lo),
        r is None ==> first_index(v@.subrange(lo as int, hi as int), c) is None,
{
    proof {
        lemma_first_index(v@.subrange(lo as int, hi as int), c);
    }
    let mut i: usize = lo;
    while i < hi
        invariant
            lo <= i <= hi <= v.len(),
            forall|k: int| lo <= k < i ==> v@[k] != c,
            first_index(v@.subrange(lo as int, hi as int), c) == match first_index(
                v@.subrange(i as int, hi as int),
                c,
            ) {
                Some(k) => Some(k + (i - lo)),
                None => None::<int>,
            },
        decreases hi - i,
    {
        assert(v@.subrange(i as int, hi as int)[0] == v@[i as int]);
        if v[i] == c {
            return Some(i);
        }
        assert(v@.subrange(i as int, hi as int).drop_first() == v@.subrange(i + 1, hi as int));
        i += 1;
    }
    None
}

/// The value of the pair named `name` in the piece, if the piece is one.
fn pair_value(piece: &Vec<char>, name: &String) -> (r: Option<String>)
    ensures
        match cookie_pair(piece@) {
            Some(p) if p.0 == name@ => r matches Some(v) && v@ == p.1,
            _ => r is None,
        },
{
    let (lo, hi) = trim_bounds(piece);
    let ghost t = piece@.subrange(lo as int, hi as int);
    match find_char(piece, lo, hi, '=') {
        None => None,
        Some(at) => {
            let ghost k = at - lo;
            assert(first_index(t, '=') == Some(k));
            assert(cookie_pair(piece@) == Some((t.take(k), t.skip(k + 1))));
            let key = string_of_range(piece, lo, at);
            assert(key@ == t.take(k));
            if key == *name {
                let value = string_of_range(piece, at + 1, hi);
                assert(value@ == t.skip(k + 1));
                Some(value)
            } else {
                None
            }
        },
    }
}

/// The value of the cookie `name` in the `Cookie` header `header`.
pub fn cookie_value(header: &str, name: &str) -> (r: Option<String>)
    ensures
        opt_text(r) == cookie_in(header@, name@),
{
    let v = chars_of(header);
    let parts = split_chars(&v, ';');
    let wanted = String::from_str(name);
    let ghost all = parts.deep_view();
    let mut i: usize = 0;
    assert(all.skip(0) == all);
    while i < parts.len()
        invariant
            i <= parts.len(),
            all == parts.deep_view(),
            wanted@ == name@,
            cookie_in(header@, name@) == cookie_lookup(all.skip(i as int), name@),
            all == split_on(header@, ';'),
        decreases parts.len() - i,
    {
        assert(all.skip(i as int)[0] == parts[i as int]@);
        assert(all.skip(i as int).drop_first() == all.skip(i + 1));
        match pair_value(&parts[i], &wanted) {
            Some(value) => {
                return Some(value);
            },
            None => {},
        }
        i += 1;
    }
    None
}

/// The session cookie's name.
pub open spec fn session_cookie_name() -> Seq<char> {
    "chat_session"@
}

/// The CSRF cookie's name.
pub open spec fn csrf_cookie_name() -> Seq<char> {
    "csrf_token"@
}

/// How long a session lasts, in seconds: thirty days.
pub const SESSION_MAX_AGE_SECS: i64 = 2592000;

/// The session token that a `Cookie` header carries.
pub fn session_token(header: &str) -> (r: Option<String>)
    ensures
        opt_text(r) == cookie_in(header@, session_cookie_name()),
{
    cookie_value(header, "chat_session")
}

/// The CSRF token that a `Cookie` header carries.
pub fn csrf_token(header: &str) -> (r: Option<String>)
    ensures
        opt_text(r) == cookie_in(header@, csrf_cookie_name()),
{
    cookie_value(header, "csrf_token")
}

/// Whether a sign-out form carries the CSRF token of the cookie: the
/// header must hold the cookie and its value must equal the form's token.
pub fn csrf_accepted(cookie_header: Option<&str>, form_token: &str) -> (r: bool)
    ensures
        r == match cookie_header {
            Some(h) => cookie_in(h@, csrf_cookie_name()) == Some(form_token@),
            None => false,
        },
{
    match cookie_header {
        None => false,
        Some(h) => match csrf_token(h) {
            Some(t) => t == String::from_str(form_token),
            None => false,
        },
    }
}

/// The `; Secure` attribute when cookies are only sent over HTTPS.
pub open spec fn secure_suffix(secure: bool) -> Seq<char> {
    if secure {
        "; Secure"@
    } else {
        Seq::<char>::empty()
    }
}

fn push_secure(s: &mut String, secure: bool)
    ensures
        final(s)@ == old(s)@ + secure_suffix(secure),
{
    if secure {
        s.append("; Secure");
    } else {
        assert(old(s)@ + Seq::<char>::empty() == old(s)@);
    }
}

/// The `Set-Cookie` value that starts a session with `token`.
pub fn session_cookie(token: &str, secure: bool) -> (r: String)
    ensures
        r@ == "chat_session="@ + token@ + "; HttpOnly; Path=/; Max-Age="@ + decimal(
            SESSION_MAX_AGE_SECS as int,
        ) + "; SameSite=Lax"@ + secure_suffix(secure),
{
    let mut s = String::from_str("chat_session=");
    s.append(token);
    s.append("; HttpOnly; Path=/; Max-Age=");
    push_decimal(&mut s, SESSION_MAX_AGE_SECS);
    s.append("; SameSite=Lax");
    push_secure(&mut s, secure);
    s
}

/// The `Set-Cookie` value that hands the browser the CSRF token `token`.
pub fn csrf_cookie(token: &str, secure: bool) -> (r: String)
    ensures
        r@ == "csrf_token="@ + token@ + "; Path=/; Max-Age="@ + decimal(
            SESSION_MAX_AGE_SECS as int,
        ) + "; SameSite=Lax"@ + secure_suffix(secure),
{
    let mut s = String::from_str("csrf_token=");
    s.append(token);
    s.append("; Path=/; Max-Age=");
    push_decimal(&mut s, SESSION_MAX_AGE_SECS);
    s.append("; SameSite=Lax");
    push_secure(&mut s, secure);
    s
}

/// The `Set-Cookie` value that removes the session cookie.
pub fn expired_session_cookie(secure: bool) -> (r: String)
    ensures
        r@ == "chat_session=; HttpOnly; Path=/; Max-Age=0; SameSite=Lax"@ + secure_suffix(secure),
{
    let mut s = String::from_str("chat_session=; HttpOnly; Path=/; Max-Age=0; SameSite=Lax");
    push_secure(&mut s, secure);
    s
}

/// The `Set-Cookie` value that removes the CSRF cookie.
pub fn expired_csrf_cookie(secure: bool) -> (r: String)
    ensures
        r@ == "csrf_token=; Path=/; Max-Age=0; SameSite=Lax"@ + secure_suffix(secure),
{
    let mut s = String::from_str("csrf_token=; Path=/; Max-Age=0; SameSite=Lax");
    push_secure(&mut s, secure);
    s
}

/// Whether `c` may stand in a hyphenated lower-case UUID.
pub open spec fn uuid_char(c: char) -> bool {
    c == '-' || ('0' <= c <= '9') || ('a' <= c <= 'f')
}

/// Calls `Uuid::new_v4` and renders it with `Display`. Claims the
/// hyphenated lower-case form: 36 characters, hex digits and hyphens.
#[verifier::external_body]
fn random_uuid_text() -> (r: String)
    ensures
        r@.len() == 36,
        forall|i: int| 0 <= i < r@.len() ==> uuid_char(#[trigger] r@[i]),
{
    uuid::Uuid::new_v4().to_string()
}

/// A fresh random token for a session or a CSRF cookie.
pub fn new_token() -> (r: String)
    ensures
        r@.len() == 36,
        forall|i: int| 0 <= i < r@.len() ==> uuid_char(#[trigger] r@[i]),
{
    random_uuid_text()
}

/// The sign-in form.
#[derive(Debug)]
pub struct LoginForm {
    pub email: String,
    pub password: String,
}

/// The sign-out form.
#[derive(Debug)]
pub struct LogoutForm {
    pub csrf_token: String,
}

/// The sign-in form as the page shows it again: the trimmed email and the
/// messages for the fields that are wrong.
#[derive(Debug)]
pub struct LoginCheck {
    pub email: String,
    pub email_error: Option<String>,
    pub password_error: Option<String>,
}

/// The message for an email field, if it is wrong: empty, or without `@`.
pub open spec fn email_problem(email: Seq<char>) -> Option<Seq<char>> {
    if email.len() == 0 {
        Some("Email is required."@)
    } else if !email.contains('@') {
        Some("Email must contain @."@)
    } else {
        None
    }
}

/// The message for a password field that holds only white space.
pub open spec fn login_password_problem(password: Seq<char>) -> Option<Seq<char>> {
    if trimmed(password).len() == 0 {
        Some("Password is required."@)
    } else {
        None
    }
}

/// The message for an email field, if it is wrong.
pub fn email_error(email: &str) -> (r: Option<String>)
    ensures
        opt_text(r) == email_problem(email@),
{
    if email.is_empty() {
        Some(String::from_str("Email is required."))
    } else if !str_has_char(email, '@') {
        Some(String::from_str("Email must contain @."))
    } else {
        None
    }
}

impl LoginCheck {
    /// Whether the form can be used to sign in.
    pub open spec fn spec_is_valid(&self) -> bool {
        self.email_error is None && self.password_error is None
    }

    /// Whether the form can be used to sign in.
    pub fn is_valid(&self) -> (r: bool)
        ensures
            r == self.spec_is_valid(),
            r == (self.email_error is None && self.password_error is None),
    {
        self.email_error.is_none() && self.password_error.is_none()
    }
}

/// Checks the sign-in form: the email is trimmed and must be non-empty and
/// hold `@`; the password must hold more than white space.
pub fn check_login_form(form: &LoginForm) -> (r: LoginCheck)
    ensures
        r.email@ == trimmed(form.email@),
        opt_text(r.email_error) == email_problem(trimmed(form.email@)),
        opt_text(r.password_error) == login_password_problem(form.password@),
        r.email_error is None <==> trimmed(form.email@).contains('@'),
        r.password_error is None <==> trimmed(form.password@).len() > 0,
{
    let email = trim(form.email.as_str());
    let email_error = email_error(email.as_str());
    let password = trim(form.password.as_str());
    let password_error = if password.as_str().is_empty() {
        Some(String::from_str("Password is required."))
    } else {
        None
    };
    LoginCheck { email, email_error, password_error }
}

/// A sign-in form whose email is empty or has no `@`, or whose password is
/// only white space, is never valid: it is shown again with its message
/// and goes no further.
pub proof fn lemma_bad_login_form_not_valid(form: LoginForm, check: LoginCheck)
    requires
        opt_text(check.email_error) == email_problem(trimmed(form.email@)),
        opt_text(check.password_error) == login_password_problem(form.password@),
        !trimmed(form.email@).contains('@') || trimmed(form.password@).len() == 0,
    ensures
        !check.spec_is_valid(),
{
}

/// A sign-in form with an email holding `@` and a password holding more
/// than white space is valid.
pub proof fn lemma_good_login_form_valid(form: LoginForm, check: LoginCheck)
    requires
        opt_text(check.email_error) == email_problem(trimmed(form.email@)),
        opt_text(check.password_error) == login_password_problem(form.password@),
        trimmed(form.email@).contains('@'),
        trimmed(form.password@).len() > 0,
    ensures
        check.spec_is_valid(),
{
}

/// The message shown when the rate limiter refuses a sign-in.
pub fn too_many_attempts_message() -> (r: String)
    ensures
        r@ == "Too many login attempts. Please try again later."@,
{
    String::from_str("Too many login attempts. Please try again later.")
}

/// The message shown when the email or the password is wrong.
pub fn wrong_credentials_message() -> (r: String)
    ensures
        r@ == "Email or password is incorrect."@,
{
    String::from_str("Email or password is incorrect.")
}

/// The next step of a sign-in.
#[derive(Debug)]
pub enum LoginStep {
    /// Show the form again with its messages (422).
    ShowForm,
    /// Ask the rate limiter about the email, then decide again.
    NeedRateCheck,
    /// Refuse: too many failed attempts (429).
    Throttled,
    /// Check the email and password, then decide again.
    NeedAuthentication,
    /// Forget the failed attempts and start a session for the user.
    StartSession(User),
    /// Count a failed attempt and show the form again (401).
    WrongCredentials,
    /// Answer with the error.
    Fail(AppError),
}

/// The next step of a sign-in, given the checked form and what has been
/// found so far (`None` for what has not): whether the rate limiter lets
/// the email try, and what authentication returned. An invalid form is
/// shown again; a throttled email is refused before its password is
/// checked; a wrong email or password is counted; a database failure stays
/// one; any other failure is internal.
pub fn decide_login(
    check: &LoginCheck,
    allowed: Option<bool>,
    auth: Option<Result<User, UserServiceError>>,
) -> (r: LoginStep)
    ensures
        !check.spec_is_valid() ==> r is ShowForm,
        check.spec_is_valid() ==> match allowed {
            None => r is NeedRateCheck,
            Some(false) => r is Throttled,
            Some(true) => match auth {
                None => r is NeedAuthentication,
                Some(Ok(u)) => r == LoginStep::StartSession(u),
                Some(Err(UserServiceError::InvalidCredentials)) => r is WrongCredentials,
                Some(Err(UserServiceError::Database(e))) => r == LoginStep::Fail(
                    AppError::Database(e),
                ),
                Some(Err(_)) => r == LoginStep::Fail(AppError::Internal),
            },
        },
        r is StartSession ==> check.spec_is_valid() && allowed == Some(true),
        r is ShowForm <==> (check.email_error is Some || check.password_error is Some),
        r is StartSession ==> check.email_error is None && check.password_error is None,
{
    if !check.is_valid() {
        return LoginStep::ShowForm;
    }
    match allowed {
        None => LoginStep::NeedRateCheck,
        Some(false) => LoginStep::Throttled,
        Some(true) => match auth {
            None => LoginStep::NeedAuthentication,
            Some(Ok(u)) => LoginStep::StartSession(u),
            Some(Err(UserServiceError::InvalidCredentials)) => LoginStep::WrongCredentials,
            Some(Err(UserServiceError::Database(e))) => LoginStep::Fail(AppError::Database(e)),
            Some(Err(_)) => LoginStep::Fail(AppError::Internal),
        },
    }
}

/// How a failed session lookup is answered: a database failure stays one,
/// anything else is internal.
pub fn session_lookup_error(err: UserServiceError) -> (r: AppError)
    ensures
        match err {
            UserServiceError::Database(e) => r == AppError::Database(e),
            _ => r == AppError::Internal,
        },
{
    match err {
        UserServiceError::Database(e) => AppError::Database(e),
        _ => AppError::Internal,
    }
}

/// Text without the separator splits into itself alone.
proof fn lemma_split_without_separator(s: Seq<char>, sep: char)
    requires
        !s.contains(sep),
    ensures
        split_on(s, sep) == seq![s],
    decreases s.len(),
{
    if s.len() > 0 {
        assert(!s.drop_last().contains(sep)) by {
            if s.drop_last().contains(sep) {
                let k = choose|k: int| 0 <= k < s.drop_last().len() && s.drop_last()[k] == sep;
                assert(s[k] == sep);
            }
        }
        lemma_split_without_separator(s.drop_last(), sep);
        assert(s.last() != sep) by {
            assert(s[s.len() - 1] == s.last());
        }
        assert(s.drop_last().push(s.last()) =~= s);
        assert(seq![s.drop_last()].update(0, s.drop_last().push(s.last())) =~= seq![s]);
    } else {
        assert(s =~= Seq::<char>::empty());
    }
}

/// In `a + b`, where `a` does not hold `c`, the first `c` is the first one
/// of `b`, shifted.
proof fn lemma_first_index_after(a: Seq<char>, b: Seq<char>, c: char)
    requires
        !a.contains(c),
    ensures
        first_index(a + b, c) == match first_index(b, c) {
            Some(k) => Some(k + a.len()),
            None => None::<int>,
        },
    decreases a.len(),
{
    if a.len() == 0 {
        assert(a + b == b);
    } else {
        assert(a[0] != c);
        assert((a + b)[0] == a[0]);
        assert((a + b).drop_first() == a.drop_first() + b);
        assert(!a.drop_first().contains(c)) by {
            if a.drop_first().contains(c) {
                let k = choose|k: int| 0 <= k < a.drop_first().len() && a.drop_first()[k] == c;
                assert(a[k + 1] == c);
            }
        }
        lemma_first_index_after(a.drop_first(), b, c);
    }
}

/// A `Cookie` header holding just `name=value` gives back `value` for
/// `name`, when the name is not empty and holds no `=` or `;`, the value
/// is not empty and holds no `;`, and neither starts or ends with white
/// space.
pub proof fn lemma_cookie_reads_back(name: Seq<char>, value: Seq<char>)
    requires
        name.len() > 0,
        value.len() > 0,
        !name.contains('='),
        !name.contains(';'),
        !value.contains(';'),
        !unicode_white_space(name[0]),
        !unicode_white_space(value.last()),
    ensures
        cookie_in(name + seq!['='] + value, name) == Some(value),
{
    let s = name + seq!['='] + value;
    assert(!s.contains(';')) by {
        if s.contains(';') {
            let k = choose|k: int| 0 <= k < s.len() && s[k] == ';';
            if k < name.len() {
                assert(name[k] == ';');
            } else if k > name.len() {
                assert(value[k - name.len() - 1] == ';');
            }
        }
    }
    lemma_split_without_separator(s, ';');
    assert(s[0] == name[0]);
    assert(trim_start(s) == s);
    assert(s.last() == value.last());
    assert(trim_end(s) == s);
    assert(trimmed(s) == s);
    assert(s == name + (seq!['='] + value));
    lemma_first_index_after(name, seq!['='] + value, '=');
    assert(first_index(seq!['='] + value, '=') == Some(0int));
    assert(s.take(name.len() as int) == name);
    assert(s.skip(name.len() as int + 1) == value);
    assert(split_on(s, ';').drop_first().len() == 0);
}

/// The token of a session cookie comes back from the browser's `Cookie`
/// header as the same token.
pub proof fn lemma_session_token_reads_back(token: Seq<char>)
    requires
        token.len() == 36,
        forall|i: int| 0 <= i < token.len() ==> uuid_char(#[trigger] token[i]),
    ensures
        cookie_in(session_cookie_name() + seq!['='] + token, session_cookie_name()) == Some(token),
{
    reveal_strlit("chat_session");
    let name = session_cookie_name();
    assert(!name.contains('=')) by {
        if name.contains('=') {
            let k = choose|k: int| 0 <= k < name.len() && name[k] == '=';
        }
    }
    assert(!name.contains(';')) by {
        if name.contains(';') {
            let k = choose|k: int| 0 <= k < name.len() && name[k] == ';';
        }
    }
    assert(!token.contains(';')) by {
        if token.contains(';') {
            let k = choose|k: int| 0 <= k < token.len() && token[k] == ';';
            assert(uuid_char(token[k]));
        }
    }
    assert(uuid_char(token[35]));
    assert(token.last() == token[35]);
    lemma_cookie_reads_back(name, token);
}

} // verus!
