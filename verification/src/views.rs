//! The user form of the sign-up and edit pages: what it shows, and how a
//! submitted form is checked.
use crate::auth::{email_error, email_problem, opt_text};
use crate::error::{user_not_found, AppError};
use crate::models::User;
use crate::users::UserServiceError;
use crate::text::{chars_of, decimal, push_decimal, trim, trimmed};
use vstd::prelude::*;
use vstd::string::*;

verus! {

/// A submitted user form (the password is empty when the form has none).
#[derive(Debug)]
pub struct UserForm {
    pub name: String,
    pub email: String,
    pub password: String,
}

/// The user form as a page shows it: where it posts, its button, the
/// entered values and a message per wrong field.
#[derive(Debug)]
pub struct UserFormView {
    pub action: String,
    pub submit_label: String,
    pub name: String,
    pub email: String,
    pub password: String,
    pub name_error: Option<String>,
    pub email_error: Option<String>,
    pub password_error: Option<String>,
    pub show_password: bool,
}

impl Clone for UserFormView {
    fn clone(&self) -> (r: Self)
        ensures
            r == *self,
    {
        UserFormView {
            action: self.action.clone(),
            submit_label: self.submit_label.clone(),
            name: self.name.clone(),
            email: self.email.clone(),
            password: self.password.clone(),
            name_error: crate::models::clone_text(&self.name_error),
            email_error: crate::models::clone_text(&self.email_error),
            password_error: crate::models::clone_text(&self.password_error),
            show_password: self.show_password,
        }
    }
}

/// The page of user `id`.
pub fn user_path(id: i64) -> (r: String)
    ensures
        r@ == "/users/"@ + decimal(id as int),
{
    let mut r = String::from_str("/users/");
    push_decimal(&mut r, id);
    r
}

/// The message for a name field, if it is empty.
pub open spec fn name_problem(name: Seq<char>) -> Option<Seq<char>> {
    if name.len() == 0 {
        Some("Name is required."@)
    } else {
        None
    }
}

/// The message for a password field (already trimmed) of a form that
/// asks for one: empty, or shorter than 8 characters.
pub open spec fn password_problem(password: Seq<char>) -> Option<Seq<char>> {
    if password.len() == 0 {
        Some("Password is required."@)
    } else if password.len() < 8 {
        Some("Password must be at least 8 characters."@)
    } else {
        None
    }
}

/// What checking a form with these entries gives.
pub open spec fn checked_form(
    v: UserFormView,
    action: Seq<char>,
    submit_label: Seq<char>,
    form: UserForm,
    show_password: bool,
) -> bool {
    &&& v.action@ == action
    &&& v.submit_label@ == submit_label
    &&& v.name@ == trimmed(form.name@)
    &&& v.email@ == trimmed(form.email@)
    &&& v.password@ == trimmed(form.password@)
    &&& opt_text(v.name_error) == name_problem(trimmed(form.name@))
    &&& opt_text(v.email_error) == email_problem(trimmed(form.email@))
    &&& opt_text(v.password_error) == (if show_password {
        password_problem(trimmed(form.password@))
    } else {
        None
    })
    &&& v.show_password == show_password
}

impl UserFormView {
    /// Whether the form has no wrong field.
    pub open spec fn spec_is_valid(&self) -> bool {
        self.name_error is None && self.email_error is None && self.password_error is None
    }

    /// An empty form that asks for a password.
    pub fn new(action: String, submit_label: String) -> (v: Self)
        ensures
            v.action == action,
            v.submit_label == submit_label,
            v.name@.len() == 0 && v.email@.len() == 0 && v.password@.len() == 0,
            v.name_error is None && v.email_error is None && v.password_error is None,
            v.show_password,
    {
        UserFormView {
            action,
            submit_label,
            name: String::new(),
            email: String::new(),
            password: String::new(),
            name_error: None,
            email_error: None,
            password_error: None,
            show_password: true,
        }
    }

    /// The edit form of `user`: it posts to the user's page and asks for
    /// no password.
    pub fn from_user(user: &User) -> (v: Self)
        ensures
            v.action@ == "/users/"@ + decimal(user.id as int),
            v.submit_label@ == "Save user"@,
            v.name == user.name && v.email == user.email,
            v.password@.len() == 0,
            v.name_error is None && v.email_error is None && v.password_error is None,
            !v.show_password,
    {
        UserFormView {
            action: user_path(user.id),
            submit_label: String::from_str("Save user"),
            name: user.name.clone(),
            email: user.email.clone(),
            password: String::new(),
            name_error: None,
            email_error: None,
            password_error: None,
            show_password: false,
        }
    }

    /// Checks a submitted form: every entry is trimmed; the name must not
    /// be empty, the email must not be empty and must hold `@`, and, when
    /// the form asks for a password, it must not be empty and must be at
    /// least 8 characters long. `Ok` when nothing is wrong, else `Err` with the
    /// form to show again.
    pub fn validate(
        action: String,
        submit_label: String,
        form: UserForm,
        show_password: bool,
    ) -> (r: Result<Self, Self>)
        ensures
            match r {
                Ok(v) => checked_form(v, action@, submit_label@, form, show_password)
                    && v.spec_is_valid(),
                Err(v) => checked_form(v, action@, submit_label@, form, show_password)
                    && !v.spec_is_valid(),
            },
            r is Ok <==> (trimmed(form.name@).len() > 0 && trimmed(form.email@).contains('@') && (
            show_password ==> trimmed(form.password@).len() >= 8)),
            trimmed(form.name@).len() == 0 ==> (r matches Err(v) && v.name_error is Some),
            !trimmed(form.email@).contains('@') ==> (r matches Err(v) && v.email_error is Some),
            show_password && trimmed(form.password@).len() < 8 ==> (r matches Err(v)
                && v.password_error is Some),
    {
        let ghost f = form;
        let name = trim(form.name.as_str());
        let email = trim(form.email.as_str());
        let password = trim(form.password.as_str());
        let name_error = if name.as_str().is_empty() {
            Some(String::from_str("Name is required."))
        } else {
            None
        };
        let email_error = email_error(email.as_str());
        let password_error = if show_password {
            if password.as_str().is_empty() {
                Some(String::from_str("Password is required."))
            } else if chars_of(password.as_str()).len() < 8 {
                Some(String::from_str("Password must be at least 8 characters."))
            } else {
                None
            }
        } else {
            None
        };
        let view = UserFormView {
            action,
            submit_label,
            name,
            email,
            password,
            name_error,
            email_error,
            password_error,
            show_password,
        };
        if view.name_error.is_some() || view.email_error.is_some() || view.password_error.is_some() {
            Err(view)
        } else {
            Ok(view)
        }
    }

    /// The form shown again because its email belongs to another user.
    pub fn with_email_taken(self) -> (v: Self)
        ensures
            v == (UserFormView { email_error: v.email_error, ..self }),
            v.email_error matches Some(m) && m@ == "Email already exists."@,
    {
        UserFormView { email_error: Some(String::from_str("Email already exists.")), ..self }
    }
}

/// A checked user form is valid exactly when its trimmed name is not
/// empty, its trimmed email holds `@`, and, when it asks for a password,
/// the trimmed password has at least 8 characters.
pub proof fn lemma_checked_form_valid_exactly(
    v: UserFormView,
    action: Seq<char>,
    submit_label: Seq<char>,
    form: UserForm,
    show_password: bool,
)
    requires
        checked_form(v, action, submit_label, form, show_password),
    ensures
        v.spec_is_valid() <==> (trimmed(form.name@).len() > 0 && trimmed(form.email@).contains('@')
            && (show_password ==> trimmed(form.password@).len() >= 8)),
{
}

/// What saving a user form comes to.
#[derive(Debug)]
pub enum SaveOutcome {
    /// The user was saved.
    Saved(User),
    /// Show the form again: the email belongs to another user (409).
    EmailTaken,
    /// Answer with the error.
    Fail(AppError),
}

/// What saving a new user comes to, given what the service returned: a
/// duplicate email is shown on the form, a database failure stays one,
/// anything else is internal.
pub fn create_outcome(result: Result<User, UserServiceError>) -> (r: SaveOutcome)
    ensures
        match result {
            Ok(u) => r == SaveOutcome::Saved(u),
            Err(UserServiceError::DuplicateEmail) => r is EmailTaken,
            Err(UserServiceError::Database(e)) => r == SaveOutcome::Fail(AppError::Database(e)),
            Err(_) => r == SaveOutcome::Fail(AppError::Internal),
        },
{
    match result {
        Ok(u) => SaveOutcome::Saved(u),
        Err(UserServiceError::DuplicateEmail) => SaveOutcome::EmailTaken,
        Err(UserServiceError::Database(e)) => SaveOutcome::Fail(AppError::Database(e)),
        Err(_) => SaveOutcome::Fail(AppError::Internal),
    }
}

/// What saving an edit of user `id` comes to: as for a new user, and a
/// user that no longer exists is not found.
pub fn update_outcome(id: i64, result: Result<Option<User>, UserServiceError>) -> (r: SaveOutcome)
    ensures
        match result {
            Ok(Some(u)) => r == SaveOutcome::Saved(u),
            Ok(None) => r matches SaveOutcome::Fail(AppError::NotFound(m)) && m@ == "User with id "@
                + decimal(id as int) + " not found"@,
            Err(UserServiceError::DuplicateEmail) => r is EmailTaken,
            Err(UserServiceError::Database(e)) => r == SaveOutcome::Fail(AppError::Database(e)),
            Err(_) => r == SaveOutcome::Fail(AppError::Internal),
        },
{
    match result {
        Ok(Some(u)) => SaveOutcome::Saved(u),
        Ok(None) => SaveOutcome::Fail(user_not_found(id)),
        Err(e) => create_outcome(Err(e)),
    }
}

} // verus!
