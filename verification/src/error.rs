//! The application error type shared by every layer.
use vstd::prelude::*;
use vstd::string::*;

verus! {

/// Declares `sqlx::Error` so that storage failures can pass through verified code.
#[verifier::external_type_specification]
#[verifier::external_body]
pub struct ExSqlxError(sqlx::Error);

/// Declares `serde_json::Error` so that serialization failures can pass through verified code.
#[verifier::external_type_specification]
#[verifier::external_body]
pub struct ExJsonError(serde_json::Error);

/// Failures reported to the user interface, each carrying a human readable message.
#[derive(Debug, Clone)]
pub enum AppError {
    Validation(String),
    NotFound(String),
    Conflict(String),
    Storage(String),
    Internal(String),
}

pub type AppResult<T> = Result<T, AppError>;

/// The text of `sqlx::Error`'s `Display` impl. Nothing about the text is stated: the error is opaque.
#[verifier::external_body]
fn sqlx_error_text(err: &sqlx::Error) -> String {
    err.to_string()
}

/// The text of `serde_json::Error`'s `Display` impl. Nothing about the text is stated.
#[verifier::external_body]
fn json_error_text(err: &serde_json::Error) -> String {
    err.to_string()
}

/// `prefix` followed by `rest`.
pub fn concat_str(prefix: &str, rest: &str) -> (r: String)
    ensures
        r@ == prefix@ + rest@,
{
    let mut out = String::from_str(prefix);
    out.append(rest);
    out
}

impl AppError {
    /// The message carried by the error, whatever its kind.
    pub open spec fn message_view(self) -> Seq<char> {
        match self {
            AppError::Validation(m) => m@,
            AppError::NotFound(m) => m@,
            AppError::Conflict(m) => m@,
            AppError::Storage(m) => m@,
            AppError::Internal(m) => m@,
        }
    }

    pub fn validation(msg: String) -> (r: Self)
        ensures
            r == AppError::Validation(msg),
    {
        AppError::Validation(msg)
    }

    pub fn not_found(msg: String) -> (r: Self)
        ensures
            r == AppError::NotFound(msg),
    {
        AppError::NotFound(msg)
    }

    pub fn conflict(msg: String) -> (r: Self)
        ensures
            r == AppError::Conflict(msg),
    {
        AppError::Conflict(msg)
    }

    pub fn storage(msg: String) -> (r: Self)
        ensures
            r == AppError::Storage(msg),
    {
        AppError::Storage(msg)
    }

    pub fn internal(msg: String) -> (r: Self)
        ensures
            r == AppError::Internal(msg),
    {
        AppError::Internal(msg)
    }

    /// The displayed form of the error: its message, without any kind prefix.
    pub fn to_string(&self) -> (r: String)
        ensures
            r@ == self.message_view(),
    {
        match self {
            AppError::Validation(m) => m.clone(),
            AppError::NotFound(m) => m.clone(),
            AppError::Conflict(m) => m.clone(),
            AppError::Storage(m) => m.clone(),
            AppError::Internal(m) => m.clone(),
        }
    }

    /// A database failure becomes a storage error whose message starts with `database error: `.
    pub fn from_sqlx(err: sqlx::Error) -> (r: Self)
        ensures
            r is Storage,
            r.message_view().len() >= 16,
            r.message_view().subrange(0, 16) == "database error: "@,
    {
        proof {
            reveal_strlit("database error: ");
        }
        let text = sqlx_error_text(&err);
        let msg = concat_str("database error: ", text.as_str());
        assert(msg@.subrange(0, 16) == "database error: "@);
        AppError::Storage(msg)
    }

    /// A serialization failure becomes an internal error whose message starts with
    /// `serialization error: `.
    pub fn from_json(err: serde_json::Error) -> (r: Self)
        ensures
            r is Internal,
            r.message_view().len() >= 21,
            r.message_view().subrange(0, 21) == "serialization error: "@,
    {
        proof {
            reveal_strlit("serialization error: ");
        }
        let text = json_error_text(&err);
        let msg = concat_str("serialization error: ", text.as_str());
        assert(msg@.subrange(0, 21) == "serialization error: "@);
        AppError::Internal(msg)
    }
}

} // verus!
