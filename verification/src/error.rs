//! The closed error taxonomy: each kind carries its structured payload and
//! maps to a stable numeric code, an HTTP-equivalent status, a message key,
//! and a fixed locale-agnostic fallback description. The mapping is total:
//! every kind is explicitly listed, and a kind outside the client-error rows
//! maps to the internal-error code rather than succeeding silently.
use vstd::prelude::*;
use vstd::string::StringExecFns;
use crate::template::{pair_views, TranslateArgs};

verus! {

/// Application-level result codes, stable across locales and releases.
#[derive(Clone, Copy, Debug, PartialEq, Eq, Hash, Structural)]
pub enum AppCode {
    Success,
    BadRequest,
    Unauthorized,
    Forbidden,
    NotFound,
    Conflict,
    InternalError,
}

impl AppCode {
    /// The stable numeric value of this code.
    pub open spec fn code_spec(self) -> int {
        match self {
            AppCode::Success => 0,
            AppCode::BadRequest => 4000,
            AppCode::Unauthorized => 4001,
            AppCode::Forbidden => 4003,
            AppCode::NotFound => 4004,
            AppCode::Conflict => 4009,
            AppCode::InternalError => 5000,
        }
    }

    /// The fixed English description of this code.
    pub open spec fn message_spec(self) -> Seq<char> {
        match self {
            AppCode::Success => "Success"@,
            AppCode::BadRequest => "Bad Request"@,
            AppCode::Unauthorized => "Unauthorized"@,
            AppCode::Forbidden => "Forbidden"@,
            AppCode::NotFound => "Not Found"@,
            AppCode::Conflict => "Conflict"@,
            AppCode::InternalError => "Internal Server Error"@,
        }
    }

    /// The stable numeric value of this code.
    pub fn code(self) -> (r: i32)
        ensures
            r == self.code_spec(),
    {
        match self {
            AppCode::Success => 0,
            AppCode::BadRequest => 4000,
            AppCode::Unauthorized => 4001,
            AppCode::Forbidden => 4003,
            AppCode::NotFound => 4004,
            AppCode::Conflict => 4009,
            AppCode::InternalError => 5000,
        }
    }

    /// The fixed English description of this code.
    pub fn message(self) -> (r: &'static str)
        ensures
            r@ == self.message_spec(),
    {
        match self {
            AppCode::Success => "Success",
            AppCode::BadRequest => "Bad Request",
            AppCode::Unauthorized => "Unauthorized",
            AppCode::Forbidden => "Forbidden",
            AppCode::NotFound => "Not Found",
            AppCode::Conflict => "Conflict",
            AppCode::InternalError => "Internal Server Error",
        }
    }
}

/// An application failure: one of a closed set of kinds, each with its
/// structured payload. Created at the point of failure and consumed by the
/// error renderer.
#[derive(Debug)]
pub enum AppError {
    /// Input failed validation.
    ValidationError(String),
    /// The request was malformed.
    BadRequest(String),
    /// The caller is not authenticated.
    Unauthorized(String),
    /// The caller is authenticated but not allowed.
    Forbidden(String),
    /// The named resource with the given identifier does not exist.
    NotFound { resource: String, identifier: String },
    /// The named resource with the given identifier already exists.
    Conflict { resource: String, identifier: String },
    /// An unexpected internal failure.
    InternalError(String),
    /// A storage-layer failure, already stripped of internal detail.
    Database { message: String },
}

impl AppError {
    /// The application code of this kind; kinds without a client-error row,
    /// storage failures included, map to the internal-error code.
    pub open spec fn app_code_spec(self) -> AppCode {
        match self {
            AppError::ValidationError(_) => AppCode::BadRequest,
            AppError::BadRequest(_) => AppCode::BadRequest,
            AppError::Unauthorized(_) => AppCode::Unauthorized,
            AppError::Forbidden(_) => AppCode::Forbidden,
            AppError::NotFound { .. } => AppCode::NotFound,
            AppError::Conflict { .. } => AppCode::Conflict,
            AppError::InternalError(_) => AppCode::InternalError,
            AppError::Database { .. } => AppCode::InternalError,
        }
    }

    /// The stable numeric code of this kind.
    pub open spec fn code_spec(self) -> int {
        self.app_code_spec().code_spec()
    }

    /// The HTTP-equivalent status of this kind.
    pub open spec fn status_spec(self) -> int {
        match self {
            AppError::ValidationError(_) => 400,
            AppError::BadRequest(_) => 400,
            AppError::Unauthorized(_) => 401,
            AppError::Forbidden(_) => 403,
            AppError::NotFound { .. } => 404,
            AppError::Conflict { .. } => 409,
            AppError::InternalError(_) => 500,
            AppError::Database { .. } => 500,
        }
    }

    /// The message key this kind renders under.
    pub open spec fn key_spec(self) -> Seq<char> {
        match self {
            AppError::ValidationError(_) => "error-validation"@,
            AppError::BadRequest(_) => "error-bad_request"@,
            AppError::Unauthorized(_) => "error-unauthorized"@,
            AppError::Forbidden(_) => "error-forbidden"@,
            AppError::NotFound { .. } => "error-not_found"@,
            AppError::Conflict { .. } => "error-conflict"@,
            AppError::InternalError(_) => "error-internal"@,
            AppError::Database { .. } => "error-database"@,
        }
    }

    /// The fixed locale-agnostic fallback description of this kind, used
    /// whenever localized rendering fails.
    pub open spec fn description_spec(self) -> Seq<char> {
        match self {
            AppError::ValidationError(_) => "Validation failed"@,
            AppError::BadRequest(_) => "Bad Request"@,
            AppError::Unauthorized(_) => "Unauthorized"@,
            AppError::Forbidden(_) => "Forbidden"@,
            AppError::NotFound { .. } => "Not Found"@,
            AppError::Conflict { .. } => "Conflict"@,
            AppError::InternalError(_) => "Internal Server Error"@,
            AppError::Database { .. } => "Database Error"@,
        }
    }

    /// The template arguments built from this kind's structured payload.
    pub open spec fn args_spec(self) -> Seq<(Seq<char>, Seq<char>)> {
        match self {
            AppError::NotFound { resource, identifier } => seq![
                ("resource"@, resource@),
                ("identifier"@, identifier@),
            ],
            AppError::Conflict { resource, identifier } => seq![
                ("resource"@, resource@),
                ("identifier"@, identifier@),
            ],
            AppError::ValidationError(m) => seq![("message"@, m@)],
            AppError::BadRequest(m) => seq![("message"@, m@)],
            AppError::Unauthorized(m) => seq![("message"@, m@)],
            AppError::Forbidden(m) => seq![("message"@, m@)],
            AppError::InternalError(m) => seq![("message"@, m@)],
            AppError::Database { message } => seq![("message"@, message@)],
        }
    }

    /// The application code of this kind.
    pub fn app_code(&self) -> (r: AppCode)
        ensures
            r == self.app_code_spec(),
    {
        match self {
            AppError::ValidationError(_) => AppCode::BadRequest,
            AppError::BadRequest(_) => AppCode::BadRequest,
            AppError::Unauthorized(_) => AppCode::Unauthorized,
            AppError::Forbidden(_) => AppCode::Forbidden,
            AppError::NotFound { .. } => AppCode::NotFound,
            AppError::Conflict { .. } => AppCode::Conflict,
            AppError::InternalError(_) => AppCode::InternalError,
            AppError::Database { .. } => AppCode::InternalError,
        }
    }

    /// The stable numeric code of this kind.
    pub fn code(&self) -> (r: i32)
        ensures
            r == self.code_spec(),
    {
        self.app_code().code()
    }

    /// The HTTP-equivalent status of this kind.
    pub fn http_status(&self) -> (r: u16)
        ensures
            r == self.status_spec(),
    {
        match self {
            AppError::ValidationError(_) => 400,
            AppError::BadRequest(_) => 400,
            AppError::Unauthorized(_) => 401,
            AppError::Forbidden(_) => 403,
            AppError::NotFound { .. } => 404,
            AppError::Conflict { .. } => 409,
            AppError::InternalError(_) => 500,
            AppError::Database { .. } => 500,
        }
    }

    /// The message key this kind renders under.
    pub fn as_key(&self) -> (r: &'static str)
        ensures
            r@ == self.key_spec(),
    {
        match self {
            AppError::ValidationError(_) => "error-validation",
            AppError::BadRequest(_) => "error-bad_request",
            AppError::Unauthorized(_) => "error-unauthorized",
            AppError::Forbidden(_) => "error-forbidden",
            AppError::NotFound { .. } => "error-not_found",
            AppError::Conflict { .. } => "error-conflict",
            AppError::InternalError(_) => "error-internal",
            AppError::Database { .. } => "error-database",
        }
    }

    /// The fixed locale-agnostic fallback description of this kind.
    pub fn description(&self) -> (r: &'static str)
        ensures
            r@ == self.description_spec(),
    {
        match self {
            AppError::ValidationError(_) => "Validation failed",
            AppError::BadRequest(_) => "Bad Request",
            AppError::Unauthorized(_) => "Unauthorized",
            AppError::Forbidden(_) => "Forbidden",
            AppError::NotFound { .. } => "Not Found",
            AppError::Conflict { .. } => "Conflict",
            AppError::InternalError(_) => "Internal Server Error",
            AppError::Database { .. } => "Database Error",
        }
    }

    /// The template arguments built from this kind's structured payload.
    pub fn to_args(&self) -> (r: TranslateArgs)
        ensures
            r.view_spec() == self.args_spec(),
            r.wf(),
    {
        let mut pairs: Vec<(String, String)> = Vec::new();
        match self {
            AppError::NotFound { resource, identifier } => {
                pairs.push((String::from_str("resource"), resource.clone()));
                pairs.push((String::from_str("identifier"), identifier.clone()));
                proof {
                    reveal_strlit("resource");
                    reveal_strlit("identifier");
                    assert(pair_views(pairs@) =~= self.args_spec());
                    assert("resource"@.len() != "identifier"@.len());
                    assert forall|x: int, y: int|
                        0 <= x < y < pair_views(pairs@).len() implies (#[trigger] pair_views(
                        pairs@,
                    )[x]).0 != (#[trigger] pair_views(pairs@)[y]).0 by {
                        assert(x == 0 && y == 1);
                    }
                }
            }
            AppError::Conflict { resource, identifier } => {
                pairs.push((String::from_str("resource"), resource.clone()));
                pairs.push((String::from_str("identifier"), identifier.clone()));
                proof {
                    reveal_strlit("resource");
                    reveal_strlit("identifier");
                    assert(pair_views(pairs@) =~= self.args_spec());
                    assert("resource"@.len() != "identifier"@.len());
                    assert forall|x: int, y: int|
                        0 <= x < y < pair_views(pairs@).len() implies (#[trigger] pair_views(
                        pairs@,
                    )[x]).0 != (#[trigger] pair_views(pairs@)[y]).0 by {
                        assert(x == 0 && y == 1);
                    }
                }
            }
            AppError::ValidationError(m) => {
                pairs.push((String::from_str("message"), m.clone()));
                proof {
                    assert(pair_views(pairs@) =~= self.args_spec());
                }
            }
            AppError::BadRequest(m) => {
                pairs.push((String::from_str("message"), m.clone()));
                proof {
                    assert(pair_views(pairs@) =~= self.args_spec());
                }
            }
            AppError::Unauthorized(m) => {
                pairs.push((String::from_str("message"), m.clone()));
                proof {
                    assert(pair_views(pairs@) =~= self.args_spec());
                }
            }
            AppError::Forbidden(m) => {
                pairs.push((String::from_str("message"), m.clone()));
                proof {
                    assert(pair_views(pairs@) =~= self.args_spec());
                }
            }
            AppError::InternalError(m) => {
                pairs.push((String::from_str("message"), m.clone()));
                proof {
                    assert(pair_views(pairs@) =~= self.args_spec());
                }
            }
            AppError::Database { message } => {
                pairs.push((String::from_str("message"), message.clone()));
                proof {
                    assert(pair_views(pairs@) =~= self.args_spec());
                }
            }
        }
        TranslateArgs { pairs }
    }
}

} // verus!
