//! A fixed two-language message renderer over built-in templates: a
//! self-contained fallback path that needs no loaded resources. Each error
//! kind and language pair picks one built-in template; pairs without a
//! template of their own degrade to the English internal-error text.
use vstd::prelude::*;
use vstd::string::StrSliceExecFns;
use vstd::string::StringExecFns;
use crate::error::{AppCode, AppError};
use crate::locale::lower_char;

verus! {

/// The two built-in languages of the fixed renderer.
#[derive(Debug, Clone, Copy, PartialEq, Eq, Structural)]
pub enum Language {
    English,
    Chinese,
}

/// Chinese exactly when the header starts with `zh`, case-insensitively.
pub open spec fn language_from_header_spec(h: Seq<char>) -> Language {
    if h.len() >= 2 && lower_char(h[0]) == 'z' && lower_char(h[1]) == 'h' {
        Language::Chinese
    } else {
        Language::English
    }
}

impl Language {
    /// Picks the language from a raw preference header; see
    /// [`language_from_header_spec`].
    pub fn from_header(header: &str) -> (r: Language)
        ensures
            r == language_from_header_spec(header@),
    {
        if header.unicode_len() >= 2 {
            let c0 = header.get_char(0);
            let c1 = header.get_char(1);
            if (c0 == 'z' || c0 == 'Z') && (c1 == 'h' || c1 == 'H') {
                return Language::Chinese;
            }
        }
        Language::English
    }
}

/// Renders error messages from the built-in templates.
#[derive(Debug)]
pub struct MessageRenderer;

/// The text the fixed renderer produces for an error in a language: the
/// kind's payload substituted into the built-in template for its code, with
/// the English internal-error text for every pair that has no template.
pub open spec fn fixed_message_spec(e: AppError, lang: Language) -> Seq<char> {
    match (e.app_code_spec(), lang) {
        (AppCode::NotFound, Language::English) => "The "@ + fixed_resource_spec(e)
            + " with identifier '"@ + fixed_identifier_spec(e) + "' was not found."@,
        (AppCode::NotFound, Language::Chinese) => "未找到资源 "@ + fixed_resource_spec(e)
            + "，标识符 '"@ + fixed_identifier_spec(e) + "' 不存在。"@,
        (AppCode::Conflict, Language::English) => "The "@ + fixed_resource_spec(e)
            + " with identifier '"@ + fixed_identifier_spec(e) + "' already exists."@,
        (AppCode::Conflict, Language::Chinese) => "资源 "@ + fixed_resource_spec(e)
            + "，标识符 '"@ + fixed_identifier_spec(e) + "' 已存在。"@,
        (AppCode::BadRequest, Language::English) => "Bad request: "@ + fixed_message_arg_spec(e)
            + "."@,
        (AppCode::BadRequest, Language::Chinese) => "请求错误: "@ + fixed_message_arg_spec(e)
            + "。"@,
        (AppCode::InternalError, Language::Chinese) =>
            "服务器内部错误，请稍后重试。"@,
        _ => "An internal server error occurred. Please try again later."@,
    }
}

/// The resource named by a not-found or conflict error; empty otherwise.
pub open spec fn fixed_resource_spec(e: AppError) -> Seq<char> {
    match e {
        AppError::NotFound { resource, .. } => resource@,
        AppError::Conflict { resource, .. } => resource@,
        _ => Seq::empty(),
    }
}

/// The identifier named by a not-found or conflict error; empty otherwise.
pub open spec fn fixed_identifier_spec(e: AppError) -> Seq<char> {
    match e {
        AppError::NotFound { identifier, .. } => identifier@,
        AppError::Conflict { identifier, .. } => identifier@,
        _ => Seq::empty(),
    }
}

/// The free-text payload of a message-bearing error; empty otherwise.
pub open spec fn fixed_message_arg_spec(e: AppError) -> Seq<char> {
    match e {
        AppError::ValidationError(m) => m@,
        AppError::BadRequest(m) => m@,
        AppError::Unauthorized(m) => m@,
        AppError::Forbidden(m) => m@,
        AppError::InternalError(m) => m@,
        AppError::Database { .. } => "A database error occurred."@,
        _ => Seq::empty(),
    }
}

impl MessageRenderer {
    /// Renders the built-in message for an error in a language; see
    /// [`fixed_message_spec`].
    pub fn render(error: &AppError, language: Language) -> (r: String)
        ensures
            r@ == fixed_message_spec(*error, language),
    {
        let code = error.app_code();
        match (code, language) {
            (AppCode::NotFound, Language::English) => {
                let mut out = String::from_str("The ");
                out.append(fixed_resource(error).as_str());
                out.append(" with identifier '");
                out.append(fixed_identifier(error).as_str());
                out.append("' was not found.");
                out
            }
            (AppCode::NotFound, Language::Chinese) => {
                let mut out = String::from_str("未找到资源 ");
                out.append(fixed_resource(error).as_str());
                out.append("，标识符 '");
                out.append(fixed_identifier(error).as_str());
                out.append("' 不存在。");
                out
            }
            (AppCode::Conflict, Language::English) => {
                let mut out = String::from_str("The ");
                out.append(fixed_resource(error).as_str());
                out.append(" with identifier '");
                out.append(fixed_identifier(error).as_str());
                out.append("' already exists.");
                out
            }
            (AppCode::Conflict, Language::Chinese) => {
                let mut out = String::from_str("资源 ");
                out.append(fixed_resource(error).as_str());
                out.append("，标识符 '");
                out.append(fixed_identifier(error).as_str());
                out.append("' 已存在。");
                out
            }
            (AppCode::BadRequest, Language::English) => {
                let mut out = String::from_str("Bad request: ");
                out.append(fixed_message_arg(error).as_str());
                out.append(".");
                out
            }
            (AppCode::BadRequest, Language::Chinese) => {
                let mut out = String::from_str("请求错误: ");
                out.append(fixed_message_arg(error).as_str());
                out.append("。");
                out
            }
            (AppCode::InternalError, Language::Chinese) => {
                String::from_str("服务器内部错误，请稍后重试。")
            }
            _ => String::from_str("An internal server error occurred. Please try again later."),
        }
    }
}

/// The resource payload as an owned string; see [`fixed_resource_spec`].
fn fixed_resource(e: &AppError) -> (r: String)
    ensures
        r@ == fixed_resource_spec(*e),
{
    match e {
        AppError::NotFound { resource, .. } => resource.clone(),
        AppError::Conflict { resource, .. } => resource.clone(),
        _ => String::new(),
    }
}

/// The identifier payload as an owned string; see [`fixed_identifier_spec`].
fn fixed_identifier(e: &AppError) -> (r: String)
    ensures
        r@ == fixed_identifier_spec(*e),
{
    match e {
        AppError::NotFound { identifier, .. } => identifier.clone(),
        AppError::Conflict { identifier, .. } => identifier.clone(),
        _ => String::new(),
    }
}

/// The free-text payload as an owned string; see [`fixed_message_arg_spec`].
fn fixed_message_arg(e: &AppError) -> (r: String)
    ensures
        r@ == fixed_message_arg_spec(*e),
{
    match e {
        AppError::ValidationError(m) => m.clone(),
        AppError::BadRequest(m) => m.clone(),
        AppError::Unauthorized(m) => m.clone(),
        AppError::Forbidden(m) => m.clone(),
        AppError::InternalError(m) => m.clone(),
        AppError::Database { .. } => String::from_str("A database error occurred."),
        _ => String::new(),
    }
}

} // verus!
