//! The error renderer: turns an application failure into a wire-ready
//! triple of status, code, and localized message. The status and code come
//! from the taxonomy alone; the message is negotiated and rendered, and a
//! render failure degrades to the kind's fixed description — producing a
//! response never fails.
use vstd::prelude::*;
use vstd::string::StringExecFns;
use crate::backend::{translate_spec, TranslationBackend};
use crate::context::RequestContext;
use crate::error::AppError;
use crate::locale::LocaleSpec;
use crate::negotiate::{negotiate_spec, parse_header_spec};
use crate::store::StoreEntrySpec;

verus! {

/// A wire-ready error response: HTTP-equivalent status, stable code, and the
/// message in the negotiated language. Produced fresh per error and never
/// cached, since the message is locale-dependent.
#[derive(Debug)]
pub struct RenderedError {
    pub status: u16,
    pub code: i32,
    pub message: String,
}

/// The locale a request renders in: negotiated from its own raw locale when
/// a context is bound, the backend's current locale otherwise.
pub open spec fn render_locale_spec(
    store: Seq<StoreEntrySpec>,
    default: LocaleSpec,
    current: LocaleSpec,
    raw_locale: Option<Seq<char>>,
) -> LocaleSpec {
    match raw_locale {
        Some(raw) => negotiate_spec(
            parse_header_spec(raw),
            store.map_values(|e: StoreEntrySpec| e.0),
            default,
        ),
        None => current,
    }
}

/// The message a request sees for an error: the localized rendering of the
/// error's key with its structured arguments, or the kind's fixed
/// description when the resolved bundle lacks the key.
pub open spec fn error_message_spec(
    store: Seq<StoreEntrySpec>,
    default: LocaleSpec,
    current: LocaleSpec,
    raw_locale: Option<Seq<char>>,
    e: AppError,
) -> Seq<char> {
    let loc = render_locale_spec(store, default, current, raw_locale);
    match translate_spec(store, loc, default, e.key_spec(), e.args_spec()) {
        Some(m) => m,
        None => e.description_spec(),
    }
}

/// Renders an error for one request: the status and code are functions of
/// the error kind alone, and the message is negotiated from the request's
/// own raw locale (or the backend's current locale when no context is
/// bound). Rendering never fails; see [`error_message_spec`].
pub fn render_error(
    backend: &TranslationBackend,
    ctx: Option<&RequestContext>,
    error: &AppError,
) -> (r: RenderedError)
    requires
        backend.wf(),
    ensures
        r.status == error.status_spec(),
        r.code == error.code_spec(),
        r.message@ == error_message_spec(
            backend.store.view_spec(),
            backend.default_locale.view_spec(),
            backend.current_locale.view_spec(),
            match ctx {
                Some(c) => Some(c.lang@),
                None => None,
            },
            *error,
        ),
{
    let locale = match ctx {
        Some(c) => backend.negotiate_locale(c.lang.as_str()),
        None => backend.current_locale(),
    };
    let args = error.to_args();
    let message = match backend.translate(error.as_key(), &locale, &args) {
        Ok(m) => m,
        Err(_) => String::from_str(error.description()),
    };
    RenderedError { status: error.http_status(), code: error.code(), message }
}

/// Law: a missing resource maps to the HTTP status 404 and the stable code
/// 4004, whatever resource and identifier it names — and, since the rendered
/// status and code are stated over the error kind alone, whatever locale any
/// request negotiates; only the message text varies.
pub proof fn lemma_not_found_status_code(resource: String, identifier: String)
    ensures
        (AppError::NotFound { resource, identifier }).status_spec() == 404,
        (AppError::NotFound { resource, identifier }).code_spec() == 4004,
{
}

/// Law: an unknown key never fails the response — when the resolved bundle
/// does not bind the error's key, the rendered message is exactly the
/// kind's fixed fallback description.
pub proof fn lemma_missing_key_falls_back(
    store: Seq<StoreEntrySpec>,
    default: LocaleSpec,
    current: LocaleSpec,
    raw_locale: Option<Seq<char>>,
    e: AppError,
)
    requires
        translate_spec(
            store,
            render_locale_spec(store, default, current, raw_locale),
            default,
            e.key_spec(),
            e.args_spec(),
        ) is None,
    ensures
        error_message_spec(store, default, current, raw_locale, e) == e.description_spec(),
{
}

/// Law: two requests rendering concurrently cannot observe each other's
/// context. The rendered triple is a function of the shared immutable
/// backend, the error, and the request's own raw locale alone: two contexts
/// with equal raw locales yield equal triples whatever their request
/// identifiers, and neither context appears in the other's rendering.
pub proof fn lemma_request_isolation(
    store: Seq<StoreEntrySpec>,
    default: LocaleSpec,
    current: LocaleSpec,
    ctx1: RequestContext,
    ctx2: RequestContext,
    e: AppError,
)
    requires
        ctx1.lang@ == ctx2.lang@,
    ensures
        render_locale_spec(store, default, current, Some(ctx1.lang@)) == render_locale_spec(
            store,
            default,
            current,
            Some(ctx2.lang@),
        ),
        error_message_spec(store, default, current, Some(ctx1.lang@), e) == error_message_spec(
            store,
            default,
            current,
            Some(ctx2.lang@),
            e,
        ),
{
}

} // verus!
