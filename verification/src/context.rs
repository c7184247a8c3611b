//! Per-request context: an opaque request identifier and the raw locale
//! preference taken from the request. A context is created once per request,
//! handed explicitly to the code serving that request, and dropped when the
//! request finishes; no two requests ever share one.
use vstd::prelude::*;
use vstd::string::StringExecFns;

verus! {

/// The immutable per-request record.
#[derive(Debug)]
pub struct RequestContext {
    pub request_id: String,
    pub lang: String,
}

impl RequestContext {
    /// A fresh context for one request.
    pub fn new(request_id: String, lang: String) -> (r: RequestContext)
        ensures
            r.request_id@ == request_id@,
            r.lang@ == lang@,
    {
        RequestContext { request_id, lang }
    }
}

/// Opens the scope of one request: the boundary layer calls this once per
/// inbound request, before invoking business logic, and hands the returned
/// context down that request's call tree. Dropping the context ends the
/// scope; no other request can ever hold it.
pub fn begin_request(raw_locale: String, request_id: String) -> (r: RequestContext)
    ensures
        r.request_id@ == request_id@,
        r.lang@ == raw_locale@,
{
    RequestContext { request_id, lang: raw_locale }
}

/// The raw locale bound into a request's context: the whole preference
/// header, untouched — it may carry several ranked elements, and negotiation
/// reads them all — or `en` when no header came with the request.
pub open spec fn raw_locale_spec(header: Option<Seq<char>>) -> Seq<char> {
    match header {
        None => "en"@,
        Some(h) => h,
    }
}

/// Extracts the raw locale for a request from its optional preference
/// header, as the boundary layer does when it creates the context; see
/// [`raw_locale_spec`].
pub fn raw_locale_from_header(header: Option<&str>) -> (r: String)
    ensures
        r@ == raw_locale_spec(match header {
            Some(h) => Some(h@),
            None => None,
        }),
{
    match header {
        None => String::from_str("en"),
        Some(h) => h.to_owned(),
    }
}

} // verus!
