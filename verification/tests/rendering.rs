use uniquant::backend::TranslationBackend;
use uniquant::context::{begin_request, raw_locale_from_header, RequestContext};
use uniquant::error::{AppCode, AppError};
use uniquant::message::{Language, MessageRenderer};
use uniquant::renderer::render_error;
use uniquant::response::APIResponse;

fn backend() -> TranslationBackend {
    let sources = vec![
        (
            "en".to_string(),
            "error-not_found = Not found: {resource}/{identifier}\n\
             error-bad_request = Bad request: {message}.\n"
                .to_string(),
        ),
        (
            "zh-CN".to_string(),
            "error-not_found = 未找到: {resource}/{identifier}\n\
             error-bad_request = 请求错误: {message}。\n"
                .to_string(),
        ),
    ];
    TranslationBackend::load_resources(&sources, "en").unwrap()
}

fn ctx(id: &str, lang: &str) -> RequestContext {
    RequestContext::new(id.to_string(), lang.to_string())
}

fn not_found(resource: &str, identifier: &str) -> AppError {
    AppError::NotFound {
        resource: resource.to_string(),
        identifier: identifier.to_string(),
    }
}

#[test]
fn not_found_maps_to_404_and_4004_in_every_locale() {
    let b = backend();
    let e = not_found("Instrument", "42");
    let en = render_error(&b, Some(&ctx("r1", "en")), &e);
    let zh = render_error(&b, Some(&ctx("r2", "zh-CN")), &e);
    assert_eq!(en.status, 404);
    assert_eq!(en.code, 4004);
    assert_eq!(zh.status, 404);
    assert_eq!(zh.code, 4004);
    assert_eq!(en.message, "Not found: Instrument/42");
    assert_eq!(zh.message, "未找到: Instrument/42");
    assert_ne!(en.message, zh.message);
}

#[test]
fn unknown_key_falls_back_to_description() {
    let b = backend();
    // No resource binds the conflict key, so its fixed description is used.
    let e = AppError::Conflict {
        resource: "Instrument".to_string(),
        identifier: "7".to_string(),
    };
    let r = render_error(&b, Some(&ctx("r1", "en")), &e);
    assert_eq!(r.status, 409);
    assert_eq!(r.code, 4009);
    assert_eq!(r.message, "Conflict");
}

#[test]
fn rendering_without_context_uses_current_locale() {
    let mut b = backend();
    let e = not_found("Instrument", "7");
    let before = render_error(&b, None, &e);
    assert_eq!(before.message, "Not found: Instrument/7");
    b.set_locale(&uniquant::locale::Locale::parse("zh-CN").unwrap())
        .unwrap();
    let after = render_error(&b, None, &e);
    assert_eq!(after.message, "未找到: Instrument/7");
}

#[test]
fn negotiation_is_applied_to_the_request_header() {
    let b = backend();
    let e = AppError::BadRequest("oops".to_string());
    let r = render_error(&b, Some(&ctx("r1", "zh-CN;q=0.9,en;q=0.1")), &e);
    assert_eq!(r.status, 400);
    assert_eq!(r.code, 4000);
    assert_eq!(r.message, "请求错误: oops。");
    // An exact match outranks a higher-quality primary-subtag match: here
    // `en` (exact, q=0.1) wins over `zh` (primary match only, q=0.9).
    let r2 = render_error(&b, Some(&ctx("r2", "zh;q=0.9,en;q=0.1")), &e);
    assert_eq!(r2.message, "Bad request: oops.");
}

#[test]
fn concurrent_requests_keep_their_own_context() {
    let b = backend();
    let e = not_found("Instrument", "42");
    // Two in-flight requests with different raw locales, negotiated in
    // interleaved order: each sees only its own language.
    let c1 = ctx("request-1", "zh-CN");
    let c2 = ctx("request-2", "en");
    let r1a = render_error(&b, Some(&c1), &e);
    let r2 = render_error(&b, Some(&c2), &e);
    let r1b = render_error(&b, Some(&c1), &e);
    assert_eq!(r1a.message, "未找到: Instrument/42");
    assert_eq!(r2.message, "Not found: Instrument/42");
    assert_eq!(r1b.message, r1a.message);
    // Request ids play no part in what is rendered.
    let other_id = render_error(&b, Some(&ctx("request-3", "zh-CN")), &e);
    assert_eq!(other_id.message, r1a.message);
}

#[test]
fn raw_locale_keeps_the_whole_header() {
    assert_eq!(raw_locale_from_header(Some("zh-CN, en;q=0.5")), "zh-CN, en;q=0.5");
    assert_eq!(raw_locale_from_header(Some("  en ")), "  en ");
    assert_eq!(raw_locale_from_header(Some("")), "");
    assert_eq!(raw_locale_from_header(None), "en");
}

#[test]
fn context_carries_ranked_preferences_to_negotiation() {
    // The whole multi-element header flows into the context, so every ranked
    // element reaches negotiation: the exact zh-CN match wins here even
    // though it is listed second.
    let b = backend();
    let raw = raw_locale_from_header(Some("fr-FR, zh-CN;q=0.8, en;q=0.1"));
    let ctx = begin_request(raw, "req-ranked".to_string());
    let e = not_found("Instrument", "7");
    let r = render_error(&b, Some(&ctx), &e);
    assert_eq!(r.message, "未找到: Instrument/7");
}

#[test]
fn app_codes_are_stable() {
    assert_eq!(AppCode::Success.code(), 0);
    assert_eq!(AppCode::BadRequest.code(), 4000);
    assert_eq!(AppCode::Unauthorized.code(), 4001);
    assert_eq!(AppCode::Forbidden.code(), 4003);
    assert_eq!(AppCode::NotFound.code(), 4004);
    assert_eq!(AppCode::Conflict.code(), 4009);
    assert_eq!(AppCode::InternalError.code(), 5000);
    assert_eq!(AppCode::NotFound.message(), "Not Found");
}

#[test]
fn every_kind_maps_to_a_status_and_code() {
    let cases: Vec<(AppError, u16, i32)> = vec![
        (AppError::ValidationError("v".into()), 400, 4000),
        (AppError::BadRequest("b".into()), 400, 4000),
        (AppError::Unauthorized("u".into()), 401, 4001),
        (AppError::Forbidden("f".into()), 403, 4003),
        (not_found("R", "1"), 404, 4004),
        (
            AppError::Conflict { resource: "R".into(), identifier: "1".into() },
            409,
            4009,
        ),
        (AppError::InternalError("i".into()), 500, 5000),
        (AppError::Database { message: "d".into() }, 500, 5000),
    ];
    for (e, status, code) in cases {
        assert_eq!(e.http_status(), status, "{:?}", e);
        assert_eq!(e.code(), code, "{:?}", e);
    }
}

#[test]
fn language_from_header_checks_the_prefix() {
    assert_eq!(Language::from_header("zh-CN"), Language::Chinese);
    assert_eq!(Language::from_header("ZH"), Language::Chinese);
    assert_eq!(Language::from_header("zH-TW,en"), Language::Chinese);
    assert_eq!(Language::from_header("en-US"), Language::English);
    assert_eq!(Language::from_header("z"), Language::English);
    assert_eq!(Language::from_header(""), Language::English);
}

#[test]
fn fixed_renderer_substitutes_payloads() {
    let e = not_found("Instrument", "7");
    assert_eq!(
        MessageRenderer::render(&e, Language::English),
        "The Instrument with identifier '7' was not found."
    );
    assert_eq!(
        MessageRenderer::render(&e, Language::Chinese),
        "未找到资源 Instrument，标识符 '7' 不存在。"
    );
    let c = AppError::Conflict { resource: "User".into(), identifier: "9".into() };
    assert_eq!(
        MessageRenderer::render(&c, Language::English),
        "The User with identifier '9' already exists."
    );
    assert_eq!(
        MessageRenderer::render(&c, Language::Chinese),
        "资源 User，标识符 '9' 已存在。"
    );
    let b = AppError::BadRequest("Alice".into());
    assert_eq!(
        MessageRenderer::render(&b, Language::English),
        "Bad request: Alice."
    );
    assert_eq!(
        MessageRenderer::render(&b, Language::Chinese),
        "请求错误: Alice。"
    );
}

#[test]
fn fixed_renderer_degrades_to_internal_text() {
    let internal = "An internal server error occurred. Please try again later.";
    let u = AppError::Unauthorized("nope".into());
    assert_eq!(MessageRenderer::render(&u, Language::English), internal);
    assert_eq!(MessageRenderer::render(&u, Language::Chinese), internal);
    let i = AppError::InternalError("x".into());
    assert_eq!(MessageRenderer::render(&i, Language::English), internal);
    assert_eq!(
        MessageRenderer::render(&i, Language::Chinese),
        "服务器内部错误，请稍后重试。"
    );
    let d = AppError::Database { message: "hidden".into() };
    assert_eq!(MessageRenderer::render(&d, Language::English), internal);
}

#[test]
fn response_envelopes_carry_code_and_data() {
    let ok = APIResponse::success(5_i32);
    assert!(ok.success);
    assert_eq!(ok.code, 0);
    assert_eq!(ok.message, "Success");
    assert_eq!(ok.data, Some(5));

    let custom = APIResponse::success_with_message(7_i32, "done".to_string());
    assert!(custom.success);
    assert_eq!(custom.message, "done");

    let err = APIResponse::<()>::error(
        AppError::NotFound { resource: "R".into(), identifier: "1".into() },
        "Not found".to_string(),
    );
    assert!(!err.success);
    assert_eq!(err.code, 4004);
    assert_eq!(err.message, "Not found");
    assert!(err.data.is_none());
}
