use uniquant::config::{AppConfig, DatabaseConfig, LoggingConfig, ServerConfig};
use uniquant::context::{begin_request, RequestContext};
use uniquant::diff::{diff_keys, resource_keys};
use uniquant::dto::{check_create_conflict, CreateInstrumentRequest, UpdateInstrumentRequest};
use uniquant::error::AppError;
use uniquant::store::LoadError;

fn lang(name: &str, keys: &[&str]) -> (String, Vec<String>) {
    (name.to_string(), keys.iter().map(|k| k.to_string()).collect())
}

#[test]
fn diff_reports_missing_keys_per_language() {
    let input = vec![lang("en", &["a", "b", "c"]), lang("zh-CN", &["a", "c"])];
    let d = diff_keys(&input);
    let mut all = d.all_keys.clone();
    all.sort();
    assert_eq!(all, vec!["a", "b", "c"]);
    assert_eq!(d.missing.len(), 1);
    assert_eq!(d.missing[0].0, "zh-CN");
    assert_eq!(d.missing[0].1, vec!["b"]);
    assert!(d.extra.is_empty());
}

#[test]
fn diff_of_consistent_languages_is_clean() {
    let input = vec![lang("en", &["a", "b"]), lang("zh-CN", &["b", "a"])];
    let d = diff_keys(&input);
    assert!(d.missing.is_empty());
    assert!(d.extra.is_empty());
    assert_eq!(d.all_keys.len(), 2);
}

#[test]
fn diff_of_nothing_is_empty() {
    let d = diff_keys(&Vec::new());
    assert!(d.all_keys.is_empty());
    assert!(d.missing.is_empty());
    assert!(d.extra.is_empty());
}

#[test]
fn resource_keys_lists_parsed_keys() {
    let sources = vec![
        ("en".to_string(), "a = x\nb = y\n".to_string()),
        ("zh-CN".to_string(), "a = z\n".to_string()),
    ];
    let keys = resource_keys(&sources).unwrap();
    assert_eq!(keys.len(), 2);
    assert_eq!(keys[0].0, "en");
    assert_eq!(keys[0].1, vec!["a", "b"]);
    assert_eq!(keys[1].0, "zh-CN");
    assert_eq!(keys[1].1, vec!["a"]);
}

#[test]
fn resource_keys_fails_on_malformed_resource() {
    let sources = vec![("en".to_string(), "not a line\n".to_string())];
    match resource_keys(&sources) {
        Err(LoadError::InvalidResource { name }) => assert_eq!(name, "en"),
        other => panic!("expected an invalid resource, got {:?}", other),
    }
}

#[test]
fn request_context_keeps_its_fields() {
    let c = RequestContext::new("id-1".to_string(), "zh-CN".to_string());
    assert_eq!(c.request_id, "id-1");
    assert_eq!(c.lang, "zh-CN");
    let s = begin_request("en-US".to_string(), "id-2".to_string());
    assert_eq!(s.request_id, "id-2");
    assert_eq!(s.lang, "en-US");
}

#[test]
fn create_request_length_rules() {
    let ok = CreateInstrumentRequest {
        exchange: "NASDAQ".to_string(),
        symbol: "AAPL".to_string(),
        asset_type: "stock".to_string(),
        name: "Apple Inc.".to_string(),
    };
    assert!(ok.validate());
    let empty_symbol = CreateInstrumentRequest { symbol: String::new(), ..ok };
    assert!(!empty_symbol.validate());
    let long_exchange = CreateInstrumentRequest {
        exchange: "x".repeat(51),
        symbol: "AAPL".to_string(),
        asset_type: "stock".to_string(),
        name: "Apple Inc.".to_string(),
    };
    assert!(!long_exchange.validate());
}

#[test]
fn update_request_checks_only_present_fields() {
    let empty = UpdateInstrumentRequest {
        id: 1,
        exchange: None,
        symbol: None,
        asset_type: None,
        name: None,
    };
    assert!(empty.validate());
    let bad = UpdateInstrumentRequest {
        id: 1,
        exchange: Some(String::new()),
        symbol: None,
        asset_type: None,
        name: None,
    };
    assert!(!bad.validate());
    let good = UpdateInstrumentRequest {
        id: 1,
        exchange: Some("NYSE".to_string()),
        symbol: Some("IBM".to_string()),
        asset_type: None,
        name: None,
    };
    assert!(good.validate());
}

#[test]
fn duplicate_instrument_is_a_conflict() {
    match check_create_conflict(true, "NASDAQ", "AAPL") {
        Err(AppError::Conflict { resource, identifier }) => {
            assert_eq!(resource, "NASDAQ");
            assert_eq!(identifier, "AAPL");
        }
        other => panic!("expected a conflict, got {:?}", other),
    }
    assert!(check_create_conflict(false, "NASDAQ", "AAPL").is_ok());
}

#[test]
fn config_rules_require_nonempty_url_and_addr() {
    let cfg = AppConfig {
        app_name: "uniquant".to_string(),
        database: DatabaseConfig { db_url: "sqlite://uniquant.db".to_string() },
        server: ServerConfig { addr: "127.0.0.1:8333".to_string() },
        logging: LoggingConfig {
            level: "debug".to_string(),
            directory: None,
            enable_otel_logging: false,
            otel_exporter_otlp_endpoint: None,
        },
    };
    assert!(cfg.validate());
    let bad = AppConfig {
        database: DatabaseConfig { db_url: String::new() },
        ..cfg
    };
    assert!(!bad.validate());
}
