use walnuk::config::logger::LogFormat;
use walnuk::config::{load, ConfigError};
use walnuk::handler::{
    admin_access_item, admin_link_item, required_id, resolve, validate_target_url, HandlerError,
    Resolution,
};
use walnuk::id::ID;
use walnuk::models::{non_empty, or_empty, AccessLogEntry, CreateMeta, LastAccess, ShortUrlState, ShortenedURL};
use walnuk::paging::{
    access_log_limit, decode_cursor, decode_page_state, encode_cursor, encode_page_state,
    page_limit,
};
use walnuk::write::{follow_up, interpret_insert, InsertOutcome, InsertReply, StoreError};

fn link(id: &str, url: &str, t: i64) -> ShortenedURL {
    ShortenedURL { id: ID(id.to_string()), original_url: url.to_string(), created_at: t, expires_at: None }
}

#[test]
fn insert_without_reply_or_applied_is_a_win() {
    assert!(matches!(interpret_insert(link("a", "u", 1), None), Ok(InsertOutcome::Applied(_))));
    let reply = InsertReply { applied: true, existing_url: None, existing_created_at: None, existing_expires_at: None };
    match interpret_insert(link("a", "u", 1), Some(reply)) {
        Ok(InsertOutcome::Applied(l)) => assert_eq!((l.original_url.as_str(), l.created_at), ("u", 1)),
        _ => panic!("expected an applied insert"),
    }
}

#[test]
fn insert_conflict_returns_existing_row() {
    let reply = InsertReply {
        applied: false,
        existing_url: Some("https://first/".to_string()),
        existing_created_at: Some(5),
        existing_expires_at: Some(9),
    };
    match interpret_insert(link("a", "https://second/", 7), Some(reply)) {
        Ok(InsertOutcome::Conflict(l)) => {
            assert_eq!(l.id, ID("a".to_string()));
            assert_eq!(l.original_url, "https://first/");
            assert_eq!(l.created_at, 5);
            assert_eq!(l.expires_at, Some(9));
        }
        _ => panic!("expected a conflict"),
    }
}

#[test]
fn insert_conflict_without_columns_is_a_store_error() {
    let reply = InsertReply { applied: false, existing_url: None, existing_created_at: Some(5), existing_expires_at: None };
    assert_eq!(interpret_insert(link("a", "u", 1), Some(reply)).err(), Some(StoreError::MissingColumn));
    let reply = InsertReply { applied: false, existing_url: Some("u".to_string()), existing_created_at: None, existing_expires_at: None };
    assert_eq!(interpret_insert(link("a", "u", 1), Some(reply)).err(), Some(StoreError::MissingColumn));
    let reply = InsertReply { applied: false, existing_url: Some("no url".to_string()), existing_created_at: Some(1), existing_expires_at: None };
    assert_eq!(interpret_insert(link("a", "u", 1), Some(reply)).err(), Some(StoreError::InvalidStoredUrl));
}

#[test]
fn follow_up_writes_only_after_a_win() {
    let won = interpret_insert(link("a", "https://t/", 7), None).ok().unwrap();
    let f = follow_up(&won).unwrap();
    assert!(f.state.enabled);
    assert_eq!((f.state.disabled_at, f.state.updated_at), (None, 7));
    assert_eq!(f.index_row.id, ID("a".to_string()));
    let reply = InsertReply { applied: false, existing_url: Some("https://t/".to_string()), existing_created_at: Some(1), existing_expires_at: None };
    let lost = interpret_insert(link("a", "https://u/", 7), Some(reply)).ok().unwrap();
    assert!(follow_up(&lost).is_none());
}

#[test]
fn issued_page_tokens_decode_back() {
    for raw in [vec![1u8], vec![0, 0, 0, 0, 0, 0, 0, 9], vec![255; 17]] {
        let token = encode_page_state(&raw);
        assert_eq!(decode_page_state(Some(&token)), Ok(Some(raw)));
    }
}

#[test]
fn limits_default_and_clamp() {
    assert_eq!(page_limit(None), 20);
    assert_eq!(page_limit(Some(0)), 1);
    assert_eq!(page_limit(Some(-5)), 1);
    assert_eq!(page_limit(Some(55)), 55);
    assert_eq!(page_limit(Some(1000)), 100);
    assert_eq!(access_log_limit(None), 100);
    assert_eq!(access_log_limit(Some(0)), 1);
    assert_eq!(access_log_limit(Some(501)), 500);
}

#[test]
fn cursor_round_trip() {
    for n in [0u64, 1, 255, 256, 123456789, u64::MAX] {
        let c = encode_cursor(n);
        assert_eq!(c.len(), 8);
        assert_eq!(decode_cursor(&c), Some(n));
    }
    assert_eq!(encode_cursor(258), vec![0, 0, 0, 0, 0, 0, 1, 2]);
    assert_eq!(decode_cursor(&vec![1, 2]), None);
}

#[test]
fn page_state_tokens() {
    assert_eq!(encode_page_state(&vec![0, 1, 2]), "AAEC");
    assert_eq!(encode_page_state(&vec![251, 255]), "-_8");
    assert_eq!(decode_page_state(Some("AAEC")), Ok(Some(vec![0, 1, 2])));
    assert_eq!(decode_page_state(Some("  -_8 ")), Ok(Some(vec![251, 255])));
    assert_eq!(decode_page_state(Some("   ")), Ok(None));
    assert_eq!(decode_page_state(None), Ok(None));
    assert_eq!(decode_page_state(Some("a+b/")), Err(()));
}

#[test]
fn target_url_is_trimmed_required_and_parsed() {
    match validate_target_url("   ") {
        Err(HandlerError::ParamError(m)) => assert_eq!(m, "The 'url' parameter is required."),
        _ => panic!("blank url accepted"),
    }
    match validate_target_url("not a url") {
        Err(HandlerError::ParamError(m)) => assert_eq!(m, "Invalid URL format"),
        _ => panic!("invalid url accepted"),
    }
    assert_eq!(validate_target_url("  https://Example.com  ").ok(), Some("https://example.com/".to_string()));
}

#[test]
fn access_log_id_is_required() {
    assert!(matches!(required_id("  "), Err(HandlerError::ParamError(_))));
    assert_eq!(required_id(" abc ").ok(), Some(ID("abc".to_string())));
    assert_eq!(required_id(" ABC1 ").ok(), Some(ID("ABci".to_string())));
}

#[test]
fn errors_map_to_status_and_message() {
    assert_eq!(HandlerError::ParamError("bad".to_string()).status_code(), 400);
    assert_eq!(HandlerError::ParamError("bad".to_string()).message(), "bad");
    assert_eq!(HandlerError::DBError(StoreError::AllocationExhausted).status_code(), 500);
    assert_eq!(HandlerError::DBError(StoreError::MissingColumn).message(), "Internal Server Error");
    assert_eq!(HandlerError::NotFound.status_code(), 404);
    assert_eq!(HandlerError::NotFound.message(), "URL not found");
    assert_eq!(HandlerError::Disabled.status_code(), 410);
    assert_eq!(HandlerError::Disabled.message(), "URL disabled");
}

#[test]
fn resolution_follows_link_and_state() {
    let l = link("a", "https://t/", 1);
    assert!(matches!(resolve(None, None), Resolution::NotFound));
    let off = ShortUrlState { id: ID("a".to_string()), enabled: false, disabled_at: Some(3), updated_at: 3 };
    let on = ShortUrlState { id: ID("a".to_string()), enabled: true, disabled_at: None, updated_at: 4 };
    assert!(matches!(resolve(Some(&l), Some(&off)), Resolution::Disabled));
    assert_eq!(resolve(Some(&l), Some(&off)).status_code(), 410);
    match resolve(Some(&l), Some(&on)) {
        Resolution::Redirect(u) => assert_eq!(u, "https://t/"),
        _ => panic!("expected a redirect"),
    }
    assert_eq!(resolve(Some(&l), None).status_code(), 308);
    assert_eq!(resolve(None, Some(&on)).status_code(), 404);
    assert!(matches!(resolve(Some(&l), Some(&off)).error(), Some(HandlerError::Disabled)));
}

#[test]
fn admin_items_fill_defaults() {
    let item = admin_link_item(link("a", "https://t/", 1), None, None, None);
    assert!(item.enabled);
    assert_eq!(item.disabled_at, None);
    assert_eq!(item.last_access_at, None);
    assert_eq!(item.creator_ip, None);
    let meta = CreateMeta { created_at: 1, ip: "1.1.1.1".to_string(), user_agent: String::new(), request_id: "r".to_string() };
    let st = ShortUrlState { id: ID("a".to_string()), enabled: false, disabled_at: Some(8), updated_at: 8 };
    let item = admin_link_item(link("a", "https://t/", 1), Some(st), Some(LastAccess { at: 9, status_code: 410 }), Some(meta));
    assert!(!item.enabled);
    assert_eq!(item.disabled_at, Some(8));
    assert_eq!(item.last_access_at, Some(9));
    assert_eq!(item.creator_ip.as_deref(), Some("1.1.1.1"));
    assert_eq!(item.creator_user_agent, None);
    assert_eq!(item.creator_request_id.as_deref(), Some("r"));

    let e = AccessLogEntry { ts: 4, ip: String::new(), user_agent: "ua".to_string(), request_id: String::new(), status_code: 308 };
    let a = admin_access_item(e);
    assert_eq!((a.ts, a.status_code), (4, 308));
    assert_eq!(a.ip, None);
    assert_eq!(a.user_agent.as_deref(), Some("ua"));
    assert_eq!(non_empty(String::new()), None);
    assert_eq!(or_empty(None), "");
    assert_eq!(or_empty(Some("x")), "x");
}

fn vars(pairs: &[(&str, &str)]) -> Vec<(String, String)> {
    pairs.iter().map(|(k, v)| (k.to_string(), v.to_string())).collect()
}

#[test]
fn config_defaults_and_overrides() {
    let c = load(&vars(&[("SCYLLA_URL", "db:9042")])).ok().unwrap();
    assert_eq!(c.handler.base_url, "http://localhost:8080");
    assert_eq!(c.handler.port, 8080);
    assert_eq!(c.logger.format, LogFormat::Json);
    assert_eq!(c.scylla.url, "db:9042");
    assert_eq!(c.scylla.user, "cassandra");
    assert_eq!(c.scylla.keyspace, "walnuk");
    assert_eq!(c.scylla.ca_cert_path, None);

    let c = load(&vars(&[
        ("SCYLLA_URL", "db"),
        ("PORT", "9000"),
        ("RUST_LOG_FORMAT", "TeXt"),
        ("SCYLLA_CA_CERT_PATH", "/ca.pem"),
    ]))
    .ok()
    .unwrap();
    assert_eq!(c.handler.port, 9000);
    let c2 = load(&vars(&[("SCYLLA_URL", "db"), ("PORT", "+080")])).ok().unwrap();
    assert_eq!(c2.handler.port, 80);
    assert_eq!(c.logger.format, LogFormat::Text);
    assert_eq!(c.scylla.ca_cert_path.as_deref(), Some("/ca.pem"));
}

#[test]
fn config_errors() {
    assert!(matches!(load(&vars(&[])), Err(ConfigError::EnvVarMissing { .. })));
    assert!(matches!(load(&vars(&[("SCYLLA_URL", "db"), ("PORT", "70000")])), Err(ConfigError::ParseError { .. })));
    assert!(matches!(
        load(&vars(&[("SCYLLA_URL", "db"), ("RUST_LOG_FORMAT", "yaml")])),
        Err(ConfigError::ParseError { .. })
    ));
    assert_eq!(LogFormat::parse("JSON"), Some(LogFormat::Json));
    assert_eq!(LogFormat::parse("jsonx"), None);
}
