use walnuk::handler::Resolution;
use walnuk::id::ID;
use walnuk::memstore::MemoryStore;
use walnuk::models::ShortenedURL;
use walnuk::write::StoreError;

fn url(s: &str) -> String {
    s.to_string()
}

#[test]
fn create_with_custom_id_then_find_normalized() {
    let mut store = MemoryStore::new();
    let link = store.create(url("https://example.com/a"), Some("MyLink"), Some(5000), 1000).unwrap();
    assert_eq!(link.id, ID("MyLink".to_string()));
    assert_eq!(link.original_url, "https://example.com/a");
    assert_eq!(link.created_at, 1000);
    assert_eq!(link.expires_at, Some(5000));

    let found = store.find_by_id(ID::new("MyL1nk".to_string())).unwrap();
    assert_eq!(found.id, link.id);
    assert_eq!(found.original_url, link.original_url);
    assert_eq!(found.created_at, link.created_at);
    assert_eq!(found.expires_at, link.expires_at);
    assert!(store.find_by_id(ID::new("other".to_string())).is_none());
}

#[test]
fn same_custom_id_converges_on_first_record() {
    let mut store = MemoryStore::new();
    let first = store.create(url("https://one.example/"), Some("Sale"), None, 10).unwrap();
    let second = store.create(url("https://two.example/"), Some("sa1e"), Some(99), 20).unwrap();
    assert_eq!(first.id, second.id);
    assert_eq!(second.original_url, "https://one.example/");
    assert_eq!(second.created_at, 10);
    assert_eq!(second.expires_at, None);
    let stored = store.find_by_id(first.id.clone()).unwrap();
    assert_eq!(stored.original_url, "https://one.example/");
    let (page, next) = store.list_by_created_at_page(100, None).unwrap();
    assert_eq!(page.len(), 1);
    assert!(next.is_none());
}

#[test]
fn generated_ids_advance_the_counter() {
    let mut store = MemoryStore::new();
    let a = store.create(url("https://a.example/"), None, None, 1).unwrap();
    let b = store.create(url("https://b.example/"), None, None, 2).unwrap();
    assert_eq!(a.id, ID::generate(1).unwrap());
    assert_eq!(b.id, ID::generate(2).unwrap());
    assert_ne!(a.id, b.id);
    let found = store.find_by_id(ID::new(b.id.0.clone())).unwrap();
    assert_eq!(found.original_url, "https://b.example/");
}

#[test]
fn create_initializes_enabled_state() {
    let mut store = MemoryStore::new();
    let l = store.create(url("https://a.example/"), Some("x1"), None, 7).unwrap();
    let st = store.get_state(&l.id.0).unwrap();
    assert!(st.enabled);
    assert_eq!(st.disabled_at, None);
    assert_eq!(st.updated_at, 7);
}

fn ids(page: &[ShortenedURL]) -> Vec<String> {
    page.iter().map(|l| l.id.0.clone()).collect()
}

#[test]
fn paging_by_two_walks_five_links_newest_first() {
    let mut store = MemoryStore::new();
    for (i, name) in ["aa", "bb", "dd", "ee", "ff"].iter().enumerate() {
        store.create(url("https://example.com/"), Some(name), None, 100 + i as i64).unwrap();
    }
    let mut all = Vec::new();
    let mut cursor = None;
    let mut pages = 0;
    loop {
        let (page, next) = store.list_by_created_at_page(2, cursor).unwrap();
        assert!(page.len() <= 2);
        all.extend(ids(&page));
        pages += 1;
        match next {
            Some(c) => cursor = Some(c),
            None => break,
        }
    }
    assert_eq!(pages, 3);
    assert_eq!(all, vec!["ff", "ee", "dd", "bb", "aa"]);
}

#[test]
fn equal_creation_times_sort_by_id() {
    let mut store = MemoryStore::new();
    store.create(url("https://example.com/"), Some("mm"), None, 5).unwrap();
    store.create(url("https://example.com/"), Some("bb"), None, 5).unwrap();
    store.create(url("https://example.com/"), Some("kk"), None, 6).unwrap();
    let (page, next) = store.list_by_created_at_page(20, None).unwrap();
    assert_eq!(ids(&page), vec!["kk", "bb", "mm"]);
    assert!(next.is_none());
}

#[test]
fn page_limit_is_clamped_and_bad_cursor_rejected() {
    let mut store = MemoryStore::new();
    store.create(url("https://example.com/"), Some("aa"), None, 1).unwrap();
    store.create(url("https://example.com/"), Some("bb"), None, 2).unwrap();
    let (page, next) = store.list_by_created_at_page(0, None).unwrap();
    assert_eq!(ids(&page), vec!["bb"]);
    assert!(next.is_some());
    assert_eq!(
        store.list_by_created_at_page(2, Some(vec![1, 2, 3])).err(),
        Some(StoreError::InvalidCursor)
    );
}

#[test]
fn disable_then_restore() {
    let mut store = MemoryStore::new();
    let l = store.create(url("https://example.com/x"), Some("promo"), None, 1).unwrap();
    store.set_enabled(&l.id.0, false, 50);
    let st = store.get_state(&l.id.0).unwrap();
    assert!(!st.enabled);
    assert_eq!(st.disabled_at, Some(50));
    let r = store.resolve("PrOmO".to_string(), 60, Some("1.2.3.4"), None, None);
    assert!(matches!(r, Resolution::Disabled));
    assert_eq!(store.get_last_access(&l.id.0).unwrap().status_code, 410);

    store.set_enabled(&l.id.0, true, 70);
    assert_eq!(store.get_state(&l.id.0).unwrap().disabled_at, None);
    match store.resolve("promo".to_string(), 80, None, None, None) {
        Resolution::Redirect(u) => assert_eq!(u, "https://example.com/x"),
        other => panic!("unexpected {:?}", other),
    }
    let last = store.get_last_access(&l.id.0).unwrap();
    assert_eq!((last.at, last.status_code), (80, 308));
}

#[test]
fn unknown_id_is_not_found_and_only_logged() {
    let mut store = MemoryStore::new();
    let r = store.resolve("nothing".to_string(), 5, None, Some("curl"), Some("req-1"));
    assert!(matches!(r, Resolution::NotFound));
    assert!(store.get_last_access("nothing").is_none());
    let logs = store.list_access_logs_recent("nothing", 10);
    assert_eq!(logs.len(), 1);
    assert_eq!(logs[0].status_code, 404);
    assert_eq!(logs[0].user_agent, "curl");
    assert_eq!(logs[0].ip, "");
}

#[test]
fn create_meta_first_writer_wins() {
    let mut store = MemoryStore::new();
    store.save_create_meta_if_absent("abc", 1, Some("10.0.0.1"), Some("ua-1"), Some("r1"));
    store.save_create_meta_if_absent("abc", 2, Some("10.0.0.2"), None, Some("r2"));
    let m = store.get_create_meta("abc").unwrap();
    assert_eq!(m.created_at, 1);
    assert_eq!(m.ip, "10.0.0.1");
    assert_eq!(m.user_agent, "ua-1");
    assert_eq!(m.request_id, "r1");
    assert!(store.get_create_meta("abd").is_none());
}

#[test]
fn access_logs_newest_first_and_limited() {
    let mut store = MemoryStore::new();
    store.log_access("a", 30, None, None, None, 308);
    store.log_access("a", 10, None, None, None, 308);
    store.log_access("b", 20, None, None, None, 404);
    store.log_access("a", 20, None, None, None, 410);
    store.log_access("a", 10, Some("ip"), None, None, 404);
    let logs = store.list_access_logs_recent("a", 2);
    let ts: Vec<i64> = logs.iter().map(|e| e.ts).collect();
    assert_eq!(ts, vec![30, 20]);
    let all = store.list_access_logs_recent("a", 1000);
    let seen: Vec<(i64, i32)> = all.iter().map(|e| (e.ts, e.status_code)).collect();
    assert_eq!(seen, vec![(30, 308), (20, 410), (10, 404)]);
    assert_eq!(all[2].ip, "ip");
    assert_eq!(store.list_access_logs_recent("a", 0).len(), 1);
}

#[test]
fn backfill_fills_an_empty_index() {
    let mut store = MemoryStore::new();
    for (id, t) in [("old1", 3i64), ("old2", 9), ("old3", 6)] {
        store.insert_legacy_link(ShortenedURL {
            id: ID(id.to_string()),
            original_url: url("https://legacy.example/"),
            created_at: t,
            expires_at: None,
        });
    }
    let (page, _) = store.list_by_created_at_page(10, None).unwrap();
    assert!(page.is_empty());
    store.backfill_index();
    let (page, next) = store.list_by_created_at_page(10, None).unwrap();
    // Rows come back with their identifiers normalized.
    assert_eq!(ids(&page), vec!["oidz", "oid3", "oidi"]);
    assert!(next.is_none());
    store.backfill_index();
    let (page, _) = store.list_by_created_at_page(10, None).unwrap();
    assert_eq!(page.len(), 3);
}

#[test]
fn last_access_is_overwritten() {
    let mut store = MemoryStore::new();
    store.set_last_access("k", 1, 308);
    store.set_last_access("k", 2, 410);
    let a = store.get_last_access("k").unwrap();
    assert_eq!((a.at, a.status_code), (2, 410));
}

#[test]
fn create_log_accepts_rows() {
    let mut store = MemoryStore::new();
    store.log_create("k", 1, Some("ip"), None, "https://example.com/", None);
    store.log_create("k", 1, None, None, "https://example.com/", Some("r"));
}

#[test]
fn expired_rows_are_purged() {
    let day: i64 = 24 * 60 * 60 * 1000;
    let mut store = MemoryStore::new();
    store.log_access("a", 0, None, None, None, 308);
    store.log_access("a", 10 * day, None, None, None, 308);
    store.log_create("a", 0, None, None, "https://example.com/", None);
    store.save_create_meta_if_absent("old", 0, Some("ip"), None, None);
    store.save_create_meta_if_absent("new", 20 * day, Some("ip"), None, None);
    store.purge_expired(30 * day - 1);
    assert_eq!(store.list_access_logs_recent("a", 10).len(), 2);
    assert!(store.get_create_meta("old").is_some());
    store.purge_expired(30 * day);
    let left: Vec<i64> = store.list_access_logs_recent("a", 10).iter().map(|e| e.ts).collect();
    assert_eq!(left, vec![10 * day]);
    assert!(store.get_create_meta("old").is_none());
    assert!(store.get_create_meta("new").is_some());
    // Once expired, the metadata can be written afresh.
    store.save_create_meta_if_absent("old", 31 * day, Some("other"), None, None);
    assert_eq!(store.get_create_meta("old").unwrap().ip, "other");
}

#[test]
fn state_and_pages_carry_normalized_ids() {
    let mut store = MemoryStore::new();
    store.set_enabled("AbC1", false, 3);
    let st = store.get_state("AbC1").unwrap();
    assert_eq!(st.id, ID("Abci".to_string()));
    assert!(!st.enabled);
    assert!(store.get_state("Abci").is_none());
}

#[test]
fn conflicting_create_with_unparsable_stored_url_fails() {
    let mut store = MemoryStore::new();
    store.create(url("not a url"), Some("k9"), None, 1).unwrap();
    assert_eq!(
        store.create(url("https://example.com/"), Some("k9"), None, 2).err(),
        Some(StoreError::InvalidStoredUrl)
    );
}
