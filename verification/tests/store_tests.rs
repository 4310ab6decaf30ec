use rssrs::events::{ArticleReadEvent, Event, SeedUnreadCountEvent};
use rssrs::seed::Article;
use rssrs::store::{Store, CURRENT_DB_VERSION};

fn article(guid: &str, title: Option<&str>, pub_date: i64) -> Article {
    Article {
        id: 0,
        seed_id: 0,
        seed_name: String::new(),
        guid: guid.to_string(),
        title: title.map(|t| t.to_string()),
        author: None,
        desc: None,
        link: None,
        pub_date,
        unread: true,
    }
}

#[test]
fn new_store_is_at_current_version() {
    let store = Store::new();
    assert_eq!(store.version, CURRENT_DB_VERSION);
    assert_eq!(store.version, 4);
}

#[test]
fn migration_is_idempotent() {
    let mut store = Store::new();
    store.version = 2;
    store.upgrade_if_needed();
    assert_eq!(store.version, 4);
    let seeds_before = store.seeds.len();
    store.upgrade_if_needed();
    assert_eq!(store.version, 4);
    assert_eq!(store.seeds.len(), seeds_before);
}

#[test]
fn migration_keeps_later_versions() {
    let mut store = Store::new();
    store.version = 9;
    store.upgrade_if_needed();
    assert_eq!(store.version, 9);
}

#[test]
fn insert_seed_assigns_defaults_and_emits() {
    let mut store = Store::new();
    let (ok, events) = store.insert_seed("Example".to_string(), "https://e.x/rss".to_string());
    assert!(ok);
    assert_eq!(events, vec![Event::SeedAdd]);
    assert_eq!(store.seeds.len(), 1);
    let s = &store.seeds[0];
    assert_eq!(s.id, 1);
    assert_eq!(s.name, "Example");
    assert_eq!(s.url, "https://e.x/rss");
    assert_eq!(s.interval, 10);
    assert_eq!(s.last_fetched_at, 0);
    assert!(!s.last_fetch_ok);
}

#[test]
fn insert_seed_rejects_duplicate_name_and_url() {
    let mut store = Store::new();
    let (ok, _) = store.insert_seed("A".to_string(), "https://a".to_string());
    assert!(ok);
    let (dup_name, events) = store.insert_seed("A".to_string(), "https://b".to_string());
    assert!(!dup_name);
    assert!(events.is_empty());
    let (dup_url, _) = store.insert_seed("B".to_string(), "https://a".to_string());
    assert!(!dup_url);
    assert_eq!(store.seeds.len(), 1);
}

#[test]
fn update_seed_writes_editable_fields() {
    let mut store = Store::new();
    store.insert_seed("A".to_string(), "https://a".to_string());
    let mut s = store.get_all_seeds().remove(0);
    s.name = "Renamed".to_string();
    s.interval = 30;
    assert!(store.update_seed(&s));
    assert_eq!(store.seeds[0].name, "Renamed");
    assert_eq!(store.seeds[0].interval, 30);
    let missing = rssrs::seed::Seed {
        id: 99,
        name: "X".to_string(),
        url: "https://x".to_string(),
        favicon: None,
        interval: 10,
        last_fetched_at: 0,
        last_fetch_ok: false,
    };
    assert!(!store.update_seed(&missing));
}

#[test]
fn insert_articles_counts_and_emits() {
    let mut store = Store::new();
    store.insert_seed("A".to_string(), "https://a".to_string());
    let batch = vec![
        article("g1", Some("one"), 100),
        article("g2", Some("two"), 99),
        article("g3", Some("three"), 98),
    ];
    let (count, events) = store.insert_articles(1, &batch).unwrap();
    assert_eq!(count, 3);
    assert_eq!(
        events,
        vec![
            Event::SeedNew(SeedUnreadCountEvent { id: Some(1), unread_count: 3 }),
            Event::SeedNew(SeedUnreadCountEvent { id: None, unread_count: 3 }),
        ]
    );
    assert_eq!(store.articles.len(), 3);
}

#[test]
fn reingest_reports_zero_and_stays_silent() {
    let mut store = Store::new();
    store.insert_seed("A".to_string(), "https://a".to_string());
    let batch = vec![
        article("g1", Some("one"), 100),
        article("g2", Some("two"), 99),
        article("g3", Some("three"), 98),
    ];
    store.insert_articles(1, &batch).unwrap();
    let (count, events) = store.insert_articles(1, &batch).unwrap();
    assert_eq!(count, 0);
    assert!(events.is_empty());
    assert_eq!(store.articles.len(), 3);
}

#[test]
fn duplicate_guids_within_one_batch_are_ignored() {
    let mut store = Store::new();
    store.insert_seed("A".to_string(), "https://a".to_string());
    let batch = vec![article("same", Some("first"), 100), article("same", Some("second"), 50)];
    let (count, _) = store.insert_articles(1, &batch).unwrap();
    assert_eq!(count, 1);
    assert_eq!(store.articles.len(), 1);
    assert_eq!(store.articles[0].title.as_deref(), Some("first"));
}

#[test]
fn guids_stay_unique_across_ingests() {
    let mut store = Store::new();
    store.insert_seed("A".to_string(), "https://a".to_string());
    store.insert_seed("B".to_string(), "https://b".to_string());
    store.insert_articles(1, &vec![article("g1", None, 100)]).unwrap();
    let (count, _) = store.insert_articles(2, &vec![article("g1", None, 200)]).unwrap();
    assert_eq!(count, 0);
    for i in 0..store.articles.len() {
        for j in (i + 1)..store.articles.len() {
            assert_ne!(store.articles[i].guid, store.articles[j].guid);
        }
    }
}

#[test]
fn ingest_for_unknown_seed_fails() {
    let mut store = Store::new();
    let r = store.insert_articles(7, &vec![article("g", None, 1)]);
    assert!(r.is_err());
    assert_eq!(store.articles.len(), 0);
}

#[test]
fn read_article_decrements_unread_count() {
    let mut store = Store::new();
    store.insert_seed("A".to_string(), "https://a".to_string());
    let batch = vec![article("g1", None, 100), article("g2", None, 99)];
    store.insert_articles(1, &batch).unwrap();
    assert_eq!(store.get_unread_count(Some(1)), 2);
    let id = store.articles[0].id;
    let (ok, events) = store.read_article(id, true);
    assert!(ok);
    assert_eq!(store.get_unread_count(Some(1)), 1);
    assert_eq!(
        events,
        vec![
            Event::SeedUnread(SeedUnreadCountEvent { id: Some(1), unread_count: 1 }),
            Event::SeedUnread(SeedUnreadCountEvent { id: None, unread_count: 1 }),
            Event::ArticleUnread(ArticleReadEvent { id, unread: false }),
        ]
    );
}

#[test]
fn read_article_of_unknown_id_fails_silently() {
    let mut store = Store::new();
    let (ok, events) = store.read_article(12345, true);
    assert!(!ok);
    assert!(events.is_empty());
}

#[test]
fn read_article_can_mark_unread_again() {
    let mut store = Store::new();
    store.insert_seed("A".to_string(), "https://a".to_string());
    store.insert_articles(1, &vec![article("g1", None, 100)]).unwrap();
    let id = store.articles[0].id;
    store.read_article(id, true);
    assert_eq!(store.get_unread_count(Some(1)), 0);
    let (ok, _) = store.read_article(id, false);
    assert!(ok);
    assert_eq!(store.get_unread_count(Some(1)), 1);
}

#[test]
fn read_all_for_seed_zeroes_count_and_orders_events() {
    let mut store = Store::new();
    store.seeds.push(rssrs::seed::Seed {
        id: 42,
        name: "Answer".to_string(),
        url: "https://answer".to_string(),
        favicon: None,
        interval: 10,
        last_fetched_at: 0,
        last_fetch_ok: false,
    });
    store.next_seed_id = 43;
    store.insert_articles(42, &vec![article("g1", None, 100), article("g2", None, 99)]).unwrap();
    let (ok, events) = store.read_all(Some(42));
    assert!(ok);
    assert_eq!(store.get_unread_count(Some(42)), 0);
    assert_eq!(
        events,
        vec![
            Event::SeedUnread(SeedUnreadCountEvent { id: Some(42), unread_count: 0 }),
            Event::SeedUnread(SeedUnreadCountEvent { id: None, unread_count: 0 }),
            Event::ArticleUnread(ArticleReadEvent { id: -1, unread: false }),
        ]
    );
}

#[test]
fn read_all_globally_reports_zero_unconditionally() {
    let mut store = Store::new();
    store.insert_seed("A".to_string(), "https://a".to_string());
    store.insert_articles(1, &vec![article("g1", None, 100)]).unwrap();
    let (ok, events) = store.read_all(None);
    assert!(ok);
    assert_eq!(store.get_unread_count(None), 0);
    assert_eq!(
        events[1],
        Event::SeedUnread(SeedUnreadCountEvent { id: None, unread_count: 0 })
    );
}

#[test]
fn optimize_removes_exactly_old_read_articles() {
    let now: i64 = 10_000_000;
    let month: i64 = 2_592_000;
    let mut store = Store::new();
    store.insert_seed("A".to_string(), "https://a".to_string());
    let batch = vec![
        article("old-read", None, now - month - 1),
        article("old-unread", None, now - month - 2),
        article("new-read", None, now - 10),
        article("new-unread", None, now - 20),
    ];
    store.insert_articles(1, &batch).unwrap();
    let read_ids: Vec<i64> = store
        .articles
        .iter()
        .filter(|a| a.guid == "old-read" || a.guid == "new-read")
        .map(|a| a.id)
        .collect();
    for id in read_ids {
        store.read_article(id, true);
    }
    store.optimize(now);
    let mut guids: Vec<String> = store.articles.iter().map(|a| a.guid.clone()).collect();
    guids.sort();
    assert_eq!(guids, vec!["new-read", "new-unread", "old-unread"]);
}

#[test]
fn settings_round_trip() {
    let mut store = Store::new();
    assert!(store.set_setting("k".to_string(), "v1".to_string()));
    assert_eq!(store.get_setting(&"k".to_string()), "v1");
    assert!(store.set_setting("k".to_string(), "v2".to_string()));
    assert_eq!(store.get_setting(&"k".to_string()), "v2");
    assert_eq!(store.settings.len(), 1);
    assert_eq!(store.get_setting(&"missing".to_string()), "");
}

#[test]
fn watch_list_round_trip() {
    let mut store = Store::new();
    let (ok, events) = store.add_watch_keyword("rust".to_string());
    assert!(ok);
    assert_eq!(events, vec![Event::WatchlistChange]);
    assert_eq!(store.get_watch_list(), vec!["rust".to_string()]);
    let (dup, dup_events) = store.add_watch_keyword("rust".to_string());
    assert!(!dup);
    assert!(dup_events.is_empty());
    let (deleted, del_events) = store.delete_watch_keyword(&"rust".to_string());
    assert!(deleted);
    assert_eq!(del_events, vec![Event::WatchlistChange]);
    assert!(store.get_watch_list().is_empty());
    let (absent, absent_events) = store.delete_watch_keyword(&"rust".to_string());
    assert!(absent);
    assert_eq!(absent_events, vec![Event::WatchlistChange]);
}

#[test]
fn save_last_fetch_updates_bookkeeping() {
    let mut store = Store::new();
    store.insert_seed("A".to_string(), "https://a".to_string());
    store.insert_seed("B".to_string(), "https://b".to_string());
    store.save_last_fetch(1, 777, true);
    assert_eq!(store.seeds[0].last_fetched_at, 777);
    assert!(store.seeds[0].last_fetch_ok);
    assert_eq!(store.seeds[1].last_fetched_at, 0);
}

#[test]
fn event_topics() {
    assert_eq!(Event::SeedAdd.topic(), "app://seed/add");
    assert_eq!(
        Event::SeedNew(SeedUnreadCountEvent { id: None, unread_count: 1 }).topic(),
        "app://seed/new"
    );
    assert_eq!(
        Event::SeedUnread(SeedUnreadCountEvent { id: None, unread_count: 0 }).topic(),
        "app://seed/unread"
    );
    assert_eq!(
        Event::ArticleUnread(ArticleReadEvent { id: 1, unread: true }).topic(),
        "app://article/unread"
    );
    assert_eq!(Event::WatchlistChange.topic(), "app://watchlist/change");
}
