use rssrs::query::{format_cursor, parse_cursor, ArticleFilters};
use rssrs::seed::{due_seeds, Article, Seed};
use rssrs::store::Store;

fn article(guid: &str, title: Option<&str>, pub_date: i64) -> Article {
    Article {
        id: 0,
        seed_id: 0,
        seed_name: String::new(),
        guid: guid.to_string(),
        title: title.map(|t| t.to_string()),
        author: None,
        desc: None,
        link: None,
        pub_date,
        unread: true,
    }
}

fn filters(seed_id: Option<i64>, cursor: Option<&str>, limit: Option<i32>, search: Option<&str>) -> ArticleFilters {
    ArticleFilters {
        seed_id,
        cursor: cursor.map(|c| c.to_string()),
        limit,
        search: search.map(|s| s.to_string()),
    }
}

#[test]
fn pagination_walks_pages_without_overlap() {
    let t: i64 = 1_000_000;
    let mut store = Store::new();
    store.insert_seed("Example".to_string(), "https://e.x/rss".to_string());
    let batch = vec![
        article("g1", Some("newest"), t),
        article("g2", Some("middle"), t - 1),
        article("g3", Some("oldest"), t - 2),
    ];
    store.insert_articles(1, &batch).unwrap();

    let page1 = store.get_articles(&filters(None, None, Some(2), None));
    assert_eq!(page1.articles.len(), 2);
    assert_eq!(page1.articles[0].guid, "g1");
    assert_eq!(page1.articles[1].guid, "g2");
    assert_eq!(page1.articles[0].seed_name, "Example");
    let cursor = page1.next_cursor.expect("a third article is pending");
    assert_eq!(cursor, format!("{}:{}", t - 2, 3));

    let page2 = store.get_articles(&filters(None, Some(&cursor), Some(2), None));
    assert_eq!(page2.articles.len(), 1);
    assert_eq!(page2.articles[0].guid, "g3");
    assert!(page2.next_cursor.is_none());
}

#[test]
fn pagination_skips_articles_inserted_behind_the_cursor() {
    let t: i64 = 1_000_000;
    let mut store = Store::new();
    store.insert_seed("A".to_string(), "https://a".to_string());
    store
        .insert_articles(1, &vec![article("g1", None, t), article("g2", None, t - 10)])
        .unwrap();
    let page1 = store.get_articles(&filters(None, None, Some(1), None));
    assert_eq!(page1.articles[0].guid, "g1");
    let cursor = page1.next_cursor.unwrap();
    // A newer article arrives behind the frontier: later pages must not
    // revisit it, and the pending article is still delivered exactly once.
    store.insert_articles(1, &vec![article("g-new", None, t + 5)]).unwrap();
    let page2 = store.get_articles(&filters(None, Some(&cursor), Some(10), None));
    let guids: Vec<&str> = page2.articles.iter().map(|a| a.guid.as_str()).collect();
    assert_eq!(guids, vec!["g2"]);
}

#[test]
fn listing_returns_only_unread() {
    let mut store = Store::new();
    store.insert_seed("A".to_string(), "https://a".to_string());
    store
        .insert_articles(1, &vec![article("g1", None, 100), article("g2", None, 99)])
        .unwrap();
    let id = store.articles[0].id;
    store.read_article(id, true);
    let page = store.get_articles(&filters(None, None, None, None));
    assert_eq!(page.articles.len(), 1);
    assert_eq!(page.articles[0].guid, "g2");
}

#[test]
fn listing_scopes_by_seed() {
    let mut store = Store::new();
    store.insert_seed("A".to_string(), "https://a".to_string());
    store.insert_seed("B".to_string(), "https://b".to_string());
    store.insert_articles(1, &vec![article("a1", None, 100)]).unwrap();
    store.insert_articles(2, &vec![article("b1", None, 200)]).unwrap();
    let page = store.get_articles(&filters(Some(1), None, None, None));
    assert_eq!(page.articles.len(), 1);
    assert_eq!(page.articles[0].guid, "a1");
}

#[test]
fn watched_mode_matches_keywords_in_titles() {
    let mut store = Store::new();
    store.insert_seed("A".to_string(), "https://a".to_string());
    store
        .insert_articles(
            1,
            &vec![
                article("g1", Some("Rust news"), 100),
                article("g2", Some("Go news"), 99),
            ],
        )
        .unwrap();
    store.add_watch_keyword("Rust".to_string());
    let page = store.get_articles(&filters(Some(-1), None, None, None));
    assert_eq!(page.articles.len(), 1);
    assert_eq!(page.articles[0].guid, "g1");
}

#[test]
fn watched_mode_is_case_sensitive_substring_match() {
    let mut store = Store::new();
    store.insert_seed("A".to_string(), "https://a".to_string());
    store.insert_articles(1, &vec![article("g1", Some("Rust news"), 100)]).unwrap();
    store.add_watch_keyword("rust".to_string());
    let page = store.get_articles(&filters(Some(-1), None, None, None));
    assert!(page.articles.is_empty());
}

#[test]
fn watched_mode_with_empty_watch_list_is_empty() {
    let mut store = Store::new();
    store.insert_seed("A".to_string(), "https://a".to_string());
    store.insert_articles(1, &vec![article("g1", Some("anything"), 100)]).unwrap();
    let page = store.get_articles(&filters(Some(-1), None, None, None));
    assert!(page.articles.is_empty());
    assert!(page.next_cursor.is_none());
}

#[test]
fn search_filters_titles_and_ignores_empty() {
    let mut store = Store::new();
    store.insert_seed("A".to_string(), "https://a".to_string());
    store
        .insert_articles(
            1,
            &vec![
                article("g1", Some("alpha waves"), 100),
                article("g2", Some("beta waves"), 99),
                article("g3", None, 98),
            ],
        )
        .unwrap();
    let hit = store.get_articles(&filters(None, None, None, Some("alpha")));
    assert_eq!(hit.articles.len(), 1);
    assert_eq!(hit.articles[0].guid, "g1");
    let all = store.get_articles(&filters(None, None, None, Some("")));
    assert_eq!(all.articles.len(), 3);
}

#[test]
fn cursor_parsing_defaults_for_malformed_halves() {
    assert_eq!(parse_cursor("100:7"), (100, 7));
    assert_eq!(parse_cursor("abc:7"), (i64::MAX, 7));
    assert_eq!(parse_cursor("100:xyz"), (100, 0));
    assert_eq!(parse_cursor("100"), (100, 0));
    assert_eq!(parse_cursor(""), (i64::MAX, 0));
    assert_eq!(parse_cursor("-5:-6"), (-5, -6));
    assert_eq!(parse_cursor("1:2:3"), (1, 2));
}

#[test]
fn cursor_format_round_trips() {
    for (pd, id) in [(0i64, 0i64), (123, 456), (-7, 9), (i64::MAX, i64::MIN)] {
        let s = format_cursor(pd, id);
        assert_eq!(parse_cursor(&s), (pd, id));
    }
    assert_eq!(format_cursor(999998, 3), "999998:3");
}

#[test]
fn due_predicate_boundaries() {
    let now: i64 = 5_000_000;
    let seed = |last: i64| Seed {
        id: 1,
        name: "A".to_string(),
        url: "https://a".to_string(),
        favicon: None,
        interval: 10,
        last_fetched_at: last,
        last_fetch_ok: false,
    };
    assert!(!seed(now - 599).should_fetch(now));
    assert!(seed(now - 600).should_fetch(now));
    assert!(seed(0).should_fetch(now));
    let all = vec![seed(now - 599), seed(now - 600), seed(0)];
    let due = due_seeds(&all, now);
    assert_eq!(due.len(), 2);
    assert_eq!(due[0].last_fetched_at, now - 600);
    assert_eq!(due[1].last_fetched_at, 0);
}

#[test]
fn negative_limit_lists_everything_without_cursor() {
    let mut store = Store::new();
    store.insert_seed("A".to_string(), "https://a".to_string());
    let batch: Vec<Article> =
        (0..5).map(|i| article(&format!("g{i}"), None, 100 - i as i64)).collect();
    store.insert_articles(1, &batch).unwrap();
    let page = store.get_articles(&filters(None, None, Some(-1), None));
    assert_eq!(page.articles.len(), 5);
    assert!(page.next_cursor.is_none());
}
