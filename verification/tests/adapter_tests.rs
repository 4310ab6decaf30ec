use rssrs::adapter::{select_adapter, AdapterChoice, RssAdapter};
use rssrs::t66y::T66yAdapter;

const NOW: i64 = 1_704_067_200; // Mon, 01 Jan 2024 00:00:00 +0000

fn rss_feed(items: &str) -> Vec<u8> {
    format!(
        "<?xml version=\"1.0\"?><rss version=\"2.0\"><channel><title>t</title>\
         <link>https://e.x</link><description>d</description>{items}</channel></rss>"
    )
    .into_bytes()
}

#[test]
fn rss_adapter_supports_everything() {
    let a = RssAdapter {};
    assert!(a.is_supported("https://anything.example/feed"));
    assert!(a.is_supported("not even a url"));
}

#[test]
fn rss_adapt_reads_items() {
    let feed = rss_feed(
        "<item><guid>G1</guid><title>One</title><author>au</author>\
         <description>de</description><link>https://e.x/1</link>\
         <pubDate>Mon, 01 Jan 2024 00:00:00 +0000</pubDate></item>",
    );
    let a = RssAdapter {};
    let arts = a.adapt(&feed, 7, NOW).unwrap();
    assert_eq!(arts.len(), 1);
    let art = &arts[0];
    assert_eq!(art.id, 0);
    assert_eq!(art.seed_id, 7);
    assert_eq!(art.seed_name, "");
    assert_eq!(art.guid, "G1");
    assert_eq!(art.title.as_deref(), Some("One"));
    assert_eq!(art.author.as_deref(), Some("au"));
    assert_eq!(art.desc.as_deref(), Some("de"));
    assert_eq!(art.link.as_deref(), Some("https://e.x/1"));
    assert_eq!(art.pub_date, NOW);
    assert!(art.unread);
}

#[test]
fn rss_adapt_drops_items_older_than_thirty_days() {
    let feed = rss_feed(
        "<item><title>Fresh</title><pubDate>Sun, 31 Dec 2023 00:00:00 +0000</pubDate></item>\
         <item><title>Stale</title><pubDate>Sat, 02 Dec 2023 00:00:00 +0000</pubDate></item>",
    );
    let a = RssAdapter {};
    let arts = a.adapt(&feed, 1, NOW).unwrap();
    assert_eq!(arts.len(), 1);
    assert_eq!(arts[0].title.as_deref(), Some("Fresh"));
}

#[test]
fn rss_adapt_skips_items_without_date() {
    let feed = rss_feed(
        "<item><title>NoDate</title></item>\
         <item><title>Dated</title><pubDate>Mon, 01 Jan 2024 00:00:00 +0000</pubDate></item>",
    );
    let a = RssAdapter {};
    let arts = a.adapt(&feed, 1, NOW).unwrap();
    assert_eq!(arts.len(), 1);
    assert_eq!(arts[0].title.as_deref(), Some("Dated"));
}

#[test]
fn rss_adapt_fails_on_malformed_date() {
    let feed = rss_feed("<item><title>Bad</title><pubDate>yesterday-ish</pubDate></item>");
    let a = RssAdapter {};
    assert!(a.adapt(&feed, 1, NOW).is_err());
}

#[test]
fn rss_adapt_fails_on_malformed_feed() {
    let a = RssAdapter {};
    assert!(a.adapt(&b"this is not xml".to_vec(), 1, NOW).is_err());
}

#[test]
fn rss_guid_falls_back_to_link_then_title() {
    let feed = rss_feed(
        "<item><title>ByLink</title><link>https://e.x/l</link>\
         <pubDate>Mon, 01 Jan 2024 00:00:00 +0000</pubDate></item>\
         <item><title>ByTitle</title>\
         <pubDate>Mon, 01 Jan 2024 00:00:00 +0000</pubDate></item>",
    );
    let a = RssAdapter {};
    let arts = a.adapt(&feed, 1, NOW).unwrap();
    assert_eq!(arts[0].guid, "https://e.x/l");
    assert_eq!(arts[1].guid, "ByTitle");
}

#[test]
fn site_adapter_claims_only_its_host() {
    let a = T66yAdapter {};
    assert!(a.is_supported("https://www.t66y.com/thread0806.php?fid=7"));
    assert!(!a.is_supported("https://example.com/feed"));
    assert!(!a.is_supported("no scheme at all"));
}

#[test]
fn adapter_selection_is_most_specific_first() {
    assert!(matches!(
        select_adapter("https://www.t66y.com/index.php"),
        AdapterChoice::T66y
    ));
    assert!(matches!(select_adapter("https://blog.example/feed.xml"), AdapterChoice::Rss));
}

fn listing_row(title: &str, href: &str, author: &str, stamp: &str) -> String {
    format!(
        "<tr class=\"tr3\"><td class=\"tal\"><h3><a href=\"{href}\">{title}</a></h3></td>\
         <td>x</td><td><a>{author}</a> <span data-timestamp=\"{stamp}\">t</span></td></tr>"
    )
}

fn listing_page(rows: &str) -> String {
    format!(
        "<html><body><table id=\"ajaxtable\"><tbody><tr><td>head</td></tr></tbody>\
         <tbody>{rows}</tbody></table></body></html>"
    )
}

#[test]
fn site_adapt_reads_listing_rows() {
    let page = listing_page(&(listing_row("Hello", "htm_data/1.html", "someone", "1700000000")
        + &listing_row("World", "htm_data/2.html", "other", "1700000500")));
    let a = T66yAdapter {};
    let arts = a.adapt(&page, 3).unwrap();
    assert_eq!(arts.len(), 2);
    assert_eq!(arts[0].title.as_deref(), Some("Hello"));
    assert_eq!(arts[0].author.as_deref(), Some("someone"));
    assert_eq!(arts[0].link.as_deref(), Some("https://t66y.com/htm_data/1.html"));
    assert_eq!(arts[0].guid, "https://t66y.com/htm_data/1.html");
    assert_eq!(arts[0].pub_date, 1_700_000_000);
    assert!(arts[0].unread);
    assert_eq!(arts[1].pub_date, 1_700_000_500);
}

#[test]
fn site_adapt_fails_on_bad_timestamp() {
    let page = listing_page(&listing_row("Hello", "h.html", "someone", "not-a-number"));
    let a = T66yAdapter {};
    assert!(a.adapt(&page, 3).is_err());
}

#[test]
fn site_description_comes_from_content_block() {
    let page = "<html><body><div class=\"tpc_content\">the <b>body</b></div></body></html>";
    let desc = T66yAdapter::get_description(page).unwrap();
    assert_eq!(desc, "the <b>body</b>");
    assert!(T66yAdapter::get_description("<html><body>empty</body></html>").is_err());
}

#[test]
fn apply_description_fills_only_the_description() {
    let a = T66yAdapter {};
    let mut art = rssrs::seed::Article {
        id: 0,
        seed_id: 3,
        seed_name: String::new(),
        guid: "g".to_string(),
        title: Some("t".to_string()),
        author: None,
        desc: None,
        link: None,
        pub_date: 1,
        unread: true,
    };
    let page = "<div class=\"tpc_content\">filled</div>";
    a.apply_description(&mut art, page).unwrap();
    assert_eq!(art.desc.as_deref(), Some("filled"));
    assert_eq!(art.title.as_deref(), Some("t"));
    assert!(a.apply_description(&mut art, "<p>no block</p>").is_err());
}
