//! The source-format adapters: the universal RSS 2.0 channel adapter, the
//! ordered first-match selection between it and the site-specific scraper,
//! and the trusted readings of the RSS and date libraries they build on.

use vstd::prelude::*;
use vstd::string::StringExecFns;

use crate::error::Error;
use crate::seed::{article_model, opt_view, Article, ArticleModel};
use crate::t66y::T66yAdapter;

verus! {

/// One feed item as the RSS library hands it over, reduced to its plain
/// string fields.
pub struct RawItem {
    /// The item's guid value, if any.
    pub guid: Option<String>,
    /// Title, if any.
    pub title: Option<String>,
    /// Author, if any.
    pub author: Option<String>,
    /// Description, if any.
    pub desc: Option<String>,
    /// Link, if any.
    pub link: Option<String>,
    /// Publication date text, if any.
    pub pub_date: Option<String>,
}

/// A feed item reduced to plain values.
pub struct RawItemModel {
    /// The item's guid value, if any.
    pub guid: Option<Seq<char>>,
    /// Title, if any.
    pub title: Option<Seq<char>>,
    /// Author, if any.
    pub author: Option<Seq<char>>,
    /// Description, if any.
    pub desc: Option<Seq<char>>,
    /// Link, if any.
    pub link: Option<Seq<char>>,
    /// Publication date text, if any.
    pub pub_date: Option<Seq<char>>,
}

/// The plain-value model of a raw feed item.
pub open spec fn raw_item_model(i: RawItem) -> RawItemModel {
    RawItemModel {
        guid: opt_view(i.guid),
        title: opt_view(i.title),
        author: opt_view(i.author),
        desc: opt_view(i.desc),
        link: opt_view(i.link),
        pub_date: opt_view(i.pub_date),
    }
}

/// What reading `content` as an RSS 2.0 channel yields: its items in
/// order, each reduced to its plain string fields; nothing when the bytes
/// are not a well-formed channel. A function of the bytes alone.
pub uninterp spec fn rss_items_of(content: Seq<u8>) -> Option<Seq<RawItemModel>>;

/// Relies on `rss::Channel::read_from`: the channel's items in order, each
/// reduced to its guid value, title, author, description, link and
/// publication-date strings; `None` when the bytes are not a well-formed
/// RSS channel.
#[verifier::external_body]
fn parse_rss_channel(content: &[u8]) -> (r: Option<Vec<RawItem>>)
    ensures
        match r {
            Some(v) => rss_items_of(content@) == Some(
                Seq::new(v@.len(), |i: int| raw_item_model(v@[i])),
            ),
            None => rss_items_of(content@) is None,
        },
{
    let channel = rss::Channel::read_from(content).ok()?;
    let items = channel.items.into_iter().map(|it| RawItem {
        guid: it.guid.map(|g| g.value),
        title: it.title,
        author: it.author,
        desc: it.description,
        link: it.link,
        pub_date: it.pub_date,
    }).collect();
    Some(items)
}

/// What reading `s` as an RFC 2822 date yields: its epoch seconds, or
/// nothing when `s` is not such a date. A function of `s` alone.
pub uninterp spec fn rfc2822_epoch_of(s: Seq<char>) -> Option<i64>;

/// Relies on `chrono::DateTime::parse_from_rfc2822` and
/// `DateTime::timestamp`: the epoch seconds of an RFC 2822 date, `None`
/// when `s` is not one.
#[verifier::external_body]
fn parse_rfc2822_epoch(s: &str) -> (r: Option<i64>)
    ensures
        r == rfc2822_epoch_of(s@),
{
    match chrono::DateTime::parse_from_rfc2822(s) {
        Ok(d) => Some(d.timestamp()),
        Err(_) => None,
    }
}

/// The deduplication key an RSS item gets: the first non-empty of its guid
/// value, its link and its title, or the empty string.
pub open spec fn rss_guid(it: RawItemModel) -> Seq<char> {
    if it.guid matches Some(g) && g.len() > 0 {
        it.guid->0
    } else if it.link matches Some(l) && l.len() > 0 {
        it.link->0
    } else if it.title matches Some(t) && t.len() > 0 {
        it.title->0
    } else {
        Seq::<char>::empty()
    }
}

/// What the RSS adapter makes of a channel's items at time `now`: items
/// without a publication date are dropped; a date that is not RFC 2822
/// fails the whole adaptation; items published more than 30 days before
/// `now` are dropped; the rest become unread articles of `seed_id` with no
/// identity yet, in item order.
pub open spec fn spec_rss_articles(items: Seq<RawItemModel>, seed_id: i64, now: int) -> Option<
    Seq<ArticleModel>,
>
    decreases items.len(),
{
    if items.len() == 0 {
        Some(Seq::<ArticleModel>::empty())
    } else {
        let it = items[0];
        match it.pub_date {
            None => spec_rss_articles(items.skip(1), seed_id, now),
            Some(ds) => match rfc2822_epoch_of(ds) {
                None => None,
                Some(ts) => match spec_rss_articles(items.skip(1), seed_id, now) {
                    None => None,
                    Some(tail) => if ts > now - 2592000 {
                        Some(
                            seq![
                                ArticleModel {
                                    id: 0,
                                    seed_id: seed_id,
                                    seed_name: Seq::<char>::empty(),
                                    guid: rss_guid(it),
                                    title: it.title,
                                    author: it.author,
                                    desc: it.desc,
                                    link: it.link,
                                    pub_date: ts,
                                    unread: true,
                                },
                            ] + tail,
                        )
                    } else {
                        Some(tail)
                    },
                },
            },
        }
    }
}

/// The RSS adapter drops items older than 30 days: every article it yields
/// is published within the window ending at `now`.
pub proof fn lemma_rss_drops_old(items: Seq<RawItemModel>, seed_id: i64, now: int)
    ensures
        spec_rss_articles(items, seed_id, now) matches Some(models) ==> forall|i: int|
            0 <= i < models.len() ==> (#[trigger] models[i]).pub_date > now - 2592000,
    decreases items.len(),
{
    if items.len() > 0 {
        lemma_rss_drops_old(items.skip(1), seed_id, now);
    }
}

/// The deduplication key of one raw item.
fn choose_guid(item: &RawItem) -> (g: String)
    ensures
        g@ == rss_guid(raw_item_model(*item)),
{
    match &item.guid {
        Some(s) => {
            if !s.as_str().is_empty() {
                return s.clone();
            }
        },
        None => {},
    }
    match &item.link {
        Some(s) => {
            if !s.as_str().is_empty() {
                return s.clone();
            }
        },
        None => {},
    }
    match &item.title {
        Some(s) => {
            if !s.as_str().is_empty() {
                return s.clone();
            }
        },
        None => {},
    }
    String::new()
}

/// The universal RSS 2.0 channel adapter.
pub struct RssAdapter {}

impl RssAdapter {
    /// The RSS adapter claims every URL.
    pub fn is_supported(&self, url: &str) -> (r: bool)
        ensures
            r == true,
    {
        true
    }

    /// Converts fetched bytes into articles as [`spec_rss_articles`]
    /// describes, relative to the current time `now` (epoch seconds).
    #[verifier::loop_isolation(false)]
    pub fn adapt(&self, content: &Vec<u8>, seed_id: i64, now: i64) -> (r: Result<
        Vec<Article>,
        Error,
    >)
        ensures
            match rss_items_of(content@) {
                None => r is Err,
                Some(items) => match spec_rss_articles(items, seed_id, now as int) {
                    None => r is Err,
                    Some(models) => r is Ok && r->Ok_0@.len() == models.len() && forall|i: int|
                        0 <= i < models.len() ==> article_model(#[trigger] r->Ok_0@[i])
                            == models[i],
                },
            },
    {
        let raw = match parse_rss_channel(content.as_slice()) {
            Some(v) => v,
            None => {
                return Err(Error(String::from_str("malformed feed")));
            },
        };
        let ghost items = rss_items_of(content@)->0;
        proof {
            assert(items.skip(0) =~= items);
        }
        let mut out: Vec<Article> = Vec::new();
        let n = raw.len();
        let mut k: usize = 0;
        while k < n
            invariant
                0 <= k <= n,
                n == raw@.len(),
                items.len() == n,
                forall|i: int| 0 <= i < n ==> items[i] == raw_item_model(#[trigger] raw@[i]),
                spec_rss_articles(items, seed_id, now as int) == (match spec_rss_articles(
                    items.skip(k as int),
                    seed_id,
                    now as int,
                ) {
                    None => None::<Seq<ArticleModel>>,
                    Some(tail) => Some(
                        Seq::new(out@.len(), |i: int| article_model(out@[i])) + tail,
                    ),
                }),
            decreases n - k,
        {
            let ghost pre = Seq::new(out@.len(), |i: int| article_model(out@[i]));
            proof {
                assert(items.skip(k as int)[0] == items[k as int]);
                assert(items.skip(k as int).skip(1) =~= items.skip(k + 1));
            }
            let item = &raw[k];
            match &item.pub_date {
                None => {},
                Some(ds) => {
                    match parse_rfc2822_epoch(ds.as_str()) {
                        None => {
                            return Err(Error(String::from_str("malformed date")));
                        },
                        Some(ts) => {
                            if (ts as i128) > (now as i128) - 2592000 {
                                let guid = choose_guid(item);
                                let a = Article {
                                    id: 0,
                                    seed_id: seed_id,
                                    seed_name: String::new(),
                                    guid: guid,
                                    title: match &item.title {
                                        Some(t) => Some(t.clone()),
                                        None => None,
                                    },
                                    author: match &item.author {
                                        Some(t) => Some(t.clone()),
                                        None => None,
                                    },
                                    desc: match &item.desc {
                                        Some(t) => Some(t.clone()),
                                        None => None,
                                    },
                                    link: match &item.link {
                                        Some(t) => Some(t.clone()),
                                        None => None,
                                    },
                                    pub_date: ts,
                                    unread: true,
                                };
                                proof {
                                    assert(article_model(a) == ArticleModel {
                                        id: 0,
                                        seed_id: seed_id,
                                        seed_name: Seq::<char>::empty(),
                                        guid: rss_guid(items[k as int]),
                                        title: items[k as int].title,
                                        author: items[k as int].author,
                                        desc: items[k as int].desc,
                                        link: items[k as int].link,
                                        pub_date: ts,
                                        unread: true,
                                    });
                                }
                                out.push(a);
                                proof {
                                    assert(Seq::new(
                                        out@.len(),
                                        |i: int| article_model(out@[i]),
                                    ) =~= pre.push(article_model(out@[out@.len() - 1])));
                                }
                            }
                        },
                    }
                },
            }
            proof {
                let m = ArticleModel {
                    id: 0,
                    seed_id: seed_id,
                    seed_name: Seq::<char>::empty(),
                    guid: rss_guid(items[k as int]),
                    title: items[k as int].title,
                    author: items[k as int].author,
                    desc: items[k as int].desc,
                    link: items[k as int].link,
                    pub_date: rfc2822_epoch_of(match items[k as int].pub_date {
                        Some(d) => d,
                        None => Seq::<char>::empty(),
                    })->0,
                    unread: true,
                };
                match spec_rss_articles(items.skip(k + 1), seed_id, now as int) {
                    None => {},
                    Some(tail) => {
                        assert(pre + (seq![m] + tail) =~= pre.push(m) + tail);
                    },
                }
            }
            k += 1;
        }
        proof {
            assert(items.skip(n as int) =~= Seq::<RawItemModel>::empty());
        }
        Ok(out)
    }
}

/// Which adapter a URL is routed to.
pub enum AdapterChoice {
    /// The site-specific scraping adapter.
    T66y,
    /// The universal RSS adapter.
    Rss,
}

/// First-match selection over the ordered adapters, most specific first:
/// the site scraper when it claims the URL's host, else the universal RSS
/// adapter, which claims everything.
pub fn select_adapter(url: &str) -> (r: AdapterChoice)
    ensures
        r is T66y <==> crate::t66y::url_host_of(url@) == Some("www.t66y.com"@),
{
    let site = T66yAdapter {};
    if site.is_supported(url) {
        AdapterChoice::T66y
    } else {
        AdapterChoice::Rss
    }
}

} // verus!
