//! The site-specific scraping adapter: claims one fixed host, reads the
//! site's listing table into articles, and fills descriptions from each
//! article's own page. The HTML readings are trusted; everything derived
//! from them — links, keys, timestamps — is verified.

use vstd::prelude::*;
use vstd::string::StringExecFns;

use crate::error::Error;
use crate::seed::{article_model, Article, ArticleModel};
use crate::text::{chars_to_string, parse_i64, spec_parse_i64, str_chars};
use scraper::{Html, Selector};

verus! {

/// What parsing `s` as a URL and taking its host yields: the host part, or
/// nothing when `s` is not a URL or has none. A function of `s` alone.
pub uninterp spec fn url_host_of(s: Seq<char>) -> Option<Seq<char>>;

/// Relies on `url::Url::parse` and `Url::host_str`: the host part of a
/// URL, `None` when `s` is not a URL or has no host.
#[verifier::external_body]
fn url_host(s: &str) -> (r: Option<String>)
    ensures
        match r {
            Some(h) => url_host_of(s@) == Some(h@),
            None => url_host_of(s@) is None,
        },
{
    match url::Url::parse(s) {
        Ok(u) => u.host_str().map(|h| h.to_string()),
        Err(_) => None,
    }
}

/// What selecting the listing rows of the site's index page yields: the
/// HTML of each row, in document order. A function of the text alone.
pub uninterp spec fn t66y_rows_of(s: Seq<char>) -> Seq<Seq<char>>;

/// Relies on `Html::parse_document`, `Selector::parse` and
/// `ElementRef::html`: the HTML of each row the fixed listing selector
/// finds, in document order.
#[verifier::external_body]
fn t66y_rows(content: &str) -> (r: Vec<String>)
    ensures
        r@.len() == t66y_rows_of(content@).len(),
        forall|i: int| 0 <= i < r@.len() ==> (#[trigger] r@[i])@ == t66y_rows_of(content@)[i],
{
    let doc = Html::parse_document(content);
    let sel = match Selector::parse("#ajaxtable > tbody:nth-child(2) .tr3") {
        Ok(s) => s,
        Err(_) => return Vec::new(),
    };
    doc.select(&sel).map(|el| el.html()).collect()
}

/// What extracting one listing row's fields yields: its title text, link
/// target, author text and timestamp attribute, or nothing when the row
/// lacks one of them. A function of the row's HTML alone.
pub uninterp spec fn t66y_fields_of(row: Seq<char>) -> Option<
    (Seq<char>, Seq<char>, Seq<char>, Seq<char>),
>;

/// Relies on `Html::parse_fragment`, `Selector::parse`,
/// `ElementRef::text` and `ElementRef::attr`: one row's title text, link
/// target, author text and timestamp attribute; `None` when a part is
/// missing.
#[verifier::external_body]
fn t66y_fields(row: &str) -> (r: Option<(String, String, String, String)>)
    ensures
        match r {
            Some(f) => t66y_fields_of(row@) == Some((f.0@, f.1@, f.2@, f.3@)),
            None => t66y_fields_of(row@) is None,
        },
{
    let doc = Html::parse_fragment(&format!("<table><tbody>{}</tbody></table>", row));
    let a_sel = Selector::parse(".tal h3 a").ok()?;
    let author_sel = Selector::parse("td:nth-child(3) a").ok()?;
    let ts_sel = Selector::parse("td:nth-child(3) span[data-timestamp]").ok()?;
    let a = doc.select(&a_sel).next()?;
    let author = doc.select(&author_sel).next()?;
    let ts = doc.select(&ts_sel).next()?;
    let title = a.text().collect::<Vec<_>>().join("");
    let href = a.attr("href").unwrap_or_default().to_string();
    let author_text = author.text().collect::<Vec<_>>().join("");
    let stamp = ts.attr("data-timestamp").unwrap_or_default().to_string();
    Some((title, href, author_text, stamp))
}

/// What selecting an article page's content block yields: its inner HTML,
/// or nothing when the page has no such block. A function of the text
/// alone.
pub uninterp spec fn t66y_desc_of(s: Seq<char>) -> Option<Seq<char>>;

/// Relies on `Html::parse_document`, `Selector::parse` and
/// `ElementRef::inner_html`: the inner HTML of the first content block;
/// `None` when the page has none.
#[verifier::external_body]
fn t66y_description_html(content: &str) -> (r: Option<String>)
    ensures
        match r {
            Some(d) => t66y_desc_of(content@) == Some(d@),
            None => t66y_desc_of(content@) is None,
        },
{
    let doc = Html::parse_document(content);
    let sel = Selector::parse("div.tpc_content").ok()?;
    let node = doc.select(&sel).next()?;
    Some(node.inner_html())
}

/// The absolute link a row's relative target resolves to.
pub open spec fn spec_t66y_link(href: Seq<char>) -> Seq<char> {
    "https://t66y.com/"@ + href
}

/// What one listing row becomes for `seed_id`: an unread article with no
/// identity yet, its link and key the resolved row target, its timestamp
/// the row's decimal timestamp attribute — which must parse, else the row
/// fails.
pub open spec fn spec_t66y_article(f: (Seq<char>, Seq<char>, Seq<char>, Seq<char>), seed_id: i64) -> Option<
    ArticleModel,
> {
    match spec_parse_i64(f.3) {
        None => None,
        Some(ts) => Some(
            ArticleModel {
                id: 0,
                seed_id: seed_id,
                seed_name: Seq::<char>::empty(),
                guid: spec_t66y_link(f.1),
                title: Some(f.0),
                author: Some(f.2),
                desc: None,
                link: Some(spec_t66y_link(f.1)),
                pub_date: ts,
                unread: true,
            },
        ),
    }
}

/// What the site adapter makes of the listing rows for `seed_id`: each row
/// must carry its fields and a decimal timestamp, else the whole
/// adaptation fails; the rows become articles in document order.
pub open spec fn spec_t66y_articles(rows: Seq<Seq<char>>, seed_id: i64) -> Option<
    Seq<ArticleModel>,
>
    decreases rows.len(),
{
    if rows.len() == 0 {
        Some(Seq::<ArticleModel>::empty())
    } else {
        match t66y_fields_of(rows[0]) {
            None => None,
            Some(f) => match spec_t66y_article(f, seed_id) {
                None => None,
                Some(m) => match spec_t66y_articles(rows.skip(1), seed_id) {
                    None => None,
                    Some(tail) => Some(seq![m] + tail),
                },
            },
        }
    }
}

/// The site-specific scraping adapter.
pub struct T66yAdapter {}

impl T66yAdapter {
    /// The site adapter claims exactly the URLs whose host is the site's.
    pub fn is_supported(&self, url: &str) -> (r: bool)
        ensures
            r == (url_host_of(url@) == Some("www.t66y.com"@)),
    {
        match url_host(url) {
            Some(h) => {
                let site = String::from_str("www.t66y.com");
                h.eq(&site)
            },
            None => false,
        }
    }

    /// Converts a fetched listing page into articles as
    /// [`spec_t66y_articles`] describes.
    #[verifier::loop_isolation(false)]
    pub fn adapt(&self, content: &str, seed_id: i64) -> (r: Result<Vec<Article>, Error>)
        ensures
            match spec_t66y_articles(t66y_rows_of(content@), seed_id) {
                None => r is Err,
                Some(models) => r is Ok && r->Ok_0@.len() == models.len() && forall|i: int|
                    0 <= i < models.len() ==> article_model(#[trigger] r->Ok_0@[i]) == models[i],
            },
    {
        let rows = t66y_rows(content);
        let ghost rseq = t66y_rows_of(content@);
        proof {
            assert(rseq.skip(0) =~= rseq);
        }
        let mut out: Vec<Article> = Vec::new();
        let n = rows.len();
        let mut k: usize = 0;
        while k < n
            invariant
                0 <= k <= n,
                n == rows@.len(),
                rseq.len() == n,
                forall|i: int| 0 <= i < n ==> (#[trigger] rows@[i])@ == rseq[i],
                spec_t66y_articles(rseq, seed_id) == (match spec_t66y_articles(
                    rseq.skip(k as int),
                    seed_id,
                ) {
                    None => None::<Seq<ArticleModel>>,
                    Some(tail) => Some(
                        Seq::new(out@.len(), |i: int| article_model(out@[i])) + tail,
                    ),
                }),
            decreases n - k,
        {
            let ghost pre = Seq::new(out@.len(), |i: int| article_model(out@[i]));
            proof {
                assert(rseq.skip(k as int)[0] == rseq[k as int]);
                assert(rseq.skip(k as int).skip(1) =~= rseq.skip(k + 1));
            }
            let fields = match t66y_fields(rows[k].as_str()) {
                Some(f) => f,
                None => {
                    return Err(Error(String::from_str("malformed listing row")));
                },
            };
            let stamp_chars = str_chars(fields.3.as_str());
            let ts = match parse_i64(&stamp_chars) {
                Some(v) => v,
                None => {
                    return Err(Error(String::from_str("malformed timestamp")));
                },
            };
            let link = Self::resolve_link(fields.1.as_str());
            let a = Article {
                id: 0,
                seed_id: seed_id,
                seed_name: String::new(),
                guid: link.clone(),
                title: Some(fields.0),
                author: Some(fields.2),
                desc: None,
                link: Some(link),
                pub_date: ts,
                unread: true,
            };
            proof {
                assert(article_model(a) == spec_t66y_article(
                    t66y_fields_of(rseq[k as int])->0,
                    seed_id,
                )->0);
            }
            out.push(a);
            proof {
                let m = article_model(out@[out@.len() - 1]);
                assert(Seq::new(out@.len(), |i: int| article_model(out@[i])) =~= pre.push(m));
                match spec_t66y_articles(rseq.skip(k + 1), seed_id) {
                    None => {},
                    Some(tail) => {
                        assert(pre + (seq![m] + tail) =~= pre.push(m) + tail);
                    },
                }
            }
            k += 1;
        }
        proof {
            assert(rseq.skip(n as int) =~= Seq::<Seq<char>>::empty());
        }
        Ok(out)
    }

    /// Resolves a row's relative link against the site origin.
    fn resolve_link(href: &str) -> (r: String)
        ensures
            r@ == spec_t66y_link(href@),
    {
        let mut out: Vec<char> = Vec::new();
        out.push('h');
        out.push('t');
        out.push('t');
        out.push('p');
        out.push('s');
        out.push(':');
        out.push('/');
        out.push('/');
        out.push('t');
        out.push('6');
        out.push('6');
        out.push('y');
        out.push('.');
        out.push('c');
        out.push('o');
        out.push('m');
        out.push('/');
        let hc = str_chars(href);
        let hn = hc.len();
        let mut i: usize = 0;
        while i < hn
            invariant
                0 <= i <= hn,
                hn == hc@.len(),
                hc@ == href@,
                out@ == seq![
                    'h', 't', 't', 'p', 's', ':', '/', '/', 't', '6', '6', 'y', '.', 'c', 'o',
                    'm', '/',
                ] + href@.take(i as int),
            decreases hn - i,
        {
            out.push(hc[i]);
            proof {
                assert(out@ =~= seq![
                    'h', 't', 't', 'p', 's', ':', '/', '/', 't', '6', '6', 'y', '.', 'c', 'o',
                    'm', '/',
                ] + href@.take(i + 1));
            }
            i += 1;
        }
        proof {
            reveal_strlit("https://t66y.com/");
            assert(href@.take(hn as int) =~= href@);
            assert(out@ =~= spec_t66y_link(href@));
        }
        chars_to_string(&out)
    }

    /// The description for one article, read from its own page's content
    /// block; fails when the page has none.
    pub fn get_description(content: &str) -> (r: Result<String, Error>)
        ensures
            match t66y_desc_of(content@) {
                Some(d) => r is Ok && r->Ok_0@ == d,
                None => r is Err,
            },
    {
        match t66y_description_html(content) {
            Some(d) => Ok(d),
            None => Err(Error(String::from_str("no content block"))),
        }
    }

    /// Fills one article's description from its fetched page, leaving every
    /// other field alone; fails, changing nothing, when the page has no
    /// content block.
    pub fn apply_description(&self, article: &mut Article, page: &str) -> (r: Result<(), Error>)
        ensures
            match t66y_desc_of(page@) {
                Some(d) => r is Ok && (final(article).desc matches Some(nd) && nd@ == d),
                None => r is Err && final(article).desc == old(article).desc,
            },
            final(article).id == old(article).id,
            final(article).seed_id == old(article).seed_id,
            final(article).seed_name == old(article).seed_name,
            final(article).guid == old(article).guid,
            final(article).title == old(article).title,
            final(article).author == old(article).author,
            final(article).link == old(article).link,
            final(article).pub_date == old(article).pub_date,
            final(article).unread == old(article).unread,
    {
        match Self::get_description(page) {
            Ok(d) => {
                article.desc = Some(d);
                Ok(())
            },
            Err(e) => Err(e),
        }
    }
}

} // verus!
