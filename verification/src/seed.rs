//! The data model: a subscription (`Seed`) and one harvested item
//! (`Article`), with the scheduler's due predicate.

use vstd::prelude::*;

verus! {

/// A subscribed content source.
pub struct Seed {
    /// Stable identity, unique across the seed table.
    pub id: i64,
    /// Human-readable name, unique.
    pub name: String,
    /// Source URL, unique.
    pub url: String,
    /// Optional icon reference.
    pub favicon: Option<String>,
    /// Polling interval in minutes.
    pub interval: i32,
    /// Epoch seconds of the last attempted fetch; 0 means never.
    pub last_fetched_at: i64,
    /// Whether the last fetch succeeded.
    pub last_fetch_ok: bool,
}

/// Whether a seed is due for a fetch at time `now` (epoch seconds): never
/// fetched, or its interval has elapsed since the last attempt.
pub open spec fn spec_is_due(last_fetched_at: int, interval: int, now: int) -> bool {
    last_fetched_at == 0 || last_fetched_at + interval * 60 <= now
}

impl Seed {
    /// Whether this seed should be fetched at time `now`.
    pub fn should_fetch(&self, now: i64) -> (r: bool)
        ensures
            r == spec_is_due(self.last_fetched_at as int, self.interval as int, now as int),
    {
        if self.last_fetched_at == 0 {
            true
        } else {
            let next: i128 = (self.last_fetched_at as i128) + (self.interval as i128) * 60;
            next <= now as i128
        }
    }
}

/// The seeds due for a fetch at time `now`, in stored order: what one
/// scheduler tick walks.
pub fn due_seeds(seeds: &Vec<Seed>, now: i64) -> (r: Vec<Seed>)
    ensures
        r@ == seeds@.filter(
            |s: Seed| spec_is_due(s.last_fetched_at as int, s.interval as int, now as int),
        ),
{
    let ghost pred = |s: Seed|
        spec_is_due(s.last_fetched_at as int, s.interval as int, now as int);
    let mut out: Vec<Seed> = Vec::new();
    let n = seeds.len();
    let mut i: usize = 0;
    proof {
        reveal(Seq::filter);
        assert(seeds@.take(0).filter(pred) =~= Seq::<Seed>::empty());
    }
    while i < n
        invariant
            0 <= i <= n,
            n == seeds@.len(),
            out@ == seeds@.take(i as int).filter(pred),
            pred == (|s: Seed|
                spec_is_due(s.last_fetched_at as int, s.interval as int, now as int)),
        decreases n - i,
    {
        let ghost pre = seeds@.take(i as int);
        let ghost post = seeds@.take(i + 1);
        proof {
            reveal(Seq::filter);
            assert(post.drop_last() =~= pre);
            assert(post.last() == seeds@[i as int]);
        }
        if seeds[i].should_fetch(now) {
            let kept = seeds[i].clone();
            proof {
                assert(kept == seeds@[i as int]);
            }
            out.push(kept);
        }
        i += 1;
    }
    proof {
        assert(seeds@.take(n as int) =~= seeds@);
    }
    out
}

impl Clone for Seed {
    /// A field-for-field copy.
    fn clone(&self) -> (r: Self)
        ensures
            r == *self,
    {
        Seed {
            id: self.id,
            name: self.name.clone(),
            url: self.url.clone(),
            favicon: match &self.favicon {
                Some(f) => Some(f.clone()),
                None => None,
            },
            interval: self.interval,
            last_fetched_at: self.last_fetched_at,
            last_fetch_ok: self.last_fetch_ok,
        }
    }
}

/// One piece of content fetched from a seed.
pub struct Article {
    /// Stable identity, unique across the article table.
    pub id: i64,
    /// Owning seed.
    pub seed_id: i64,
    /// Display name of the owning seed, joined in by queries.
    pub seed_name: String,
    /// Global deduplication key, unique across the article table.
    pub guid: String,
    /// Title, if the source gave one.
    pub title: Option<String>,
    /// Author, if the source gave one.
    pub author: Option<String>,
    /// HTML description, if the source gave one.
    pub desc: Option<String>,
    /// Link to the full content, if the source gave one.
    pub link: Option<String>,
    /// Publication time in epoch seconds.
    pub pub_date: i64,
    /// Whether the article is still unread.
    pub unread: bool,
}

impl Clone for Article {
    /// A field-for-field copy.
    fn clone(&self) -> (r: Self)
        ensures
            r == *self,
    {
        Article {
            id: self.id,
            seed_id: self.seed_id,
            seed_name: self.seed_name.clone(),
            guid: self.guid.clone(),
            title: match &self.title {
                Some(t) => Some(t.clone()),
                None => None,
            },
            author: match &self.author {
                Some(a) => Some(a.clone()),
                None => None,
            },
            desc: match &self.desc {
                Some(d) => Some(d.clone()),
                None => None,
            },
            link: match &self.link {
                Some(l) => Some(l.clone()),
                None => None,
            },
            pub_date: self.pub_date,
            unread: self.unread,
        }
    }
}

/// An article reduced to plain values: every string as its character
/// sequence. The adapters' contracts speak in these terms.
pub struct ArticleModel {
    /// Identity.
    pub id: i64,
    /// Owning seed.
    pub seed_id: i64,
    /// Owning seed's display name.
    pub seed_name: Seq<char>,
    /// Deduplication key.
    pub guid: Seq<char>,
    /// Title, if any.
    pub title: Option<Seq<char>>,
    /// Author, if any.
    pub author: Option<Seq<char>>,
    /// HTML description, if any.
    pub desc: Option<Seq<char>>,
    /// Link, if any.
    pub link: Option<Seq<char>>,
    /// Publication time in epoch seconds.
    pub pub_date: i64,
    /// Unread flag.
    pub unread: bool,
}

/// The view of an optional string.
pub open spec fn opt_view(o: Option<String>) -> Option<Seq<char>> {
    match o {
        Some(x) => Some(x@),
        None => None,
    }
}

/// The plain-value model of an article.
pub open spec fn article_model(a: Article) -> ArticleModel {
    ArticleModel {
        id: a.id,
        seed_id: a.seed_id,
        seed_name: a.seed_name@,
        guid: a.guid@,
        title: opt_view(a.title),
        author: opt_view(a.author),
        desc: opt_view(a.desc),
        link: opt_view(a.link),
        pub_date: a.pub_date,
        unread: a.unread,
    }
}

/// Listing order of two articles: publication time descending, identity
/// ascending. This is the total order behind pagination.
pub open spec fn key_lt(a: Article, b: Article) -> bool {
    a.pub_date > b.pub_date || (a.pub_date == b.pub_date && a.id < b.id)
}

} // verus!
