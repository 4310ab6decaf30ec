//! The query engine: keyset-paginated article listing over the composite
//! order (publication time descending, identity ascending), filtered by
//! seed, watch-list keyword match or title substring search, with a cursor
//! that stays stable under concurrent insertions.

use vstd::prelude::*;

use crate::seed::{key_lt, Article, Seed};
use crate::store::{sorted_desc, Store, WatchKeyword};
use crate::text::{
    chars_to_string, contains_seq, lemma_i64_digits_no_colon, lemma_parse_digits_roundtrip,
    parse_i64, push_i64_digits, spec_i64_digits, spec_parse_i64, str_chars,
};

verus! {

/// A paginated listing request.
pub struct ArticleFilters {
    /// Scope: a positive identity lists one seed, a negative one lists the
    /// watched articles, absence lists all seeds but the reserved id 0.
    pub seed_id: Option<i64>,
    /// Resume position, as the previous page's cursor.
    pub cursor: Option<String>,
    /// Page size; 20 when absent.
    pub limit: Option<i32>,
    /// Title substring filter, ignored when empty.
    pub search: Option<String>,
}

/// One page of a listing, and where to resume.
pub struct ArticleResult {
    /// The page, in listing order.
    pub articles: Vec<Article>,
    /// Cursor of the first pending article, when any remain.
    pub next_cursor: Option<String>,
}

/// Index of the first `:` in `s` at or after `from`; the length if none.
pub open spec fn find_colon(s: Seq<char>, from: int) -> int
    recommends
        0 <= from,
    decreases s.len() - from,
{
    if from >= s.len() {
        s.len() as int
    } else if s[from] == ':' {
        from
    } else {
        find_colon(s, from + 1)
    }
}

/// What a cursor string denotes: the halves around the first colon, read as
/// decimal; a malformed first half falls back to `i64::MAX`, a malformed or
/// missing second half to 0. The second half ends at the next colon, if any.
pub open spec fn spec_cursor(s: Seq<char>) -> (int, int) {
    let c1 = find_colon(s, 0);
    let pd = match spec_parse_i64(s.take(c1)) {
        Some(v) => v as int,
        None => i64::MAX as int,
    };
    let id = if c1 >= s.len() {
        0int
    } else {
        let c2 = find_colon(s, c1 + 1);
        match spec_parse_i64(s.subrange(c1 + 1, c2)) {
            Some(v) => v as int,
            None => 0int,
        }
    };
    (pd, id)
}

/// The cursor string for an article key.
pub open spec fn spec_cursor_string(pd: int, id: int) -> Seq<char> {
    spec_i64_digits(pd) + seq![':'] + spec_i64_digits(id)
}

proof fn lemma_find_colon_exact(s: Seq<char>, from: int, m: int)
    requires
        0 <= from <= m <= s.len(),
        forall|k: int| from <= k < m ==> s[k] != ':',
        m == s.len() || s[m] == ':',
    ensures
        find_colon(s, from) == m,
    decreases m - from,
{
    if from < m {
        lemma_find_colon_exact(s, from + 1, m);
    }
}

/// A cursor formatted from an article key reads back as exactly that key.
pub proof fn lemma_cursor_roundtrip(pd: i64, id: i64)
    ensures
        spec_cursor(spec_cursor_string(pd as int, id as int)) == (pd as int, id as int),
{
    let d1 = spec_i64_digits(pd as int);
    let d2 = spec_i64_digits(id as int);
    let s = spec_cursor_string(pd as int, id as int);
    lemma_i64_digits_no_colon(pd as int);
    lemma_i64_digits_no_colon(id as int);
    assert(s.len() == d1.len() + 1 + d2.len());
    assert(s[d1.len() as int] == ':');
    assert forall|k: int| 0 <= k < d1.len() implies s[k] != ':' by {
        assert(s[k] == d1[k]);
    }
    lemma_find_colon_exact(s, 0, d1.len() as int);
    assert(s.take(d1.len() as int) =~= d1);
    lemma_parse_digits_roundtrip(pd);
    assert forall|k: int| d1.len() + 1 <= k < s.len() implies s[k] != ':' by {
        assert(s[k] == d2[k - d1.len() - 1]);
    }
    lemma_find_colon_exact(s, d1.len() as int + 1, s.len() as int);
    assert(s.subrange(d1.len() as int + 1, s.len() as int) =~= d2);
    lemma_parse_digits_roundtrip(id);
}

/// Renders an article key as a cursor string.
pub fn format_cursor(pd: i64, id: i64) -> (r: String)
    ensures
        r@ == spec_cursor_string(pd as int, id as int),
{
    let mut out: Vec<char> = Vec::new();
    push_i64_digits(pd, &mut out);
    out.push(':');
    push_i64_digits(id, &mut out);
    proof {
        assert(out@ =~= spec_cursor_string(pd as int, id as int));
    }
    chars_to_string(&out)
}

/// Reads a cursor string back into an article key, with the fallbacks of
/// [`spec_cursor`] for malformed halves.
pub fn parse_cursor(cursor: &str) -> (r: (i64, i64))
    ensures
        (r.0 as int, r.1 as int) == spec_cursor(cursor@),
{
    let chars = str_chars(cursor);
    let n = chars.len();
    let mut c1: usize = 0;
    while c1 < n && chars[c1] != ':'
        invariant
            0 <= c1 <= n,
            n == chars@.len(),
            forall|k: int| 0 <= k < c1 ==> chars@[k] != ':',
        decreases n - c1,
    {
        c1 += 1;
    }
    proof {
        lemma_find_colon_exact(chars@, 0, c1 as int);
    }
    let mut left: Vec<char> = Vec::new();
    let mut k: usize = 0;
    while k < c1
        invariant
            0 <= k <= c1 <= n,
            n == chars@.len(),
            left@ == chars@.take(k as int),
        decreases c1 - k,
    {
        left.push(chars[k]);
        proof {
            assert(left@ =~= chars@.take(k + 1));
        }
        k += 1;
    }
    let pd = match parse_i64(&left) {
        Some(v) => v,
        None => i64::MAX,
    };
    let mut id: i64 = 0;
    if c1 < n {
        let mut c2: usize = c1 + 1;
        while c2 < n && chars[c2] != ':'
            invariant
                c1 + 1 <= c2 <= n,
                n == chars@.len(),
                forall|k2: int| c1 + 1 <= k2 < c2 ==> chars@[k2] != ':',
            decreases n - c2,
        {
            c2 += 1;
        }
        proof {
            lemma_find_colon_exact(chars@, c1 + 1, c2 as int);
        }
        let mut right: Vec<char> = Vec::new();
        let mut j: usize = c1 + 1;
        while j < c2
            invariant
                c1 + 1 <= j <= c2 <= n,
                n == chars@.len(),
                right@ == chars@.subrange(c1 + 1, j as int),
            decreases c2 - j,
        {
            right.push(chars[j]);
            proof {
                assert(right@ =~= chars@.subrange(c1 + 1, j + 1));
            }
            j += 1;
        }
        proof {
            assert(right@ =~= chars@.subrange(c1 + 1, c2 as int));
        }
        id = match parse_i64(&right) {
            Some(v) => v,
            None => 0,
        };
    }
    (pd, id)
}

/// Whether an article lies at or after the cursor position in listing
/// order: published earlier than the cursor's time, or at the same time
/// with an identity no smaller.
pub open spec fn after_cursor(a: Article, cpd: int, cid: int) -> bool {
    (a.pub_date as int) < cpd || (a.pub_date as int == cpd && a.id as int >= cid)
}

/// Whether a title carries any of the watched keywords.
pub open spec fn title_matches_watch(title: Option<String>, watch: Seq<WatchKeyword>) -> bool {
    match title {
        Some(t) => exists|k: int|
            0 <= k < watch.len() && contains_seq(t@, (#[trigger] watch[k]).keyword@),
        None => false,
    }
}

/// The row predicate of a listing, cursor aside: the article is unread, it
/// lies in the requested scope — one seed for a positive identity, the
/// watch list for a negative one, all seeds but the reserved id 0 when no
/// seed is given — and a non-empty search string occurs in its title.
pub open spec fn base_pred(
    a: Article,
    seed_id: Option<i64>,
    watch: Seq<WatchKeyword>,
    search: Option<String>,
) -> bool {
    &&& a.unread
    &&& match seed_id {
        Some(sid) => if sid < 0 {
            title_matches_watch(a.title, watch)
        } else {
            a.seed_id == sid
        },
        None => a.seed_id != 0,
    }
    &&& match search {
        Some(q) => q@.len() == 0 || (a.title is Some && contains_seq(a.title->0@, q@)),
        None => true,
    }
}

/// The full row predicate of a listing at a cursor.
pub open spec fn listing_pred(
    seed_id: Option<i64>,
    watch: Seq<WatchKeyword>,
    search: Option<String>,
    cpd: int,
    cid: int,
) -> spec_fn(Article) -> bool {
    |a: Article| base_pred(a, seed_id, watch, search) && after_cursor(a, cpd, cid)
}

/// Everything a listing at a cursor selects, in listing order.
pub open spec fn selected(
    arts: Seq<Article>,
    watch: Seq<WatchKeyword>,
    seed_id: Option<i64>,
    search: Option<String>,
    cpd: int,
    cid: int,
) -> Seq<Article> {
    arts.filter(listing_pred(seed_id, watch, search, cpd, cid))
}

/// The cursor position a request denotes: the given cursor's key, or the
/// top of the ordering (maximal time, identity 0) for the first page.
pub open spec fn spec_request_cursor(cursor: Option<String>) -> (int, int) {
    match cursor {
        Some(c) => spec_cursor(c@),
        None => (i64::MAX as int, 0int),
    }
}

/// The page size a request denotes: the given limit, or 20.
pub open spec fn spec_limit(limit: Option<i32>) -> int {
    match limit {
        Some(l) => l as int,
        None => 20int,
    }
}

/// The display name the seed relation joins onto an article of seed `sid`.
pub open spec fn spec_seed_name(seeds: Seq<Seed>, sid: i64) -> Option<String>
    decreases seeds.len(),
{
    if seeds.len() == 0 {
        None
    } else if seeds[0].id == sid {
        Some(seeds[0].name)
    } else {
        spec_seed_name(seeds.skip(1), sid)
    }
}

/// An article as a listing returns it: with its owning seed's display name
/// joined in, when that seed exists.
pub open spec fn with_seed_name(a: Article, seeds: Seq<Seed>) -> Article {
    match spec_seed_name(seeds, a.seed_id) {
        Some(nm) => Article { seed_name: nm, ..a },
        None => a,
    }
}

/// Whether any watched keyword occurs in the title.
#[verifier::loop_isolation(false)]
fn title_matches_watch_exec(title: &Option<String>, watch: &Vec<WatchKeyword>) -> (r: bool)
    ensures
        r == title_matches_watch(*title, watch@),
{
    match title {
        None => false,
        Some(t) => {
            let tc = str_chars(t.as_str());
            let n = watch.len();
            let mut k: usize = 0;
            while k < n
                invariant
                    0 <= k <= n,
                    n == watch@.len(),
                    tc@ == t@,
                    forall|j: int|
                        0 <= j < k ==> !contains_seq(t@, (#[trigger] watch@[j]).keyword@),
                decreases n - k,
            {
                let kw = str_chars(watch[k].keyword.as_str());
                if crate::text::contains_chars(&tc, &kw) {
                    proof {
                        assert(contains_seq(t@, watch@[k as int].keyword@));
                        assert((*title)->0 == *t);
                        assert(title_matches_watch(*title, watch@));
                    }
                    return true;
                }
                k += 1;
            }
            false
        },
    }
}

/// Whether the title passes the search filter: no search string, an empty
/// one, or one that occurs in the title.
fn search_matches_exec(title: &Option<String>, search: &Option<String>) -> (r: bool)
    ensures
        r == match *search {
            Some(q) => q@.len() == 0 || (*title is Some && contains_seq((*title)->0@, q@)),
            None => true,
        },
{
    match search {
        None => true,
        Some(q) => {
            if q.as_str().unicode_len() == 0 {
                true
            } else {
                match title {
                    None => false,
                    Some(t) => {
                        let tc = str_chars(t.as_str());
                        let qc = str_chars(q.as_str());
                        crate::text::contains_chars(&tc, &qc)
                    },
                }
            }
        },
    }
}

/// Whether one article is selected by a listing at a cursor.
fn row_matches(
    a: &Article,
    seed_id: Option<i64>,
    watch: &Vec<WatchKeyword>,
    search: &Option<String>,
    cpd: i64,
    cid: i64,
) -> (r: bool)
    ensures
        r == listing_pred(seed_id, watch@, *search, cpd as int, cid as int)(*a),
{
    let in_cursor = a.pub_date < cpd || (a.pub_date == cpd && a.id >= cid);
    let in_scope = match seed_id {
        Some(sid) => {
            if sid < 0 {
                title_matches_watch_exec(&a.title, watch)
            } else {
                a.seed_id == sid
            }
        },
        None => a.seed_id != 0,
    };
    let hit = a.unread && in_cursor && in_scope && search_matches_exec(&a.title, search);
    proof {
        assert(listing_pred(seed_id, watch@, *search, cpd as int, cid as int)(*a) == (base_pred(
            *a,
            seed_id,
            watch@,
            *search,
        ) && after_cursor(*a, cpd as int, cid as int)));
    }
    hit
}

impl Store {
    /// The display name of seed `sid`, when one exists.
    fn find_seed_name(&self, sid: i64) -> (r: Option<String>)
        ensures
            r == spec_seed_name(self.seeds@, sid),
    {
        let n = self.seeds.len();
        let mut i: usize = 0;
        proof {
            assert(self.seeds@.skip(0) =~= self.seeds@);
        }
        while i < n
            invariant
                0 <= i <= n,
                n == self.seeds@.len(),
                spec_seed_name(self.seeds@, sid) == spec_seed_name(self.seeds@.skip(i as int), sid),
            decreases n - i,
        {
            proof {
                assert(self.seeds@.skip(i as int)[0] == self.seeds@[i as int]);
                assert(self.seeds@.skip(i as int).skip(1) =~= self.seeds@.skip(i + 1));
            }
            if self.seeds[i].id == sid {
                return Some(self.seeds[i].name.clone());
            }
            i += 1;
        }
        proof {
            assert(self.seeds@.skip(n as int) =~= Seq::<Seed>::empty());
        }
        None
    }

    /// One page of a listing: among the unread articles in the requested
    /// scope, those at or after the cursor, in listing order, up to the
    /// requested limit, each carrying its seed's display name. When more
    /// remain, the next cursor is the key of the first pending article; a
    /// negative limit lists everything pending with no cursor.
    #[verifier::loop_isolation(false)]
    #[verifier::rlimit(60)]
    pub fn get_articles(&self, filters: &ArticleFilters) -> (r: ArticleResult)
        requires
            self.wf(),
        ensures
            ({
                let c = spec_request_cursor(filters.cursor);
                let sel = selected(
                    self.articles@,
                    self.watch_list@,
                    filters.seed_id,
                    filters.search,
                    c.0,
                    c.1,
                );
                let lim = spec_limit(filters.limit);
                &&& (lim < 0 ==> r.articles@.len() == sel.len() && r.next_cursor is None)
                &&& (lim >= 0 ==> r.articles@.len() == if sel.len() <= lim {
                    sel.len() as int
                } else {
                    lim
                })
                &&& forall|i: int|
                    0 <= i < r.articles@.len() ==> r.articles@[i] == with_seed_name(
                        #[trigger] sel[i],
                        self.seeds@,
                    )
                &&& (lim >= 0 && sel.len() > lim ==> r.next_cursor is Some
                    && r.next_cursor->0@ == spec_cursor_string(
                    sel[lim].pub_date as int,
                    sel[lim].id as int,
                ))
                &&& (!(lim >= 0 && sel.len() > lim) ==> r.next_cursor is None)
            }),
    {
        let (cpd, cid): (i64, i64) = match &filters.cursor {
            Some(c) => parse_cursor(c.as_str()),
            None => (i64::MAX, 0),
        };
        let ghost pred = listing_pred(
            filters.seed_id,
            self.watch_list@,
            filters.search,
            cpd as int,
            cid as int,
        );
        let mut out: Vec<Article> = Vec::new();
        let n = self.articles.len();
        let mut i: usize = 0;
        proof {
            reveal(Seq::filter);
            assert(self.articles@.take(0).filter(pred) =~= Seq::<Article>::empty());
        }
        while i < n
            invariant
                0 <= i <= n,
                n == self.articles@.len(),
                out@ == self.articles@.take(i as int).filter(pred),
                pred == listing_pred(
                    filters.seed_id,
                    self.watch_list@,
                    filters.search,
                    cpd as int,
                    cid as int,
                ),
            decreases n - i,
        {
            let ghost pre = self.articles@.take(i as int);
            let ghost post = self.articles@.take(i + 1);
            proof {
                reveal(Seq::filter);
                assert(post.drop_last() =~= pre);
                assert(post.last() == self.articles@[i as int]);
            }
            let a = &self.articles[i];
            let hit = row_matches(a, filters.seed_id, &self.watch_list, &filters.search, cpd, cid);
            if hit {
                let kept = self.articles[i].clone();
                proof {
                    assert(kept == self.articles@[i as int]);
                }
                out.push(kept);
            }
            i += 1;
        }
        proof {
            assert(self.articles@.take(n as int) =~= self.articles@);
        }
        let ghost sel = selected(
            self.articles@,
            self.watch_list@,
            filters.seed_id,
            filters.search,
            cpd as int,
            cid as int,
        );
        proof {
            assert(out@ == sel);
        }
        let lim: i32 = match filters.limit {
            Some(l) => l,
            None => 20,
        };
        let mut next_cursor: Option<String> = None;
        if lim >= 0 {
            let limu = lim as usize;
            if out.len() > limu {
                let nc = format_cursor(out[limu].pub_date, out[limu].id);
                next_cursor = Some(nc);
                out.truncate(limu);
                proof {
                    assert(out@ =~= sel.subrange(0, limu as int));
                }
            }
        }
        let m = out.len();
        let mut page: Vec<Article> = Vec::new();
        let mut j: usize = 0;
        while j < m
            invariant
                0 <= j <= m,
                m == out@.len(),
                page@.len() == j,
                forall|k: int| 0 <= k < m ==> out@[k] == sel[k],
                forall|k: int|
                    0 <= k < j ==> page@[k] == with_seed_name(#[trigger] out@[k], self.seeds@),
            decreases m - j,
        {
            let mut joined = out[j].clone();
            match self.find_seed_name(joined.seed_id) {
                Some(nm) => {
                    joined.seed_name = nm;
                },
                None => {},
            }
            proof {
                assert(joined == with_seed_name(out@[j as int], self.seeds@));
            }
            page.push(joined);
            j += 1;
        }
        ArticleResult { articles: page, next_cursor: next_cursor }
    }
}

/// The conjunction of two row predicates.
pub open spec fn and_pred(
    p: spec_fn(Article) -> bool,
    q: spec_fn(Article) -> bool,
) -> spec_fn(Article) -> bool {
    |a: Article| p(a) && q(a)
}

/// The scope-and-search half of a listing predicate.
pub open spec fn base_only_pred(
    seed_id: Option<i64>,
    watch: Seq<WatchKeyword>,
    search: Option<String>,
) -> spec_fn(Article) -> bool {
    |a: Article| base_pred(a, seed_id, watch, search)
}

/// The cursor half of a listing predicate.
pub open spec fn cursor_pred(cpd: int, cid: int) -> spec_fn(Article) -> bool {
    |a: Article| after_cursor(a, cpd, cid)
}

proof fn lemma_filter_and(s: Seq<Article>, p: spec_fn(Article) -> bool, q: spec_fn(Article) -> bool)
    ensures
        s.filter(and_pred(p, q)) == s.filter(p).filter(q),
    decreases s.len(),
{
    reveal(Seq::filter);
    if s.len() > 0 {
        lemma_filter_and(s.drop_last(), p, q);
        let sd = s.drop_last();
        let l = s.last();
        assert(and_pred(p, q)(l) == (p(l) && q(l)));
        if p(l) {
            assert(s.filter(p) == sd.filter(p).push(l));
            assert(s.filter(p).drop_last() =~= sd.filter(p));
            assert(s.filter(p).last() == l);
            if q(l) {
                assert(s.filter(p).filter(q) == s.filter(p).drop_last().filter(q).push(l));
            } else {
                assert(s.filter(p).filter(q) == s.filter(p).drop_last().filter(q));
            }
        } else {
            assert(s.filter(p) == sd.filter(p));
            assert(s.filter(and_pred(p, q)) == sd.filter(and_pred(p, q)));
        }
    }
}

proof fn lemma_filter_all(s: Seq<Article>, q: spec_fn(Article) -> bool)
    requires
        forall|i: int| 0 <= i < s.len() ==> q(#[trigger] s[i]),
    ensures
        s.filter(q) == s,
    decreases s.len(),
{
    reveal(Seq::filter);
    if s.len() > 0 {
        lemma_filter_all(s.drop_last(), q);
        assert(s.drop_last().filter(q).push(s.last()) =~= s);
    }
}

proof fn lemma_filter_none(s: Seq<Article>, q: spec_fn(Article) -> bool)
    requires
        forall|i: int| 0 <= i < s.len() ==> !q(#[trigger] s[i]),
    ensures
        s.filter(q) == Seq::<Article>::empty(),
    decreases s.len(),
{
    reveal(Seq::filter);
    if s.len() > 0 {
        lemma_filter_none(s.drop_last(), q);
    }
}

proof fn lemma_filter_sorted(s: Seq<Article>, p: spec_fn(Article) -> bool)
    requires
        sorted_desc(s),
    ensures
        sorted_desc(s.filter(p)),
    decreases s.len(),
{
    reveal(Seq::filter);
    if s.len() > 0 {
        assert(sorted_desc(s.drop_last()));
        lemma_filter_sorted(s.drop_last(), p);
        let f = s.filter(p);
        let fd = s.drop_last().filter(p);
        if p(s.last()) {
            assert(f == fd.push(s.last()));
            assert forall|i: int, j: int| 0 <= i < j < f.len() implies key_lt(
                #[trigger] f[i],
                #[trigger] f[j],
            ) by {
                if j == f.len() - 1 {
                    let x = fd[i];
                    assert(fd.contains(x));
                    s.drop_last().lemma_filter_contains_rev(p, x);
                    let w = choose|w: int| 0 <= w < s.drop_last().len() && s.drop_last()[w] == x;
                    assert(s[w] == x);
                    assert(key_lt(s[w], s.last()));
                } else {
                    assert(f[i] == fd[i] && f[j] == fd[j]);
                    assert(key_lt(fd[i], fd[j]));
                }
            }
        } else {
            assert(f == fd);
        }
    }
}

/// On a sorted sequence whose cursor predicate flips exactly at position
/// `m`, filtering by the cursor keeps exactly the suffix from `m`.
proof fn lemma_filter_cursor_skip(f: Seq<Article>, cpd: int, cid: int, m: int)
    requires
        sorted_desc(f),
        0 <= m <= f.len(),
        forall|j: int| 0 <= j < f.len() ==> (j >= m <==> after_cursor(#[trigger] f[j], cpd, cid)),
    ensures
        f.filter(cursor_pred(cpd, cid)) == f.skip(m),
    decreases f.len(),
{
    reveal(Seq::filter);
    let q = cursor_pred(cpd, cid);
    if f.len() == 0 {
        assert(f.filter(q) =~= f.skip(m));
    } else if m == f.len() {
        assert forall|i: int| 0 <= i < f.len() implies !q(#[trigger] f[i]) by {
            assert(!after_cursor(f[i], cpd, cid));
        }
        lemma_filter_none(f, q);
        assert(f.filter(q) =~= f.skip(m));
    } else {
        let fd = f.drop_last();
        assert(sorted_desc(fd));
        assert(q(f.last()));
        assert forall|j: int| 0 <= j < fd.len() implies (j >= m <==> after_cursor(
            #[trigger] fd[j],
            cpd,
            cid,
        )) by {
            assert(fd[j] == f[j]);
        }
        lemma_filter_cursor_skip(fd, cpd, cid, m);
        assert(f.filter(q) == fd.filter(q).push(f.last()));
        assert(fd.skip(m).push(f.last()) =~= f.skip(m));
    }
}

/// Keyset pagination partitions the filtered ordering. Let `full` be the
/// articles a cursorless listing would select, in listing order. The
/// listing at the cursor standing at position `n` — the cursor a page
/// ending just before `full[n]` reports — selects exactly the pending
/// suffix `full[n ..]`. Page by page, each page takes the first `limit`
/// articles of its suffix and reports the cursor of position `n + limit`,
/// so every selected article is visited exactly once and in order, and an
/// article at or behind a page already visited is never listed again —
/// also when articles were inserted in between, since insertion leaves the
/// relative order of the rest unchanged.
pub proof fn lemma_pagination_partition(
    arts: Seq<Article>,
    watch: Seq<WatchKeyword>,
    seed_id: Option<i64>,
    search: Option<String>,
    n: int,
)
    requires
        sorted_desc(arts),
        forall|i: int| 0 <= i < arts.len() ==> (#[trigger] arts[i]).id > 0,
        0 <= n < selected(arts, watch, seed_id, search, i64::MAX as int, 0).len(),
    ensures
        ({
            let full = selected(arts, watch, seed_id, search, i64::MAX as int, 0);
            selected(
                arts,
                watch,
                seed_id,
                search,
                full[n].pub_date as int,
                full[n].id as int,
            ) == full.skip(n)
        }),
{
    let bp = base_only_pred(seed_id, watch, search);
    let top = cursor_pred(i64::MAX as int, 0);
    let full = selected(arts, watch, seed_id, search, i64::MAX as int, 0);
    assert(listing_pred(seed_id, watch, search, i64::MAX as int, 0) =~= and_pred(bp, top));
    lemma_filter_and(arts, bp, top);
    let base = arts.filter(bp);
    lemma_filter_sorted(arts, bp);
    assert forall|i: int| 0 <= i < base.len() implies (#[trigger] base[i]).id > 0 by {
        let x = base[i];
        assert(base.contains(x));
        arts.lemma_filter_contains_rev(bp, x);
        let w = choose|w: int| 0 <= w < arts.len() && arts[w] == x;
        assert(arts[w].id > 0);
    }
    assert forall|i: int| 0 <= i < base.len() implies top(#[trigger] base[i]) by {
        assert(after_cursor(base[i], i64::MAX as int, 0));
    }
    lemma_filter_all(base, top);
    assert(full == base);
    let cpd = full[n].pub_date as int;
    let cid = full[n].id as int;
    assert(listing_pred(seed_id, watch, search, cpd, cid) =~= and_pred(
        bp,
        cursor_pred(cpd, cid),
    ));
    lemma_filter_and(arts, bp, cursor_pred(cpd, cid));
    assert forall|j: int| 0 <= j < full.len() implies (j >= n <==> after_cursor(
        #[trigger] full[j],
        cpd,
        cid,
    )) by {
        if j > n {
            assert(key_lt(full[n], full[j]));
        }
        if j < n {
            assert(key_lt(full[j], full[n]));
        }
    }
    lemma_filter_cursor_skip(full, cpd, cid, n);
}

/// A listing at a cursor never returns an article whose key lies before
/// the cursor: what falls in already-visited territory — also an article
/// inserted there after those pages were read — stays out of every later
/// page.
pub proof fn lemma_cursor_excludes(
    arts: Seq<Article>,
    watch: Seq<WatchKeyword>,
    seed_id: Option<i64>,
    search: Option<String>,
    cpd: int,
    cid: int,
    x: Article,
)
    requires
        !after_cursor(x, cpd, cid),
    ensures
        forall|i: int|
            0 <= i < selected(arts, watch, seed_id, search, cpd, cid).len() ==> (
            #[trigger] selected(arts, watch, seed_id, search, cpd, cid)[i]) != x,
{
    let sel = selected(arts, watch, seed_id, search, cpd, cid);
    assert forall|i: int| 0 <= i < sel.len() implies (#[trigger] sel[i]) != x by {
        arts.lemma_filter_pred(listing_pred(seed_id, watch, search, cpd, cid), i);
        assert(after_cursor(sel[i], cpd, cid));
    }
}

} // verus!
