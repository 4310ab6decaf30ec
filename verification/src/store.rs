//! The article store: an in-memory model of the four relations (seeds,
//! articles, settings, watch list) with the schema version, the
//! deduplicating ingest protocol, read marking, retention, and the derived
//! events each mutation emits. The host persists this state; every
//! operation here is verified against the store's invariants.

use vstd::prelude::*;

use crate::error::Error;
use crate::events::{ArticleReadEvent, Event, SeedUnreadCountEvent};
use crate::seed::{key_lt, Article, Seed};

verus! {

/// The schema version this library maintains.
pub const CURRENT_DB_VERSION: u32 = 4;

/// One row of the settings relation.
pub struct Setting {
    /// Unique key.
    pub key: String,
    /// Opaque value, typically JSON-encoded.
    pub value: String,
}

/// One row of the watch-list relation.
pub struct WatchKeyword {
    /// Surrogate identity.
    pub id: i64,
    /// Unique keyword.
    pub keyword: String,
}

/// The store's full state.
pub struct Store {
    /// Persisted schema version.
    pub version: u32,
    /// The seed relation.
    pub seeds: Vec<Seed>,
    /// The article relation, kept in listing order (publication time
    /// descending, identity ascending) as the descending index would.
    pub articles: Vec<Article>,
    /// The settings relation.
    pub settings: Vec<Setting>,
    /// The watch-list relation.
    pub watch_list: Vec<WatchKeyword>,
    /// Next seed identity to assign.
    pub next_seed_id: i64,
    /// Next article identity to assign.
    pub next_article_id: i64,
    /// Next watch-list identity to assign.
    pub next_watch_id: i64,
}

/// No two articles share a guid.
pub open spec fn guids_unique(arts: Seq<Article>) -> bool {
    forall|i: int, j: int|
        0 <= i < j < arts.len() ==> (#[trigger] arts[i]).guid@ != (#[trigger] arts[j]).guid@
}

/// Some article already carries guid `g`.
pub open spec fn guid_present(arts: Seq<Article>, g: Seq<char>) -> bool {
    exists|i: int| 0 <= i < arts.len() && (#[trigger] arts[i]).guid@ == g
}

/// Articles stand in strict listing order.
pub open spec fn sorted_desc(arts: Seq<Article>) -> bool {
    forall|i: int, j: int|
        0 <= i < j < arts.len() ==> key_lt(#[trigger] arts[i], #[trigger] arts[j])
}

/// Every article identity is positive and below the next to assign.
pub open spec fn article_ids_bounded(arts: Seq<Article>, next: int) -> bool {
    forall|i: int| 0 <= i < arts.len() ==> 0 < (#[trigger] arts[i]).id < next
}

/// No two articles share an identity.
pub open spec fn article_ids_unique(arts: Seq<Article>) -> bool {
    forall|i: int, j: int|
        0 <= i < j < arts.len() ==> (#[trigger] arts[i]).id != (#[trigger] arts[j]).id
}

/// Some seed has identity `sid`.
pub open spec fn seed_exists(seeds: Seq<Seed>, sid: i64) -> bool {
    exists|i: int| 0 <= i < seeds.len() && (#[trigger] seeds[i]).id == sid
}

/// Some seed is already named `name`.
pub open spec fn seed_name_taken(seeds: Seq<Seed>, name: Seq<char>) -> bool {
    exists|i: int| 0 <= i < seeds.len() && (#[trigger] seeds[i]).name@ == name
}

/// Some seed already has URL `url`.
pub open spec fn seed_url_taken(seeds: Seq<Seed>, url: Seq<char>) -> bool {
    exists|i: int| 0 <= i < seeds.len() && (#[trigger] seeds[i]).url@ == url
}

/// Seed identities, names and URLs are pairwise distinct, and identities
/// are positive and below the next to assign.
pub open spec fn seeds_wf(seeds: Seq<Seed>, next: int) -> bool {
    &&& forall|i: int| 0 <= i < seeds.len() ==> 0 < (#[trigger] seeds[i]).id < next
    &&& forall|i: int, j: int|
        0 <= i < j < seeds.len() ==> (#[trigger] seeds[i]).id != (#[trigger] seeds[j]).id && seeds[i].name@
            != seeds[j].name@ && seeds[i].url@ != seeds[j].url@
}

/// Settings keys are pairwise distinct.
pub open spec fn settings_wf(settings: Seq<Setting>) -> bool {
    forall|i: int, j: int|
        0 <= i < j < settings.len() ==> (#[trigger] settings[i]).key@ != (#[trigger] settings[j]).key@
}

/// Watch keywords and identities are pairwise distinct; identities are
/// positive and below the next to assign.
pub open spec fn watch_wf(watch: Seq<WatchKeyword>, next: int) -> bool {
    &&& forall|i: int| 0 <= i < watch.len() ==> 0 < (#[trigger] watch[i]).id < next
    &&& forall|i: int, j: int|
        0 <= i < j < watch.len() ==> (#[trigger] watch[i]).id != (#[trigger] watch[j]).id && watch[i].keyword@
            != watch[j].keyword@
}

/// A keyword is already on the watch list.
pub open spec fn keyword_present(watch: Seq<WatchKeyword>, kw: Seq<char>) -> bool {
    exists|i: int| 0 <= i < watch.len() && (#[trigger] watch[i]).keyword@ == kw
}

impl Store {
    /// The store's invariants: unique guids (the deduplication key), strict
    /// listing order, referential integrity of articles to seeds, unique
    /// seed names and URLs, unique settings keys and watch keywords, and
    /// counts small enough for 32-bit totals.
    pub open spec fn wf(self) -> bool {
        &&& guids_unique(self.articles@)
        &&& sorted_desc(self.articles@)
        &&& article_ids_bounded(self.articles@, self.next_article_id as int)
        &&& article_ids_unique(self.articles@)
        &&& forall|i: int|
            0 <= i < self.articles@.len() ==> seed_exists(
                self.seeds@,
                (#[trigger] self.articles@[i]).seed_id,
            )
        &&& seeds_wf(self.seeds@, self.next_seed_id as int)
        &&& settings_wf(self.settings@)
        &&& watch_wf(self.watch_list@, self.next_watch_id as int)
        &&& self.articles@.len() < 0x8000_0000
        &&& self.seeds@.len() < 0x8000_0000
        &&& self.watch_list@.len() < 0x8000_0000
        &&& 0 < self.next_seed_id
        &&& 0 < self.next_article_id
        &&& 0 < self.next_watch_id
    }

}

/// What opening a store at persisted version `v` leaves as the schema
/// version: versions behind the current one are brought up to it, others
/// are kept.
pub open spec fn spec_upgrade(v: u32) -> u32 {
    if v < CURRENT_DB_VERSION {
        CURRENT_DB_VERSION
    } else {
        v
    }
}

/// Migration is idempotent: opening a store at any version twice in
/// succession settles on the same schema version as opening it once.
pub proof fn lemma_migration_idempotent(v: u32)
    ensures
        spec_upgrade(spec_upgrade(v)) == spec_upgrade(v),
{
}

impl Store {
    /// A fresh, empty store as the migration of version 0 creates it.
    pub fn new() -> (r: Store)
        ensures
            r.wf(),
            r.version == CURRENT_DB_VERSION,
            r.seeds@.len() == 0,
            r.articles@.len() == 0,
            r.settings@.len() == 0,
            r.watch_list@.len() == 0,
            r.next_seed_id == 1,
            r.next_article_id == 1,
            r.next_watch_id == 1,
    {
        Store {
            version: CURRENT_DB_VERSION,
            seeds: Vec::new(),
            articles: Vec::new(),
            settings: Vec::new(),
            watch_list: Vec::new(),
            next_seed_id: 1,
            next_article_id: 1,
            next_watch_id: 1,
        }
    }

    /// Brings the schema version up to [`CURRENT_DB_VERSION`] if it is
    /// behind, touching nothing else. The relations themselves are kept by
    /// idempotent schema statements, so the data is unchanged either way.
    pub fn upgrade_if_needed(&mut self)
        ensures
            final(self).version == spec_upgrade(old(self).version),
            final(self).seeds == old(self).seeds,
            final(self).articles == old(self).articles,
            final(self).settings == old(self).settings,
            final(self).watch_list == old(self).watch_list,
            final(self).next_seed_id == old(self).next_seed_id,
            final(self).next_article_id == old(self).next_article_id,
            final(self).next_watch_id == old(self).next_watch_id,
            old(self).wf() ==> final(self).wf(),
    {
        if self.version < CURRENT_DB_VERSION {
            self.version = CURRENT_DB_VERSION;
        }
    }
}

/// Whether an article counts toward an unread total: it is unread and lies
/// in the scope — a specific seed, or, globally, any seed but the reserved
/// identity 0.
pub open spec fn counts_toward(a: Article, scope: Option<i64>) -> bool {
    a.unread && match scope {
        Some(sid) => a.seed_id == sid,
        None => a.seed_id != 0,
    }
}

/// Unread total over a sequence of articles, per [`counts_toward`].
pub open spec fn count_unread(arts: Seq<Article>, scope: Option<i64>) -> int
    decreases arts.len(),
{
    if arts.len() == 0 {
        0
    } else {
        count_unread(arts.drop_last(), scope) + if counts_toward(arts.last(), scope) {
            1int
        } else {
            0int
        }
    }
}

/// The unread total never exceeds the number of articles, and is never
/// negative.
pub proof fn lemma_count_unread_bound(arts: Seq<Article>, scope: Option<i64>)
    ensures
        0 <= count_unread(arts, scope) <= arts.len(),
    decreases arts.len(),
{
    if arts.len() > 0 {
        lemma_count_unread_bound(arts.drop_last(), scope);
    }
}

/// Updating one article changes an unread total exactly by the old entry's
/// contribution leaving and the new entry's arriving.
pub proof fn lemma_count_after_update(arts: Seq<Article>, i: int, a2: Article, scope: Option<i64>)
    requires
        0 <= i < arts.len(),
    ensures
        count_unread(arts.update(i, a2), scope) == count_unread(arts, scope) - (if counts_toward(
            arts[i],
            scope,
        ) {
            1int
        } else {
            0int
        }) + (if counts_toward(a2, scope) {
            1int
        } else {
            0int
        }),
    decreases arts.len(),
{
    let u = arts.update(i, a2);
    if i == arts.len() - 1 {
        assert(u.drop_last() =~= arts.drop_last());
        assert(u.last() == a2);
    } else {
        assert(u.drop_last() =~= arts.drop_last().update(i, a2));
        assert(u.last() == arts.last());
        lemma_count_after_update(arts.drop_last(), i, a2, scope);
    }
}

impl Store {
    /// Unread count: for one seed when `seed_id` is given, else the global
    /// count over all seeds but the reserved identity 0.
    pub fn get_unread_count(&self, seed_id: Option<i64>) -> (r: i32)
        requires
            self.wf(),
        ensures
            r as int == count_unread(self.articles@, seed_id),
    {
        proof {
            lemma_count_unread_bound(self.articles@, seed_id);
        }
        let mut total: i32 = 0;
        let mut i: usize = 0;
        let n = self.articles.len();
        while i < n
            invariant
                0 <= i <= n,
                n == self.articles@.len(),
                self.wf(),
                total as int == count_unread(self.articles@.take(i as int), seed_id),
                total as int <= i,
            decreases n - i,
        {
            let a = &self.articles[i];
            let hit = a.unread && match seed_id {
                Some(sid) => a.seed_id == sid,
                None => a.seed_id != 0,
            };
            proof {
                let t1 = self.articles@.take(i + 1);
                assert(t1.drop_last() =~= self.articles@.take(i as int));
                assert(t1.last() == self.articles@[i as int]);
            }
            if hit {
                total = total + 1;
            }
            i += 1;
        }
        proof {
            assert(self.articles@.take(n as int) =~= self.articles@);
        }
        total
    }

    /// Adds a subscription. Fails exactly when the name or the URL is
    /// already taken; on success the new seed starts with a 10-minute
    /// interval, never fetched, and a `seed/add` event arises.
    pub fn insert_seed(&mut self, name: String, url: String) -> (r: (bool, Vec<Event>))
        requires
            old(self).wf(),
            old(self).next_seed_id < i64::MAX,
            old(self).seeds@.len() < 0x7FFF_FFFF,
        ensures
            final(self).wf(),
            r.0 == !(seed_name_taken(old(self).seeds@, name@) || seed_url_taken(
                old(self).seeds@,
                url@,
            )),
            r.0 ==> final(self).seeds@ == old(self).seeds@.push(
                Seed {
                    id: old(self).next_seed_id,
                    name: name,
                    url: url,
                    favicon: None,
                    interval: 10,
                    last_fetched_at: 0,
                    last_fetch_ok: false,
                },
            ) && final(self).next_seed_id == old(self).next_seed_id + 1 && r.1@ == seq![
                Event::SeedAdd,
            ],
            !r.0 ==> final(self).seeds@ == old(self).seeds@ && final(self).next_seed_id == old(
                self,
            ).next_seed_id && r.1@ == Seq::<Event>::empty(),
            final(self).articles == old(self).articles,
            final(self).settings == old(self).settings,
            final(self).watch_list == old(self).watch_list,
            final(self).version == old(self).version,
            final(self).next_article_id == old(self).next_article_id,
            final(self).next_watch_id == old(self).next_watch_id,
    {
        let n = self.seeds.len();
        let mut i: usize = 0;
        let mut taken = false;
        while i < n
            invariant
                0 <= i <= n,
                n == self.seeds@.len(),
                taken == (seed_name_taken(self.seeds@.take(i as int), name@) || seed_url_taken(
                    self.seeds@.take(i as int),
                    url@,
                )),
            decreases n - i,
        {
            let ghost pre = self.seeds@.take(i as int);
            let ghost post = self.seeds@.take(i + 1);
            let nm = self.seeds[i].name.eq(&name);
            let um = self.seeds[i].url.eq(&url);
            if nm || um {
                taken = true;
            }
            proof {
                assert(forall|k: int| 0 <= k < post.len() ==> post[k] == self.seeds@[k]);
                assert(forall|k: int| 0 <= k < pre.len() ==> pre[k] == self.seeds@[k]);
                if nm {
                    assert(post[i as int].name@ == name@);
                    assert(seed_name_taken(post, name@));
                }
                if um {
                    assert(post[i as int].url@ == url@);
                    assert(seed_url_taken(post, url@));
                }
                if seed_name_taken(post, name@) && !seed_name_taken(pre, name@) {
                    let w = choose|w: int| 0 <= w < post.len() && (#[trigger] post[w]).name@ == name@;
                    assert(w == i);
                    assert(nm);
                }
                if seed_url_taken(post, url@) && !seed_url_taken(pre, url@) {
                    let w = choose|w: int| 0 <= w < post.len() && (#[trigger] post[w]).url@ == url@;
                    assert(w == i);
                    assert(um);
                }
                if seed_name_taken(pre, name@) {
                    let w = choose|w: int| 0 <= w < pre.len() && (#[trigger] pre[w]).name@ == name@;
                    assert(post[w].name@ == name@);
                    assert(seed_name_taken(post, name@));
                }
                if seed_url_taken(pre, url@) {
                    let w = choose|w: int| 0 <= w < pre.len() && (#[trigger] pre[w]).url@ == url@;
                    assert(post[w].url@ == url@);
                    assert(seed_url_taken(post, url@));
                }
            }
            i += 1;
        }
        proof {
            assert(self.seeds@.take(n as int) =~= self.seeds@);
        }
        if taken {
            (false, Vec::new())
        } else {
            let seed = Seed {
                id: self.next_seed_id,
                name: name,
                url: url,
                favicon: None,
                interval: 10,
                last_fetched_at: 0,
                last_fetch_ok: false,
            };
            self.seeds.push(seed);
            self.next_seed_id = self.next_seed_id + 1;
            let mut events: Vec<Event> = Vec::new();
            events.push(Event::SeedAdd);
            proof {
                assert(events@ =~= seq![Event::SeedAdd]);
                assert forall|i1: int, j1: int| 0 <= i1 < j1 < self.seeds@.len() implies (
                #[trigger] self.seeds@[i1]).id != (#[trigger] self.seeds@[j1]).id
                    && self.seeds@[i1].name@ != self.seeds@[j1].name@ && self.seeds@[i1].url@
                    != self.seeds@[j1].url@ by {
                    if j1 == self.seeds@.len() - 1 {
                        assert(old(self).seeds@[i1] == self.seeds@[i1]);
                        assert(!seed_name_taken(old(self).seeds@, name@));
                        assert(!seed_url_taken(old(self).seeds@, url@));
                    }
                }
                assert forall|k: int| 0 <= k < self.articles@.len() implies seed_exists(
                    self.seeds@,
                    (#[trigger] self.articles@[k]).seed_id,
                ) by {
                    assert(seed_exists(old(self).seeds@, self.articles@[k].seed_id));
                    let w = choose|w: int|
                        0 <= w < old(self).seeds@.len() && old(self).seeds@[w].id
                            == self.articles@[k].seed_id;
                    assert(self.seeds@[w].id == self.articles@[k].seed_id);
                }
            }
            (true, events)
        }
    }

    /// All seeds, as stored.
    pub fn get_all_seeds(&self) -> (r: Vec<Seed>)
        ensures
            r@ == self.seeds@,
    {
        let mut out: Vec<Seed> = Vec::new();
        let n = self.seeds.len();
        let mut i: usize = 0;
        while i < n
            invariant
                0 <= i <= n,
                n == self.seeds@.len(),
                out@ == self.seeds@.take(i as int),
            decreases n - i,
        {
            out.push(self.seeds[i].clone());
            proof {
                assert(out@ =~= self.seeds@.take(i + 1));
            }
            i += 1;
        }
        proof {
            assert(self.seeds@.take(n as int) =~= self.seeds@);
        }
        out
    }

    /// Writes a seed's user-editable fields (name, URL, interval) back by
    /// identity. Fails, changing nothing, when the seed does not exist or
    /// the new name or URL collides with another seed.
    pub fn update_seed(&mut self, seed: &Seed) -> (r: bool)
        requires
            old(self).wf(),
        ensures
            final(self).wf(),
            final(self).seeds@.len() == old(self).seeds@.len(),
            r ==> exists|i: int|
                {
                    &&& 0 <= i < old(self).seeds@.len()
                    &&& (#[trigger] old(self).seeds@[i]).id == seed.id
                    &&& final(self).seeds@ == old(self).seeds@.update(
                        i,
                        Seed {
                            name: seed.name,
                            url: seed.url,
                            interval: seed.interval,
                            ..old(self).seeds@[i]
                        },
                    )
                },
            !r ==> final(self).seeds@ == old(self).seeds@,
            r == (seed_exists(old(self).seeds@, seed.id) && !(exists|i: int|
                {
                    &&& 0 <= i < old(self).seeds@.len()
                    &&& (#[trigger] old(self).seeds@[i]).id != seed.id
                    &&& (old(self).seeds@[i].name@ == seed.name@ || old(self).seeds@[i].url@
                        == seed.url@)
                })),
            final(self).articles == old(self).articles,
            final(self).settings == old(self).settings,
            final(self).watch_list == old(self).watch_list,
            final(self).version == old(self).version,
            final(self).next_seed_id == old(self).next_seed_id,
            final(self).next_article_id == old(self).next_article_id,
            final(self).next_watch_id == old(self).next_watch_id,
    {
        let n = self.seeds.len();
        let mut idx: usize = n;
        let mut collision = false;
        let mut i: usize = 0;
        while i < n
            invariant
                0 <= i <= n,
                n == self.seeds@.len(),
                idx <= n,
                idx == n ==> forall|k: int|
                    0 <= k < i ==> (#[trigger] self.seeds@[k]).id != seed.id,
                idx < n ==> self.seeds@[idx as int].id == seed.id,
                collision == exists|k: int|
                    {
                        &&& 0 <= k < i
                        &&& (#[trigger] self.seeds@[k]).id != seed.id
                        &&& (self.seeds@[k].name@ == seed.name@ || self.seeds@[k].url@
                            == seed.url@)
                    },
            decreases n - i,
    {
            let same_id = self.seeds[i].id == seed.id;
            if same_id {
                if idx == n {
                    idx = i;
                }
            } else {
                if self.seeds[i].name.eq(&seed.name) || self.seeds[i].url.eq(&seed.url) {
                    collision = true;
                }
            }
            i += 1;
        }
        if idx == n || collision {
            proof {
                if idx == n {
                    assert(!seed_exists(self.seeds@, seed.id));
                }
            }
            return false;
        }
        let updated = Seed {
            id: self.seeds[idx].id,
            name: seed.name.clone(),
            url: seed.url.clone(),
            favicon: match &self.seeds[idx].favicon {
                Some(f) => Some(f.clone()),
                None => None,
            },
            interval: seed.interval,
            last_fetched_at: self.seeds[idx].last_fetched_at,
            last_fetch_ok: self.seeds[idx].last_fetch_ok,
        };
        let ghost oldseeds = self.seeds@;
        self.seeds[idx] = updated;
        proof {
            assert(self.seeds@ =~= oldseeds.update(
                idx as int,
                Seed {
                    name: seed.name,
                    url: seed.url,
                    interval: seed.interval,
                    ..oldseeds[idx as int]
                },
            ));
            assert forall|i1: int, j1: int| 0 <= i1 < j1 < self.seeds@.len() implies (
            #[trigger] self.seeds@[i1]).id != (#[trigger] self.seeds@[j1]).id
                && self.seeds@[i1].name@ != self.seeds@[j1].name@ && self.seeds@[i1].url@
                != self.seeds@[j1].url@ by {
                assert(oldseeds[i1].id != oldseeds[j1].id);
            }
            assert forall|k: int| 0 <= k < self.articles@.len() implies seed_exists(
                self.seeds@,
                (#[trigger] self.articles@[k]).seed_id,
            ) by {
                assert(seed_exists(oldseeds, self.articles@[k].seed_id));
                let w = choose|w: int|
                    0 <= w < oldseeds.len() && oldseeds[w].id == self.articles@[k].seed_id;
                assert(self.seeds@[w].id == self.articles@[k].seed_id);
            }
        }
        true
    }

    /// Records a fetch attempt for a seed: its last-fetched time becomes
    /// `now` and its success flag becomes `ok`. Other seeds are untouched.
    pub fn save_last_fetch(&mut self, seed_id: i64, now: i64, ok: bool)
        requires
            old(self).wf(),
        ensures
            final(self).wf(),
            final(self).seeds@.len() == old(self).seeds@.len(),
            forall|i: int|
                0 <= i < old(self).seeds@.len() ==> final(self).seeds@[i] == (if (
                #[trigger] old(self).seeds@[i]).id == seed_id {
                    Seed { last_fetched_at: now, last_fetch_ok: ok, ..old(self).seeds@[i] }
                } else {
                    old(self).seeds@[i]
                }),
            final(self).articles == old(self).articles,
            final(self).settings == old(self).settings,
            final(self).watch_list == old(self).watch_list,
            final(self).version == old(self).version,
            final(self).next_seed_id == old(self).next_seed_id,
            final(self).next_article_id == old(self).next_article_id,
            final(self).next_watch_id == old(self).next_watch_id,
    {
        let n = self.seeds.len();
        let mut i: usize = 0;
        while i < n
            invariant
                0 <= i <= n,
                n == self.seeds@.len(),
                old(self).wf(),
                self.seeds@.len() == old(self).seeds@.len(),
                forall|k: int|
                    0 <= k < i ==> self.seeds@[k] == (if (#[trigger] old(self).seeds@[k]).id
                        == seed_id {
                        Seed { last_fetched_at: now, last_fetch_ok: ok, ..old(self).seeds@[k] }
                    } else {
                        old(self).seeds@[k]
                    }),
                forall|k: int| i <= k < n ==> self.seeds@[k] == old(self).seeds@[k],
                self.articles == old(self).articles,
                self.settings == old(self).settings,
                self.watch_list == old(self).watch_list,
                self.version == old(self).version,
                self.next_seed_id == old(self).next_seed_id,
                self.next_article_id == old(self).next_article_id,
                self.next_watch_id == old(self).next_watch_id,
            decreases n - i,
        {
            if self.seeds[i].id == seed_id {
                let updated = Seed {
                    id: self.seeds[i].id,
                    name: self.seeds[i].name.clone(),
                    url: self.seeds[i].url.clone(),
                    favicon: match &self.seeds[i].favicon {
                        Some(f) => Some(f.clone()),
                        None => None,
                    },
                    interval: self.seeds[i].interval,
                    last_fetched_at: now,
                    last_fetch_ok: ok,
                };
                self.seeds[i] = updated;
            }
            i += 1;
        }
        proof {
            assert forall|i1: int, j1: int| 0 <= i1 < j1 < self.seeds@.len() implies (
            #[trigger] self.seeds@[i1]).id != (#[trigger] self.seeds@[j1]).id
                && self.seeds@[i1].name@ != self.seeds@[j1].name@ && self.seeds@[i1].url@
                != self.seeds@[j1].url@ by {
                assert(old(self).seeds@[i1].id != old(self).seeds@[j1].id);
                assert(old(self).seeds@[i1].name@ != old(self).seeds@[j1].name@);
                assert(old(self).seeds@[i1].url@ != old(self).seeds@[j1].url@);
            }
            assert forall|i1: int| 0 <= i1 < self.seeds@.len() implies 0 < (
            #[trigger] self.seeds@[i1]).id < self.next_seed_id as int by {
                assert(0 < old(self).seeds@[i1].id < old(self).next_seed_id as int);
            }
            assert forall|k: int| 0 <= k < self.articles@.len() implies seed_exists(
                self.seeds@,
                (#[trigger] self.articles@[k]).seed_id,
            ) by {
                assert(seed_exists(old(self).seeds@, self.articles@[k].seed_id));
                let w = choose|w: int|
                    0 <= w < old(self).seeds@.len() && old(self).seeds@[w].id
                        == self.articles@[k].seed_id;
                assert(self.seeds@[w].id == self.articles@[k].seed_id);
            }
        }
    }
}

/// Value of a settings key, if present.
pub open spec fn setting_value(settings: Seq<Setting>, key: Seq<char>) -> Option<Seq<char>>
    decreases settings.len(),
{
    if settings.len() == 0 {
        None
    } else if settings[0].key@ == key {
        Some(settings[0].value@)
    } else {
        setting_value(settings.skip(1), key)
    }
}

/// What an upsert leaves in the settings relation: the value under `key`
/// replaced in place when present, else appended.
pub open spec fn spec_upsert(settings: Seq<Setting>, s: Setting) -> Seq<Setting>
    decreases settings.len(),
{
    if settings.len() == 0 {
        seq![s]
    } else if settings[0].key@ == s.key@ {
        seq![Setting { key: settings[0].key, value: s.value }] + settings.skip(1)
    } else {
        seq![settings[0]] + spec_upsert(settings.skip(1), s)
    }
}

impl Store {
    /// The value stored under `key`, or the empty string when absent.
    pub fn get_setting(&self, key: &String) -> (r: String)
        ensures
            r@ == match setting_value(self.settings@, key@) {
                Some(v) => v,
                None => Seq::<char>::empty(),
            },
    {
        let n = self.settings.len();
        let mut i: usize = 0;
        proof {
            assert(self.settings@.skip(0) =~= self.settings@);
        }
        while i < n
            invariant
                0 <= i <= n,
                n == self.settings@.len(),
                setting_value(self.settings@, key@) == setting_value(
                    self.settings@.skip(i as int),
                    key@,
                ),
                forall|k: int| 0 <= k < i ==> (#[trigger] self.settings@[k]).key@ != key@,
            decreases n - i,
        {
            proof {
                assert(self.settings@.skip(i as int)[0] == self.settings@[i as int]);
                assert(self.settings@.skip(i as int).skip(1) =~= self.settings@.skip(i + 1));
            }
            if self.settings[i].key.eq(key) {
                return self.settings[i].value.clone();
            }
            i += 1;
        }
        proof {
            assert(self.settings@.skip(n as int) =~= Seq::<Setting>::empty());
        }
        String::new()
    }

    /// Stores `value` under `key`, replacing any earlier value.
    #[verifier::loop_isolation(false)]
    pub fn set_setting(&mut self, key: String, value: String) -> (r: bool)
        requires
            old(self).wf(),
        ensures
            final(self).wf(),
            r == true,
            final(self).settings@ == spec_upsert(
                old(self).settings@,
                Setting { key: key, value: value },
            ),
            final(self).seeds == old(self).seeds,
            final(self).articles == old(self).articles,
            final(self).watch_list == old(self).watch_list,
            final(self).version == old(self).version,
            final(self).next_seed_id == old(self).next_seed_id,
            final(self).next_article_id == old(self).next_article_id,
            final(self).next_watch_id == old(self).next_watch_id,
    {
        let n = self.settings.len();
        let mut i: usize = 0;
        let mut found: usize = n;
        while i < n
            invariant
                0 <= i <= n,
                n == self.settings@.len(),
                found <= n,
                found == n ==> forall|k: int|
                    0 <= k < i ==> (#[trigger] self.settings@[k]).key@ != key@,
                found < n ==> self.settings@[found as int].key@ == key@ && forall|k: int|
                    0 <= k < found ==> (#[trigger] self.settings@[k]).key@ != key@,
            decreases n - i,
        {
            if found == n && self.settings[i].key.eq(&key) {
                found = i;
            }
            i += 1;
        }
        if found < n {
            let ghost oldsettings = self.settings@;
            let replaced = Setting { key: self.settings[found].key.clone(), value: value };
            self.settings[found] = replaced;
            proof {
                lemma_upsert_at(oldsettings, Setting { key: key, value: value }, found as int);
                assert(self.settings@ =~= oldsettings.update(
                    found as int,
                    Setting { key: oldsettings[found as int].key, value: value },
                ));
                assert(settings_wf(oldsettings));
                assert forall|i1: int, j1: int|
                    0 <= i1 < j1 < self.settings@.len() implies (
                #[trigger] self.settings@[i1]).key@ != (#[trigger] self.settings@[j1]).key@ by {
                    assert(oldsettings[i1].key@ != oldsettings[j1].key@);
                }
            }
            return true;
        }
        let ghost oldsettings = self.settings@;
        self.settings.push(Setting { key: key, value: value });
        proof {
            lemma_upsert_absent(oldsettings, Setting { key: key, value: value });
            assert(settings_wf(oldsettings));
            assert forall|i1: int, j1: int|
                0 <= i1 < j1 < self.settings@.len() implies (#[trigger] self.settings@[i1]).key@
                != (#[trigger] self.settings@[j1]).key@ by {
                if j1 < oldsettings.len() {
                    assert(oldsettings[i1].key@ != oldsettings[j1].key@);
                } else {
                    assert(self.settings@[j1].key@ == key@);
                    assert(oldsettings[i1].key@ != key@);
                }
            }
        }
        true
    }
}

/// When the first occurrence of the new row's key is at `idx`, upserting
/// replaces the value in place there.
proof fn lemma_upsert_at(settings: Seq<Setting>, s: Setting, idx: int)
    requires
        0 <= idx < settings.len(),
        settings[idx].key@ == s.key@,
        forall|k: int| 0 <= k < idx ==> (#[trigger] settings[k]).key@ != s.key@,
    ensures
        spec_upsert(settings, s) == settings.update(
            idx,
            Setting { key: settings[idx].key, value: s.value },
        ),
    decreases idx,
{
    if idx == 0 {
        assert(spec_upsert(settings, s) =~= settings.update(
            0,
            Setting { key: settings[0].key, value: s.value },
        ));
    } else {
        assert(settings.skip(1)[idx - 1] == settings[idx]);
        assert(forall|k: int|
            0 <= k < idx - 1 ==> (#[trigger] settings.skip(1)[k]).key@ != s.key@);
        lemma_upsert_at(settings.skip(1), s, idx - 1);
        assert(spec_upsert(settings, s) =~= settings.update(
            idx,
            Setting { key: settings[idx].key, value: s.value },
        ));
    }
}

/// When the new row's key is absent, upserting appends the row.
proof fn lemma_upsert_absent(settings: Seq<Setting>, s: Setting)
    requires
        forall|k: int| 0 <= k < settings.len() ==> (#[trigger] settings[k]).key@ != s.key@,
    ensures
        spec_upsert(settings, s) == settings.push(s),
    decreases settings.len(),
{
    if settings.len() == 0 {
        assert(spec_upsert(settings, s) =~= settings.push(s));
    } else {
        lemma_upsert_absent(settings.skip(1), s);
        assert(spec_upsert(settings, s) =~= settings.push(s));
    }
}

/// Settings round trip: after storing `s.value` under `s.key`, reading
/// `s.key` yields exactly that value, and every other key reads as before.
pub proof fn lemma_setting_roundtrip(settings: Seq<Setting>, s: Setting, k: Seq<char>)
    ensures
        setting_value(spec_upsert(settings, s), s.key@) == Some(s.value@),
        k != s.key@ ==> setting_value(spec_upsert(settings, s), k) == setting_value(settings, k),
    decreases settings.len(),
{
    if settings.len() == 0 {
        assert(spec_upsert(settings, s)[0] == s);
        assert(spec_upsert(settings, s).skip(1) =~= Seq::<Setting>::empty());
    } else if settings[0].key@ == s.key@ {
        let u = spec_upsert(settings, s);
        assert(u[0] == Setting { key: settings[0].key, value: s.value });
        assert(u.skip(1) =~= settings.skip(1));
    } else {
        let u = spec_upsert(settings, s);
        assert(u[0] == settings[0]);
        assert(u.skip(1) =~= spec_upsert(settings.skip(1), s));
        lemma_setting_roundtrip(settings.skip(1), s, k);
    }
}

impl Store {
    /// All watched keywords, in insertion order.
    pub fn get_watch_list(&self) -> (r: Vec<String>)
        ensures
            r@.len() == self.watch_list@.len(),
            forall|i: int|
                0 <= i < r@.len() ==> (#[trigger] r@[i])@ == self.watch_list@[i].keyword@,
    {
        let mut out: Vec<String> = Vec::new();
        let n = self.watch_list.len();
        let mut i: usize = 0;
        while i < n
            invariant
                0 <= i <= n,
                n == self.watch_list@.len(),
                out@.len() == i,
                forall|k: int|
                    0 <= k < i ==> (#[trigger] out@[k])@ == self.watch_list@[k].keyword@,
            decreases n - i,
        {
            out.push(self.watch_list[i].keyword.clone());
            i += 1;
        }
        out
    }

    /// Puts a keyword on the watch list. Fails exactly when the keyword is
    /// already watched; on success a `watchlist/change` event arises.
    #[verifier::loop_isolation(false)]
    pub fn add_watch_keyword(&mut self, keyword: String) -> (r: (bool, Vec<Event>))
        requires
            old(self).wf(),
            old(self).next_watch_id < i64::MAX,
            old(self).watch_list@.len() < 0x7FFF_FFFF,
        ensures
            final(self).wf(),
            r.0 == !keyword_present(old(self).watch_list@, keyword@),
            r.0 ==> final(self).watch_list@ == old(self).watch_list@.push(
                WatchKeyword { id: old(self).next_watch_id, keyword: keyword },
            ) && final(self).next_watch_id == old(self).next_watch_id + 1 && r.1@ == seq![
                Event::WatchlistChange,
            ],
            !r.0 ==> final(self).watch_list@ == old(self).watch_list@ && final(self).next_watch_id
                == old(self).next_watch_id && r.1@ == Seq::<Event>::empty(),
            final(self).seeds == old(self).seeds,
            final(self).articles == old(self).articles,
            final(self).settings == old(self).settings,
            final(self).version == old(self).version,
            final(self).next_seed_id == old(self).next_seed_id,
            final(self).next_article_id == old(self).next_article_id,
    {
        let n = self.watch_list.len();
        let mut i: usize = 0;
        while i < n
            invariant
                0 <= i <= n,
                n == self.watch_list@.len(),
                forall|k: int| 0 <= k < i ==> (#[trigger] self.watch_list@[k]).keyword@ != keyword@,
            decreases n - i,
        {
            if self.watch_list[i].keyword.eq(&keyword) {
                return (false, Vec::new());
            }
            i += 1;
        }
        self.watch_list.push(WatchKeyword { id: self.next_watch_id, keyword: keyword });
        self.next_watch_id = self.next_watch_id + 1;
        let mut events: Vec<Event> = Vec::new();
        events.push(Event::WatchlistChange);
        proof {
            assert(events@ =~= seq![Event::WatchlistChange]);
            assert forall|i1: int, j1: int|
                0 <= i1 < j1 < self.watch_list@.len() implies (
            #[trigger] self.watch_list@[i1]).id != (#[trigger] self.watch_list@[j1]).id && self.watch_list@[i1].keyword@
                != (#[trigger] self.watch_list@[j1]).keyword@ by {
                if j1 < old(self).watch_list@.len() {
                    assert(old(self).watch_list@[i1].id != old(self).watch_list@[j1].id);
                    assert(old(self).watch_list@[i1].keyword@ != old(self).watch_list@[j1].keyword@);
                } else {
                    assert(0 < old(self).watch_list@[i1].id < old(self).next_watch_id as int);
                }
            }
        }
        (true, events)
    }

    /// Takes a keyword off the watch list. A `watchlist/change` event
    /// arises whether or not the keyword was present, as the deletion is
    /// keyed by value and deleting nothing is not a failure.
    #[verifier::loop_isolation(false)]
    pub fn delete_watch_keyword(&mut self, keyword: &String) -> (r: (bool, Vec<Event>))
        requires
            old(self).wf(),
        ensures
            final(self).wf(),
            r.0 == true,
            final(self).watch_list@ == old(self).watch_list@.filter(
                |w: WatchKeyword| w.keyword@ != keyword@,
            ),
            r.1@ == seq![Event::WatchlistChange],
            final(self).seeds == old(self).seeds,
            final(self).articles == old(self).articles,
            final(self).settings == old(self).settings,
            final(self).version == old(self).version,
            final(self).next_seed_id == old(self).next_seed_id,
            final(self).next_article_id == old(self).next_article_id,
            final(self).next_watch_id == old(self).next_watch_id,
    {
        let ghost pred = |w: WatchKeyword| w.keyword@ != keyword@;
        let mut out: Vec<WatchKeyword> = Vec::new();
        let n = self.watch_list.len();
        let mut i: usize = 0;
        proof {
            reveal(Seq::filter);
            assert(self.watch_list@.take(0).filter(pred) =~= Seq::<WatchKeyword>::empty());
        }
        while i < n
            invariant
                0 <= i <= n,
                n == self.watch_list@.len(),
                out@ == self.watch_list@.take(i as int).filter(pred),
                pred == (|w: WatchKeyword| w.keyword@ != keyword@),
            decreases n - i,
        {
            let ghost pre = self.watch_list@.take(i as int);
            let ghost post = self.watch_list@.take(i + 1);
            proof {
                reveal(Seq::filter);
                assert(post.drop_last() =~= pre);
                assert(post.last() == self.watch_list@[i as int]);
            }
            if !self.watch_list[i].keyword.eq(keyword) {
                let w = WatchKeyword {
                    id: self.watch_list[i].id,
                    keyword: self.watch_list[i].keyword.clone(),
                };
                proof {
                    assert(w == self.watch_list@[i as int]);
                }
                out.push(w);
            }
            i += 1;
        }
        proof {
            assert(self.watch_list@.take(n as int) =~= self.watch_list@);
        }
        let ghost oldwatch = self.watch_list@;
        self.watch_list = out;
        let mut events: Vec<Event> = Vec::new();
        events.push(Event::WatchlistChange);
        proof {
            assert(events@ =~= seq![Event::WatchlistChange]);
            assert(self.watch_list@ == oldwatch.filter(pred));
            assert forall|i1: int, j1: int|
                0 <= i1 < j1 < self.watch_list@.len() implies (
            #[trigger] self.watch_list@[i1]).id != (#[trigger] self.watch_list@[j1]).id && self.watch_list@[i1].keyword@
                != (#[trigger] self.watch_list@[j1]).keyword@ by {
                lemma_filter_pair_from_distinct(oldwatch, pred, i1, j1);
            }
            assert forall|i1: int| 0 <= i1 < self.watch_list@.len() implies 0 < (
            #[trigger] self.watch_list@[i1]).id < self.next_watch_id as int by {
                let x = self.watch_list@[i1];
                assert(oldwatch.filter(pred).contains(x));
                oldwatch.lemma_filter_contains_rev(pred, x);
                let w = choose|w: int| 0 <= w < oldwatch.len() && oldwatch[w] == x;
                assert(0 < oldwatch[w].id < old(self).next_watch_id as int);
            }
            oldwatch.lemma_filter_len(pred);
        }
        (true, events)
    }
}

/// Watch-list round trip: a keyword just added is on the list, and after
/// the keyword's deletion sweep it no longer is.
pub proof fn lemma_watch_roundtrip(watch: Seq<WatchKeyword>, w: WatchKeyword)
    ensures
        keyword_present(watch.push(w), w.keyword@),
        !keyword_present(
            watch.filter(|x: WatchKeyword| x.keyword@ != w.keyword@),
            w.keyword@,
        ),
{
    let pushed = watch.push(w);
    assert(pushed[watch.len() as int].keyword@ == w.keyword@);
    let pred = |x: WatchKeyword| x.keyword@ != w.keyword@;
    let f = watch.filter(pred);
    assert forall|i: int| 0 <= i < f.len() implies (#[trigger] f[i]).keyword@ != w.keyword@ by {
        watch.lemma_filter_pred(pred, i);
    }
}

/// An incoming article as it is stored: a fresh identity and the owning
/// seed; the content fields stay as the adapter produced them.
pub open spec fn stored_article(item: Article, id: i64, seed_id: i64) -> Article {
    Article { id: id, seed_id: seed_id, ..item }
}

/// The position in listing order at which `a` belongs: the first index
/// holding an article that comes after `a`.
pub open spec fn spec_insert_pos(arts: Seq<Article>, a: Article) -> int
    decreases arts.len(),
{
    if arts.len() == 0 {
        0
    } else if key_lt(a, arts[0]) {
        0
    } else {
        1 + spec_insert_pos(arts.skip(1), a)
    }
}

proof fn lemma_insert_pos_props(arts: Seq<Article>, a: Article)
    ensures
        0 <= spec_insert_pos(arts, a) <= arts.len(),
        forall|j: int| 0 <= j < spec_insert_pos(arts, a) ==> !key_lt(a, #[trigger] arts[j]),
        spec_insert_pos(arts, a) < arts.len() ==> key_lt(a, arts[spec_insert_pos(arts, a)]),
    decreases arts.len(),
{
    if arts.len() == 0 {
    } else if key_lt(a, arts[0]) {
    } else {
        lemma_insert_pos_props(arts.skip(1), a);
        let p = spec_insert_pos(arts, a);
        assert forall|j: int| 0 <= j < p implies !key_lt(a, #[trigger] arts[j]) by {
            if j > 0 {
                assert(arts.skip(1)[j - 1] == arts[j]);
            }
        }
        if p < arts.len() {
            assert(arts.skip(1)[p - 1] == arts[p]);
        }
    }
}

/// What one ingest of a batch leaves behind: the article relation after
/// deduplicated sorted insertion, the next identity to assign, and how many
/// batch items were actually inserted. Batch items whose guid is already
/// present — in the store or earlier in the same batch — are ignored.
pub open spec fn spec_ingest(
    arts: Seq<Article>,
    batch: Seq<Article>,
    next: int,
    seed_id: i64,
) -> (Seq<Article>, int, int)
    decreases batch.len(),
{
    if batch.len() == 0 {
        (arts, next, 0)
    } else {
        let item = batch[0];
        if guid_present(arts, item.guid@) {
            spec_ingest(arts, batch.skip(1), next, seed_id)
        } else {
            let a = stored_article(item, next as i64, seed_id);
            let arts2 = arts.insert(spec_insert_pos(arts, a), a);
            let rec = spec_ingest(arts2, batch.skip(1), next + 1, seed_id);
            (rec.0, rec.1, rec.2 + 1)
        }
    }
}

/// Sorted insertion of an article with a fresh identity and a fresh guid
/// keeps every store invariant, and adds exactly that article.
proof fn lemma_insert_fresh(arts: Seq<Article>, a: Article, next: int)
    requires
        sorted_desc(arts),
        guids_unique(arts),
        article_ids_bounded(arts, next),
        article_ids_unique(arts),
        !guid_present(arts, a.guid@),
        a.id == next,
        0 < next,
    ensures
        ({
            let r = arts.insert(spec_insert_pos(arts, a), a);
            &&& r.len() == arts.len() + 1
            &&& sorted_desc(r)
            &&& guids_unique(r)
            &&& article_ids_bounded(r, next + 1)
            &&& article_ids_unique(r)
            &&& forall|g: Seq<char>|
                guid_present(r, g) <==> (g == a.guid@ || guid_present(arts, g))
            &&& forall|i: int| 0 <= i < r.len() ==> (#[trigger] r[i] == a || arts.contains(r[i]))
        }),
{
    lemma_insert_pos_props(arts, a);
    let p = spec_insert_pos(arts, a);
    let r = arts.insert(p, a);
    arts.insert_ensures(p, a);
    assert forall|i: int, j: int| 0 <= i < j < r.len() implies key_lt(
        #[trigger] r[i],
        #[trigger] r[j],
    ) by {
        if i == p {
            assert(r[i] == a);
            assert(r[j] == arts[j - 1]);
            assert(key_lt(a, arts[p as int]));
            if j - 1 > p {
                assert(key_lt(arts[p as int], arts[j - 1]));
            }
        } else if j == p {
            assert(r[i] == arts[i]);
            assert(!key_lt(a, arts[i]));
            assert(arts[i].id < next);
            assert(key_lt(arts[i], a) || key_lt(a, arts[i]));
        } else if i < p && j > p {
            assert(r[i] == arts[i]);
            assert(r[j] == arts[j - 1]);
            if i == j - 1 {
                assert(!key_lt(a, arts[i]));
                assert(key_lt(a, arts[p as int]));
                assert(i < p);
                assert(key_lt(arts[i], arts[p as int]) || i == p);
            } else {
                assert(key_lt(arts[i], arts[j - 1]));
            }
        } else if i < p && j < p {
            assert(r[i] == arts[i] && r[j] == arts[j]);
        } else {
            assert(i > p && j > p);
            assert(r[i] == arts[i - 1] && r[j] == arts[j - 1]);
        }
    }
    assert forall|i: int, j: int| 0 <= i < j < r.len() implies (#[trigger] r[i]).guid@ != (
    #[trigger] r[j]).guid@ by {
        if i == p {
            assert(r[j] == arts[j - 1]);
            assert(!guid_present(arts, a.guid@));
        } else if j == p {
            assert(r[i] == arts[i]);
            assert(!guid_present(arts, a.guid@));
        } else {
            let i0: int = if i < p {
                i
            } else {
                i - 1
            };
            let j0: int = if j < p {
                j
            } else {
                j - 1
            };
            assert(r[i] == arts[i0] && r[j] == arts[j0]);
            if i0 < j0 {
                assert(arts[i0].guid@ != arts[j0].guid@);
            }
        }
    }
    assert forall|i: int, j: int| 0 <= i < j < r.len() implies (#[trigger] r[i]).id != (
    #[trigger] r[j]).id by {
        if i == p {
            assert(r[j] == arts[j - 1] && arts[j - 1].id < next);
        } else if j == p {
            assert(r[i] == arts[i] && arts[i].id < next);
        } else {
            let i0: int = if i < p {
                i
            } else {
                i - 1
            };
            let j0: int = if j < p {
                j
            } else {
                j - 1
            };
            assert(r[i] == arts[i0] && r[j] == arts[j0]);
            if i0 < j0 {
                assert(arts[i0].id != arts[j0].id);
            }
        }
    }
    assert forall|i: int| 0 <= i < r.len() implies 0 < (#[trigger] r[i]).id < next + 1 by {
        if i != p {
            let i0: int = if i < p {
                i
            } else {
                i - 1
            };
            assert(r[i] == arts[i0]);
        }
    }
    assert forall|g: Seq<char>|
        guid_present(r, g) <==> (g == a.guid@ || guid_present(arts, g)) by {
        if guid_present(r, g) {
            let w = choose|w: int| 0 <= w < r.len() && (#[trigger] r[w]).guid@ == g;
            if w != p {
                let w0: int = if w < p {
                    w
                } else {
                    w - 1
                };
                assert(r[w] == arts[w0]);
                assert(guid_present(arts, g));
            }
        }
        if g == a.guid@ {
            assert(r[p].guid@ == g);
            assert(guid_present(r, g));
        }
        if guid_present(arts, g) {
            let w = choose|w: int| 0 <= w < arts.len() && (#[trigger] arts[w]).guid@ == g;
            let w1: int = if w < p {
                w
            } else {
                w + 1
            };
            assert(r[w1] == arts[w]);
            assert(guid_present(r, g));
        }
    }
    assert forall|i: int| 0 <= i < r.len() implies (#[trigger] r[i] == a || arts.contains(
        r[i],
    )) by {
        if i != p {
            let i0: int = if i < p {
                i
            } else {
                i - 1
            };
            assert(r[i] == arts[i0]);
        }
    }
}

/// Ingesting keeps the store invariants; the count of insertions equals the
/// identities consumed and the growth of the relation, and every article
/// afterwards either was there before or belongs to the ingesting seed.
pub proof fn lemma_ingest_preserves(arts: Seq<Article>, batch: Seq<Article>, next: int, seed_id: i64)
    requires
        sorted_desc(arts),
        guids_unique(arts),
        article_ids_bounded(arts, next),
        article_ids_unique(arts),
        0 < next,
        next + batch.len() <= i64::MAX,
    ensures
        ({
            let r = spec_ingest(arts, batch, next, seed_id);
            &&& sorted_desc(r.0)
            &&& guids_unique(r.0)
            &&& article_ids_bounded(r.0, r.1)
            &&& article_ids_unique(r.0)
            &&& next <= r.1 <= next + batch.len()
            &&& r.2 == r.1 - next
            &&& r.0.len() == arts.len() + r.2
            &&& forall|i: int|
                0 <= i < r.0.len() ==> (arts.contains(#[trigger] r.0[i]) || r.0[i].seed_id
                    == seed_id)
        }),
    decreases batch.len(),
{
    if batch.len() == 0 {
        assert forall|i: int| 0 <= i < arts.len() implies (arts.contains(#[trigger] arts[i])
            || arts[i].seed_id == seed_id) by {
            assert(arts[i] == arts[i]);
        }
    } else {
        let item = batch[0];
        if guid_present(arts, item.guid@) {
            lemma_ingest_preserves(arts, batch.skip(1), next, seed_id);
        } else {
            let a = stored_article(item, next as i64, seed_id);
            assert(a.id == next as i64);
            lemma_insert_fresh(arts, a, next);
            let arts2 = arts.insert(spec_insert_pos(arts, a), a);
            lemma_ingest_preserves(arts2, batch.skip(1), next + 1, seed_id);
            let r = spec_ingest(arts, batch, next, seed_id);
            assert forall|i: int| 0 <= i < r.0.len() implies (arts.contains(#[trigger] r.0[i])
                || r.0[i].seed_id == seed_id) by {
                if arts2.contains(r.0[i]) {
                    let w = choose|w: int| 0 <= w < arts2.len() && arts2[w] == r.0[i];
                    assert(arts2[w] == a || arts.contains(arts2[w]));
                    if arts2[w] == a {
                        assert(r.0[i].seed_id == seed_id);
                    }
                }
            }
        }
    }
}

/// Appending one more item to a batch ingests the original batch first and
/// then treats the extra item against the outcome.
proof fn lemma_ingest_push(
    arts: Seq<Article>,
    batch: Seq<Article>,
    x: Article,
    next: int,
    seed_id: i64,
)
    ensures
        ({
            let r = spec_ingest(arts, batch, next, seed_id);
            spec_ingest(arts, batch.push(x), next, seed_id) == (if guid_present(r.0, x.guid@) {
                r
            } else {
                let a = stored_article(x, r.1 as i64, seed_id);
                (r.0.insert(spec_insert_pos(r.0, a), a), r.1 + 1, r.2 + 1)
            })
        }),
    decreases batch.len(),
{
    let b2 = batch.push(x);
    if batch.len() == 0 {
        assert(b2[0] == x);
        assert(b2.skip(1) =~= Seq::<Article>::empty());
        let r = spec_ingest(arts, batch, next, seed_id);
        assert(r == (arts, next, 0int));
        if guid_present(arts, x.guid@) {
            assert(spec_ingest(arts, b2, next, seed_id) == spec_ingest(
                arts,
                b2.skip(1),
                next,
                seed_id,
            ));
            assert(spec_ingest(arts, b2.skip(1), next, seed_id) == (arts, next, 0int));
        } else {
            let a = stored_article(x, next as i64, seed_id);
            let arts2 = arts.insert(spec_insert_pos(arts, a), a);
            assert(spec_ingest(arts2, b2.skip(1), next + 1, seed_id) == (arts2, next + 1, 0int));
            assert(spec_ingest(arts, b2, next, seed_id) == (arts2, next + 1, 1int));
        }
    } else {
        assert(b2[0] == batch[0]);
        assert(b2.skip(1) =~= batch.skip(1).push(x));
        if guid_present(arts, batch[0].guid@) {
            lemma_ingest_push(arts, batch.skip(1), x, next, seed_id);
        } else {
            let a = stored_article(batch[0], next as i64, seed_id);
            let arts2 = arts.insert(spec_insert_pos(arts, a), a);
            lemma_ingest_push(arts2, batch.skip(1), x, next + 1, seed_id);
        }
    }
}

/// After any ingest the deduplication key stays a key: no two stored
/// articles share a guid.
pub proof fn lemma_ingest_guids_unique(
    arts: Seq<Article>,
    batch: Seq<Article>,
    next: int,
    seed_id: i64,
)
    requires
        sorted_desc(arts),
        guids_unique(arts),
        article_ids_bounded(arts, next),
        article_ids_unique(arts),
        0 < next,
        next + batch.len() <= i64::MAX,
    ensures
        guids_unique(spec_ingest(arts, batch, next, seed_id).0),
{
    lemma_ingest_preserves(arts, batch, next, seed_id);
}

impl Store {
    /// Whether any stored article carries guid `g`.
    fn guid_exists(&self, g: &String) -> (r: bool)
        ensures
            r == guid_present(self.articles@, g@),
    {
        let n = self.articles.len();
        let mut i: usize = 0;
        while i < n
            invariant
                0 <= i <= n,
                n == self.articles@.len(),
                forall|k: int| 0 <= k < i ==> (#[trigger] self.articles@[k]).guid@ != g@,
            decreases n - i,
        {
            if self.articles[i].guid.eq(g) {
                return true;
            }
            i += 1;
        }
        false
    }

    /// The position in listing order at which `a` belongs among the stored
    /// articles.
    fn find_insert_pos(&self, a: &Article) -> (p: usize)
        ensures
            p as int == spec_insert_pos(self.articles@, *a),
            p <= self.articles@.len(),
    {
        let n = self.articles.len();
        let mut i: usize = 0;
        while i < n
            invariant
                0 <= i <= n,
                n == self.articles@.len(),
                forall|k: int| 0 <= k < i ==> !key_lt(*a, #[trigger] self.articles@[k]),
            decreases n - i,
        {
            let b = &self.articles[i];
            let before = a.pub_date > b.pub_date || (a.pub_date == b.pub_date && a.id < b.id);
            if before {
                proof {
                    lemma_insert_pos_props(self.articles@, *a);
                    let p = spec_insert_pos(self.articles@, *a);
                    assert(key_lt(*a, self.articles@[i as int]));
                    if p < i {
                        assert(key_lt(*a, self.articles@[p]));
                    }
                    if p > i {
                        assert(!key_lt(*a, self.articles@[i as int]));
                    }
                }
                return i;
            }
            i += 1;
        }
        proof {
            lemma_insert_pos_props(self.articles@, *a);
            let p = spec_insert_pos(self.articles@, *a);
            if p < n {
                assert(!key_lt(*a, self.articles@[p]));
            }
        }
        n
    }

    /// Ingests a batch of fetched articles for a seed in one transaction:
    /// each item whose guid is new — to the store and to the batch so far —
    /// is stored under a fresh identity, in listing order; duplicates are
    /// ignored silently. Returns how many were inserted, with two
    /// `seed/new` events (per-seed and global) exactly when that count is
    /// positive. Fails, changing nothing, when the seed does not exist.
    #[verifier::loop_isolation(false)]
    pub fn insert_articles(&mut self, seed_id: i64, batch: &Vec<Article>) -> (r: Result<
        (i32, Vec<Event>),
        Error,
    >)
        requires
            old(self).wf(),
            old(self).next_article_id + batch@.len() <= i64::MAX,
            old(self).articles@.len() + batch@.len() < 0x8000_0000,
        ensures
            final(self).wf(),
            final(self).seeds == old(self).seeds,
            final(self).settings == old(self).settings,
            final(self).watch_list == old(self).watch_list,
            final(self).version == old(self).version,
            final(self).next_seed_id == old(self).next_seed_id,
            final(self).next_watch_id == old(self).next_watch_id,
            r is Ok <==> seed_exists(old(self).seeds@, seed_id),
            r is Err ==> final(self).articles == old(self).articles && final(self).next_article_id
                == old(self).next_article_id,
            r is Ok ==> ({
                let g = spec_ingest(
                    old(self).articles@,
                    batch@,
                    old(self).next_article_id as int,
                    seed_id,
                );
                &&& final(self).articles@ == g.0
                &&& final(self).next_article_id as int == g.1
                &&& r->Ok_0.0 as int == g.2
                &&& g.2 > 0 ==> r->Ok_0.1@ == seq![
                    Event::SeedNew(
                        SeedUnreadCountEvent { id: Some(seed_id), unread_count: r->Ok_0.0 },
                    ),
                    Event::SeedNew(SeedUnreadCountEvent { id: None, unread_count: r->Ok_0.0 }),
                ]
                &&& g.2 == 0 ==> r->Ok_0.1@ == Seq::<Event>::empty()
            }),
    {
        let mut seed_found = false;
        let sn = self.seeds.len();
        let mut si: usize = 0;
        while si < sn
            invariant
                0 <= si <= sn,
                sn == self.seeds@.len(),
                seed_found == exists|k: int|
                    0 <= k < si && (#[trigger] self.seeds@[k]).id == seed_id,
            decreases sn - si,
        {
            if self.seeds[si].id == seed_id {
                seed_found = true;
            }
            si += 1;
        }
        if !seed_found {
            return Err(Error(String::from_str("unknown seed")));
        }
        let ghost arts0 = self.articles@;
        let ghost next0 = self.next_article_id as int;
        let n = batch.len();
        let mut k: usize = 0;
        let mut count: i32 = 0;
        proof {
            assert(batch@.take(0) =~= Seq::<Article>::empty());
        }
        while k < n
            invariant
                0 <= k <= n,
                n == batch@.len(),
                (self.articles@, self.next_article_id as int, count as int) == spec_ingest(
                    arts0,
                    batch@.take(k as int),
                    next0,
                    seed_id,
                ),
                count as int == self.next_article_id as int - next0,
                next0 <= self.next_article_id as int <= next0 + k,
                0 <= count as int <= k,
                self.articles@.len() == arts0.len() + count,
                sorted_desc(self.articles@),
                guids_unique(self.articles@),
                article_ids_bounded(self.articles@, self.next_article_id as int),
                article_ids_unique(self.articles@),
                forall|i: int|
                    0 <= i < self.articles@.len() ==> (arts0.contains(#[trigger] self.articles@[i])
                        || self.articles@[i].seed_id == seed_id),
                self.seeds == old(self).seeds,
                self.settings == old(self).settings,
                self.watch_list == old(self).watch_list,
                self.version == old(self).version,
                self.next_seed_id == old(self).next_seed_id,
                self.next_watch_id == old(self).next_watch_id,
            decreases n - k,
        {
            let ghost cur = (self.articles@, self.next_article_id as int, count as int);
            proof {
                lemma_ingest_push(arts0, batch@.take(k as int), batch@[k as int], next0, seed_id);
                assert(batch@.take(k + 1) =~= batch@.take(k as int).push(batch@[k as int]));
            }
            let item = &batch[k];
            if !self.guid_exists(&item.guid) {
                let a = Article {
                    id: self.next_article_id,
                    seed_id: seed_id,
                    seed_name: item.seed_name.clone(),
                    guid: item.guid.clone(),
                    title: match &item.title {
                        Some(t) => Some(t.clone()),
                        None => None,
                    },
                    author: match &item.author {
                        Some(t) => Some(t.clone()),
                        None => None,
                    },
                    desc: match &item.desc {
                        Some(t) => Some(t.clone()),
                        None => None,
                    },
                    link: match &item.link {
                        Some(t) => Some(t.clone()),
                        None => None,
                    },
                    pub_date: item.pub_date,
                    unread: item.unread,
                };
                proof {
                    assert(a == stored_article(batch@[k as int], cur.1 as i64, seed_id));
                    lemma_insert_fresh(self.articles@, a, self.next_article_id as int);
                }
                let pos = self.find_insert_pos(&a);
                let ghost pre = self.articles@;
                self.articles.insert(pos, a);
                proof {
                    assert(self.articles@ == pre.insert(pos as int, a));
                    assert forall|i: int|
                        0 <= i < self.articles@.len() implies (arts0.contains(
                        #[trigger] self.articles@[i],
                    ) || self.articles@[i].seed_id == seed_id) by {
                        assert(self.articles@[i] == a || pre.contains(self.articles@[i]));
                        if self.articles@[i] != a {
                            let w = choose|w: int|
                                0 <= w < pre.len() && pre[w] == self.articles@[i];
                            assert(arts0.contains(pre[w]) || pre[w].seed_id == seed_id);
                        }
                    }
                }
                self.next_article_id = self.next_article_id + 1;
                count = count + 1;
            }
            k += 1;
        }
        proof {
            assert(batch@.take(n as int) =~= batch@);
            assert forall|i: int| 0 <= i < self.articles@.len() implies seed_exists(
                self.seeds@,
                (#[trigger] self.articles@[i]).seed_id,
            ) by {
                if arts0.contains(self.articles@[i]) {
                    let w = choose|w: int| 0 <= w < arts0.len() && arts0[w] == self.articles@[i];
                    assert(seed_exists(old(self).seeds@, arts0[w].seed_id));
                }
            }
        }
        let mut events: Vec<Event> = Vec::new();
        if count > 0 {
            events.push(
                Event::SeedNew(SeedUnreadCountEvent { id: Some(seed_id), unread_count: count }),
            );
            events.push(Event::SeedNew(SeedUnreadCountEvent { id: None, unread_count: count }));
            proof {
                assert(events@ =~= seq![
                    Event::SeedNew(SeedUnreadCountEvent { id: Some(seed_id), unread_count: count }),
                    Event::SeedNew(SeedUnreadCountEvent { id: None, unread_count: count }),
                ]);
            }
        }
        Ok((count, events))
    }
}

/// An article with its unread flag set to `unread`, all else unchanged.
pub open spec fn with_unread(a: Article, unread: bool) -> Article {
    Article { unread: unread, ..a }
}

/// Marking an unread article as read lowers its seed's unread count by
/// exactly one, and likewise any scope the article counts toward.
pub proof fn lemma_read_decrements_count(arts: Seq<Article>, i: int, scope: Option<i64>)
    requires
        0 <= i < arts.len(),
        arts[i].unread,
        counts_toward(arts[i], scope),
    ensures
        count_unread(arts.update(i, with_unread(arts[i], false)), scope) == count_unread(
            arts,
            scope,
        ) - 1,
{
    lemma_count_after_update(arts, i, with_unread(arts[i], false), scope);
}

impl Store {
    /// Sets one article's unread flag to the opposite of `read`, then
    /// reports, in this order, the owning seed's new unread count, the new
    /// global unread count, and the article's new flag. Fails, changing
    /// nothing and reporting nothing, when no article has that identity.
    #[verifier::loop_isolation(false)]
    pub fn read_article(&mut self, item_id: i64, read: bool) -> (r: (bool, Vec<Event>))
        requires
            old(self).wf(),
        ensures
            final(self).wf(),
            final(self).seeds == old(self).seeds,
            final(self).settings == old(self).settings,
            final(self).watch_list == old(self).watch_list,
            final(self).version == old(self).version,
            final(self).next_seed_id == old(self).next_seed_id,
            final(self).next_article_id == old(self).next_article_id,
            final(self).next_watch_id == old(self).next_watch_id,
            r.0 == exists|i: int|
                0 <= i < old(self).articles@.len() && (#[trigger] old(self).articles@[i]).id
                    == item_id,
            !r.0 ==> final(self).articles == old(self).articles && r.1@ == Seq::<Event>::empty(),
            r.0 ==> exists|i: int|
                {
                    &&& 0 <= i < old(self).articles@.len()
                    &&& (#[trigger] old(self).articles@[i]).id == item_id
                    &&& final(self).articles@ == old(self).articles@.update(
                        i,
                        with_unread(old(self).articles@[i], !read),
                    )
                    &&& r.1@ == seq![
                        Event::SeedUnread(
                            SeedUnreadCountEvent {
                                id: Some(old(self).articles@[i].seed_id),
                                unread_count: count_unread(
                                    final(self).articles@,
                                    Some(old(self).articles@[i].seed_id),
                                ) as i32,
                            },
                        ),
                        Event::SeedUnread(
                            SeedUnreadCountEvent {
                                id: None,
                                unread_count: count_unread(final(self).articles@, None) as i32,
                            },
                        ),
                        Event::ArticleUnread(ArticleReadEvent { id: item_id, unread: !read }),
                    ]
                },
    {
        let n = self.articles.len();
        let mut idx: usize = n;
        let mut i: usize = 0;
        while i < n
            invariant
                0 <= i <= n,
                n == self.articles@.len(),
                idx <= n,
                idx == n ==> forall|k: int|
                    0 <= k < i ==> (#[trigger] self.articles@[k]).id != item_id,
                idx < n ==> self.articles@[idx as int].id == item_id,
            decreases n - i,
        {
            if self.articles[i].id == item_id {
                if idx == n {
                    idx = i;
                }
            }
            i += 1;
        }
        if idx == n {
            proof {
                assert(!exists|k: int|
                    0 <= k < self.articles@.len() && (#[trigger] self.articles@[k]).id == item_id);
            }
            return (false, Vec::new());
        }
        let seed_id = self.articles[idx].seed_id;
        let mut updated = self.articles[idx].clone();
        updated.unread = !read;
        let ghost arts0 = self.articles@;
        self.articles[idx] = updated;
        proof {
            assert(self.articles@ =~= arts0.update(idx as int, with_unread(arts0[idx as int], !read)));
            assert forall|i1: int, j1: int| 0 <= i1 < j1 < self.articles@.len() implies key_lt(
                #[trigger] self.articles@[i1],
                #[trigger] self.articles@[j1],
            ) && self.articles@[i1].guid@ != self.articles@[j1].guid@ && self.articles@[i1].id
                != self.articles@[j1].id by {
                assert(key_lt(arts0[i1], arts0[j1]));
                assert(arts0[i1].guid@ != arts0[j1].guid@);
                assert(arts0[i1].id != arts0[j1].id);
            }
            assert forall|i1: int| 0 <= i1 < self.articles@.len() implies 0 < (
            #[trigger] self.articles@[i1]).id < self.next_article_id as int && seed_exists(
                self.seeds@,
                self.articles@[i1].seed_id,
            ) by {
                assert(0 < arts0[i1].id < self.next_article_id as int);
                assert(seed_exists(self.seeds@, arts0[i1].seed_id));
            }
            lemma_count_unread_bound(self.articles@, Some(seed_id));
            lemma_count_unread_bound(self.articles@, None);
        }
        let per_seed = self.get_unread_count(Some(seed_id));
        let global = self.get_unread_count(None);
        let mut events: Vec<Event> = Vec::new();
        events.push(
            Event::SeedUnread(SeedUnreadCountEvent { id: Some(seed_id), unread_count: per_seed }),
        );
        events.push(Event::SeedUnread(SeedUnreadCountEvent { id: None, unread_count: global }));
        events.push(Event::ArticleUnread(ArticleReadEvent { id: item_id, unread: !read }));
        proof {
            assert(events@ =~= seq![
                Event::SeedUnread(
                    SeedUnreadCountEvent { id: Some(seed_id), unread_count: per_seed },
                ),
                Event::SeedUnread(SeedUnreadCountEvent { id: None, unread_count: global }),
                Event::ArticleUnread(ArticleReadEvent { id: item_id, unread: !read }),
            ]);
        }
        (true, events)
    }

    /// Marks everything as read: one seed's articles when `seed_id` is a
    /// positive identity, else every article. Reports the given scope's
    /// count as zero, then the global count — recomputed after a per-seed
    /// sweep, zero by construction after a global one — and closes with the
    /// bulk sentinel (article id -1, unread false). Always succeeds.
    #[verifier::loop_isolation(false)]
    pub fn read_all(&mut self, seed_id: Option<i64>) -> (r: (bool, Vec<Event>))
        requires
            old(self).wf(),
        ensures
            final(self).wf(),
            final(self).seeds == old(self).seeds,
            final(self).settings == old(self).settings,
            final(self).watch_list == old(self).watch_list,
            final(self).version == old(self).version,
            final(self).next_seed_id == old(self).next_seed_id,
            final(self).next_article_id == old(self).next_article_id,
            final(self).next_watch_id == old(self).next_watch_id,
            r.0 == true,
            ({
                let sid = match seed_id {
                    Some(s) => s,
                    None => 0,
                };
                &&& final(self).articles@.len() == old(self).articles@.len()
                &&& forall|i: int|
                    0 <= i < old(self).articles@.len() ==> final(self).articles@[i] == (if sid <= 0
                        || (#[trigger] old(self).articles@[i]).seed_id == sid {
                        with_unread(old(self).articles@[i], false)
                    } else {
                        old(self).articles@[i]
                    })
                &&& r.1@ == seq![
                    Event::SeedUnread(SeedUnreadCountEvent { id: seed_id, unread_count: 0 }),
                    Event::SeedUnread(
                        SeedUnreadCountEvent {
                            id: None,
                            unread_count: (if sid > 0 {
                                count_unread(final(self).articles@, None)
                            } else {
                                0int
                            }) as i32,
                        },
                    ),
                    Event::ArticleUnread(ArticleReadEvent { id: -1i64, unread: false }),
                ]
            }),
    {
        let sid: i64 = match seed_id {
            Some(s) => s,
            None => 0,
        };
        let n = self.articles.len();
        let mut i: usize = 0;
        while i < n
            invariant
                0 <= i <= n,
                n == self.articles@.len(),
                self.articles@.len() == old(self).articles@.len(),
                forall|k: int|
                    0 <= k < i ==> self.articles@[k] == (if sid <= 0 || (#[trigger] old(
                        self,
                    ).articles@[k]).seed_id == sid {
                        with_unread(old(self).articles@[k], false)
                    } else {
                        old(self).articles@[k]
                    }),
                forall|k: int| i <= k < n ==> self.articles@[k] == old(self).articles@[k],
                self.seeds == old(self).seeds,
                self.settings == old(self).settings,
                self.watch_list == old(self).watch_list,
                self.version == old(self).version,
                self.next_seed_id == old(self).next_seed_id,
                self.next_article_id == old(self).next_article_id,
                self.next_watch_id == old(self).next_watch_id,
            decreases n - i,
        {
            if sid <= 0 || self.articles[i].seed_id == sid {
                let mut updated = self.articles[i].clone();
                updated.unread = false;
                self.articles[i] = updated;
            }
            i += 1;
        }
        proof {
            assert forall|i1: int, j1: int| 0 <= i1 < j1 < self.articles@.len() implies key_lt(
                #[trigger] self.articles@[i1],
                #[trigger] self.articles@[j1],
            ) && self.articles@[i1].guid@ != self.articles@[j1].guid@ && self.articles@[i1].id
                != self.articles@[j1].id by {
                assert(key_lt(old(self).articles@[i1], old(self).articles@[j1]));
                assert(old(self).articles@[i1].guid@ != old(self).articles@[j1].guid@);
                assert(old(self).articles@[i1].id != old(self).articles@[j1].id);
            }
            assert forall|i1: int| 0 <= i1 < self.articles@.len() implies 0 < (
            #[trigger] self.articles@[i1]).id < self.next_article_id as int && seed_exists(
                self.seeds@,
                self.articles@[i1].seed_id,
            ) by {
                assert(0 < old(self).articles@[i1].id < self.next_article_id as int);
                assert(seed_exists(self.seeds@, old(self).articles@[i1].seed_id));
            }
            lemma_count_unread_bound(self.articles@, None);
        }
        let global: i32 = if sid > 0 {
            self.get_unread_count(None)
        } else {
            0
        };
        let mut events: Vec<Event> = Vec::new();
        events.push(Event::SeedUnread(SeedUnreadCountEvent { id: seed_id, unread_count: 0 }));
        events.push(Event::SeedUnread(SeedUnreadCountEvent { id: None, unread_count: global }));
        events.push(Event::ArticleUnread(ArticleReadEvent { id: -1i64, unread: false }));
        proof {
            assert(events@ =~= seq![
                Event::SeedUnread(SeedUnreadCountEvent { id: seed_id, unread_count: 0 }),
                Event::SeedUnread(SeedUnreadCountEvent { id: None, unread_count: global }),
                Event::ArticleUnread(ArticleReadEvent { id: -1i64, unread: false }),
            ]);
        }
        (true, events)
    }

    /// Whether an article survives retention at time `now`: it is unread,
    /// or its publication time lies within the 30-day window.
    pub open spec fn retained(a: Article, now: int) -> bool {
        a.unread || a.pub_date >= now - 2592000
    }

    /// Retention compaction: deletes exactly the read articles whose
    /// publication time lies more than 30 days before `now`; unread
    /// articles are kept regardless of age.
    #[verifier::loop_isolation(false)]
    pub fn optimize(&mut self, now: i64)
        requires
            old(self).wf(),
        ensures
            final(self).wf(),
            final(self).articles@ == old(self).articles@.filter(
                |a: Article| Store::retained(a, now as int),
            ),
            final(self).seeds == old(self).seeds,
            final(self).settings == old(self).settings,
            final(self).watch_list == old(self).watch_list,
            final(self).version == old(self).version,
            final(self).next_seed_id == old(self).next_seed_id,
            final(self).next_article_id == old(self).next_article_id,
            final(self).next_watch_id == old(self).next_watch_id,
    {
        let ghost pred = |a: Article| Store::retained(a, now as int);
        let mut out: Vec<Article> = Vec::new();
        let n = self.articles.len();
        let mut i: usize = 0;
        proof {
            reveal(Seq::filter);
            assert(self.articles@.take(0).filter(pred) =~= Seq::<Article>::empty());
        }
        while i < n
            invariant
                0 <= i <= n,
                n == self.articles@.len(),
                out@ == self.articles@.take(i as int).filter(pred),
                pred == (|a: Article| Store::retained(a, now as int)),
            decreases n - i,
        {
            let ghost pre = self.articles@.take(i as int);
            let ghost post = self.articles@.take(i + 1);
            proof {
                reveal(Seq::filter);
                assert(post.drop_last() =~= pre);
                assert(post.last() == self.articles@[i as int]);
            }
            let a = &self.articles[i];
            let keep = a.unread || (a.pub_date as i128) >= (now as i128) - 2592000;
            if keep {
                let kept = self.articles[i].clone();
                proof {
                    assert(kept == self.articles@[i as int]);
                }
                out.push(kept);
            }
            i += 1;
        }
        proof {
            assert(self.articles@.take(n as int) =~= self.articles@);
        }
        let ghost arts0 = self.articles@;
        self.articles = out;
        proof {
            assert(self.articles@ == arts0.filter(pred));
            arts0.lemma_filter_len(pred);
            assert forall|i1: int, j1: int| 0 <= i1 < j1 < self.articles@.len() implies key_lt(
                #[trigger] self.articles@[i1],
                #[trigger] self.articles@[j1],
            ) && self.articles@[i1].guid@ != self.articles@[j1].guid@ && self.articles@[i1].id
                != self.articles@[j1].id by {
                lemma_article_filter_pair(arts0, pred, i1, j1);
            }
            assert forall|i1: int| 0 <= i1 < self.articles@.len() implies 0 < (
            #[trigger] self.articles@[i1]).id < self.next_article_id as int && seed_exists(
                self.seeds@,
                self.articles@[i1].seed_id,
            ) by {
                let x = self.articles@[i1];
                assert(arts0.filter(pred).contains(x));
                arts0.lemma_filter_contains_rev(pred, x);
                let w = choose|w: int| 0 <= w < arts0.len() && arts0[w] == x;
                assert(0 < arts0[w].id < self.next_article_id as int);
                assert(seed_exists(self.seeds@, arts0[w].seed_id));
            }
        }
    }
}

/// Two positions of a filtered article sequence come from two distinct
/// positions of the original, in order: order and pairwise distinctness of
/// keys, guids and identities survive filtering.
proof fn lemma_article_filter_pair(
    s: Seq<Article>,
    pred: spec_fn(Article) -> bool,
    i: int,
    j: int,
)
    requires
        0 <= i < j < s.filter(pred).len(),
        sorted_desc(s),
        guids_unique(s),
        article_ids_unique(s),
    ensures
        key_lt(s.filter(pred)[i], s.filter(pred)[j]),
        s.filter(pred)[i].guid@ != s.filter(pred)[j].guid@,
        s.filter(pred)[i].id != s.filter(pred)[j].id,
    decreases s.len(),
{
    reveal(Seq::filter);
    if s.len() > 0 {
        let f = s.filter(pred);
        let fd = s.drop_last().filter(pred);
        assert(sorted_desc(s.drop_last()));
        assert(guids_unique(s.drop_last()));
        assert(article_ids_unique(s.drop_last()));
        if pred(s.last()) {
            assert(f == fd.push(s.last()));
            if j == f.len() - 1 {
                assert(f[j] == s.last());
                let x = fd[i];
                assert(fd.contains(x));
                s.drop_last().lemma_filter_contains_rev(pred, x);
                let w = choose|w: int| 0 <= w < s.drop_last().len() && s.drop_last()[w] == x;
                assert(s[w] == x);
                assert(key_lt(s[w], s.last()));
                assert(s[w].guid@ != s.last().guid@);
                assert(s[w].id != s.last().id);
                assert(f[i] == fd[i]);
            } else {
                assert(f[i] == fd[i] && f[j] == fd[j]);
                lemma_article_filter_pair(s.drop_last(), pred, i, j);
            }
        } else {
            assert(f == fd);
            lemma_article_filter_pair(s.drop_last(), pred, i, j);
        }
    }
}

/// Two positions of a filtered sequence come from two distinct positions of
/// the original, in order.
proof fn lemma_filter_pair_from_distinct(
    s: Seq<WatchKeyword>,
    pred: spec_fn(WatchKeyword) -> bool,
    i: int,
    j: int,
)
    requires
        0 <= i < j < s.filter(pred).len(),
        forall|a: int, b: int|
            0 <= a < b < s.len() ==> (#[trigger] s[a]).id != (#[trigger] s[b]).id && s[a].keyword@
                != s[b].keyword@,
    ensures
        s.filter(pred)[i].id != s.filter(pred)[j].id,
        s.filter(pred)[i].keyword@ != s.filter(pred)[j].keyword@,
    decreases s.len(),
{
    reveal(Seq::filter);
    if s.len() > 0 {
        let f = s.filter(pred);
        let fd = s.drop_last().filter(pred);
        if pred(s.last()) {
            assert(f == fd.push(s.last()));
            if j == f.len() - 1 {
                assert(f[j] == s.last());
                let x = fd[i];
                assert(fd.contains(x));
                s.drop_last().lemma_filter_contains_rev(pred, x);
                let w = choose|w: int| 0 <= w < s.drop_last().len() && s.drop_last()[w] == x;
                assert(s[w] == x);
                assert(s[w].id != s.last().id && s[w].keyword@ != s.last().keyword@);
                assert(f[i] == fd[i]);
            } else {
                assert(f[i] == fd[i] && f[j] == fd[j]);
                lemma_filter_pair_from_distinct(s.drop_last(), pred, i, j);
            }
        } else {
            assert(f == fd);
            lemma_filter_pair_from_distinct(s.drop_last(), pred, i, j);
        }
    }
}

} // verus!
