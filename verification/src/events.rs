//! Events the core emits after state changes. The host delivers them on
//! named topics; the core only decides which events arise and in what order.

use vstd::prelude::*;

verus! {

/// Payload of an article read/unread change.
#[derive(Clone, Copy, PartialEq, Eq, Structural, Debug)]
pub struct ArticleReadEvent {
    /// Article identity; -1 is the sentinel for a bulk change.
    pub id: i64,
    /// The article's new unread flag.
    pub unread: bool,
}

/// Payload of an unread-count (or newly-inserted-count) change for a seed.
#[derive(Clone, Copy, PartialEq, Eq, Structural, Debug)]
pub struct SeedUnreadCountEvent {
    /// Seed identity; `None` means the count is global.
    pub id: Option<i64>,
    /// The count carried by the event.
    pub unread_count: i32,
}

/// One event, tagged with its topic.
#[derive(Clone, Copy, PartialEq, Eq, Structural, Debug)]
pub enum Event {
    /// A seed was added.
    SeedAdd,
    /// New articles were ingested for a seed (or globally, id `None`).
    SeedNew(SeedUnreadCountEvent),
    /// A seed's unread count changed (or the global count, id `None`).
    SeedUnread(SeedUnreadCountEvent),
    /// An article's unread flag changed.
    ArticleUnread(ArticleReadEvent),
    /// The watch list changed.
    WatchlistChange,
}

impl Event {
    /// The named channel this event is broadcast on.
    pub fn topic(&self) -> (r: &'static str)
        ensures
            *self is SeedAdd ==> r@ == "app://seed/add"@,
            *self is SeedNew ==> r@ == "app://seed/new"@,
            *self is SeedUnread ==> r@ == "app://seed/unread"@,
            *self is ArticleUnread ==> r@ == "app://article/unread"@,
            *self is WatchlistChange ==> r@ == "app://watchlist/change"@,
    {
        match self {
            Event::SeedAdd => "app://seed/add",
            Event::SeedNew(_) => "app://seed/new",
            Event::SeedUnread(_) => "app://seed/unread",
            Event::ArticleUnread(_) => "app://article/unread",
            Event::WatchlistChange => "app://watchlist/change",
        }
    }
}

} // verus!
