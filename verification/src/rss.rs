//! RSS feed items and the episodes that a refresh takes from them.
use vstd::prelude::*;
use crate::filename::{capture_of, capture_text};
use crate::patterns::{first_capture, NumberPattern};
use crate::text::{chars_eq, chars_of, spec_starts_with, starts_with, string_of};

verus! {

/// An RSS document: its one channel.
pub struct RssFeed {
    pub channel: RssChannel,
}

pub struct RssChannel {
    pub title: String,
    pub link: String,
    pub items: Vec<RssItem>,
}

pub struct RssItem {
    pub title: String,
    pub link: String,
    pub enclosure: Option<Enclosure>,
    pub pub_date: String,
}

/// The `<enclosure url=".." type=".." length="..">` of an item.
pub struct Enclosure {
    pub url: String,
    pub enclosure_type: String,
    pub length: String,
}

/// An episode found in a feed.
pub struct EpisodeInfo {
    pub title: String,
    pub torrent_url: String,
    pub magnet_uri: String,
    pub pub_date: String,
    /// The episode number as decimal text.
    pub episode_number: Option<String>,
}

/// The link itself when it is a magnet link, else the empty string.
pub open spec fn spec_extract_magnet(link: Seq<char>) -> Seq<char> {
    if spec_starts_with(link, "magnet:"@) {
        link
    } else {
        Seq::empty()
    }
}

/// Mikan sometimes puts the magnet link in the item's link field.
pub fn extract_magnet(link: &str) -> (r: String)
    ensures
        r@ == spec_extract_magnet(link@),
{
    let v = chars_of(link);
    let prefix = chars_of("magnet:");
    if starts_with(&v, &prefix) {
        string_of(&v)
    } else {
        String::new()
    }
}

/// The episode number in an RSS item title, as decimal text: the capture of the
/// first of `第01话`, `EP01`/`E01`, `#01`, `- 01 [` (or a trailing `- 01`) that matches.
pub open spec fn spec_extract_episode_number(title: Seq<char>) -> Option<Seq<char>> {
    if first_capture(NumberPattern::Dai, title) is Some {
        capture_text(title, first_capture(NumberPattern::Dai, title))
    } else if first_capture(NumberPattern::EOrEp, title) is Some {
        capture_text(title, first_capture(NumberPattern::EOrEp, title))
    } else if first_capture(NumberPattern::Hash, title) is Some {
        capture_text(title, first_capture(NumberPattern::Hash, title))
    } else {
        capture_text(title, first_capture(NumberPattern::DashBracketOrEnd, title))
    }
}

pub fn extract_episode_number(title: &str) -> (r: Option<String>)
    ensures
        r matches Some(t) ==> spec_extract_episode_number(title@) == Some(t@),
        r is None ==> spec_extract_episode_number(title@) is None,
{
    let v = chars_of(title);
    if let Some(t) = capture_of(NumberPattern::Dai, &v) {
        return Some(string_of(&t));
    }
    if let Some(t) = capture_of(NumberPattern::EOrEp, &v) {
        return Some(string_of(&t));
    }
    if let Some(t) = capture_of(NumberPattern::Hash, &v) {
        return Some(string_of(&t));
    }
    match capture_of(NumberPattern::DashBracketOrEnd, &v) {
        Some(t) => Some(string_of(&t)),
        None => None,
    }
}

/// A title is among the known ones.
pub open spec fn title_seen(seen: Seq<String>, title: Seq<char>) -> bool {
    exists|i: int| 0 <= i < seen.len() && #[trigger] seen[i]@ == title
}

/// The items whose titles are not yet known, in feed order.
pub open spec fn new_items(items: Seq<RssItem>, seen: Seq<String>) -> Seq<RssItem>
    decreases items.len(),
{
    if items.len() == 0 {
        Seq::empty()
    } else {
        let r = new_items(items.drop_last(), seen);
        if title_seen(seen, items.last().title@) {
            r
        } else {
            r.push(items.last())
        }
    }
}

/// The torrent URL of an item: its enclosure's URL, else its link.
pub open spec fn torrent_url_of(item: RssItem) -> Seq<char> {
    match item.enclosure {
        Some(e) => e.url@,
        None => item.link@,
    }
}

/// The episode that an item describes.
pub open spec fn episode_from(ep: EpisodeInfo, item: RssItem) -> bool {
    &&& ep.title@ == item.title@
    &&& ep.torrent_url@ == torrent_url_of(item)
    &&& ep.magnet_uri@ == spec_extract_magnet(item.link@)
    &&& ep.pub_date@ == item.pub_date@
    &&& match ep.episode_number {
        Some(t) => spec_extract_episode_number(item.title@) == Some(t@),
        None => spec_extract_episode_number(item.title@) is None,
    }
}

fn is_seen(seen: &Vec<String>, title: &str) -> (b: bool)
    ensures
        b == title_seen(seen@, title@),
{
    let t = chars_of(title);
    let mut i: usize = 0;
    while i < seen.len()
        invariant
            i <= seen.len(),
            t@ == title@,
            forall|k: int| 0 <= k < i ==> seen@[k]@ != title@,
        decreases seen.len() - i,
    {
        let s = chars_of(seen[i].as_str());
        if chars_eq(&s, &t) {
            return true;
        }
        i += 1;
    }
    false
}

fn copy_string(s: &String) -> (r: String)
    ensures
        r@ == s@,
{
    string_of(&chars_of(s.as_str()))
}

/// The episodes of the feed whose titles are not among `seen_titles`, in feed order.
pub fn extract_new_episodes(feed: &RssFeed, seen_titles: &Vec<String>) -> (r: Vec<EpisodeInfo>)
    ensures
        r@.len() == new_items(feed.channel.items@, seen_titles@).len(),
        forall|j: int|
            0 <= j < r@.len() ==> episode_from(
                #[trigger] r@[j],
                new_items(feed.channel.items@, seen_titles@)[j],
            ),
{
    let items = &feed.channel.items;
    let mut r: Vec<EpisodeInfo> = Vec::new();
    let mut i: usize = 0;
    while i < items.len()
        invariant
            i <= items.len(),
            items@ == feed.channel.items@,
            r@.len() == new_items(items@.take(i as int), seen_titles@).len(),
            forall|j: int|
                0 <= j < r@.len() ==> episode_from(
                    #[trigger] r@[j],
                    new_items(items@.take(i as int), seen_titles@)[j],
                ),
        decreases items.len() - i,
    {
        let item = &items[i];
        assert(items@.take(i + 1).drop_last() =~= items@.take(i as int));
        assert(items@.take(i + 1).last() == *item);
        if !is_seen(seen_titles, item.title.as_str()) {
            let torrent_url = match &item.enclosure {
                Some(e) => copy_string(&e.url),
                None => copy_string(&item.link),
            };
            let ep = EpisodeInfo {
                title: copy_string(&item.title),
                torrent_url,
                magnet_uri: extract_magnet(item.link.as_str()),
                pub_date: copy_string(&item.pub_date),
                episode_number: extract_episode_number(item.title.as_str()),
            };
            r.push(ep);
        }
        i += 1;
    }
    assert(items@.take(items.len() as int) =~= items@);
    r
}

} // verus!

verus! {

/// A refresh offers exactly the items whose titles are not yet known: every
/// item it offers has an unknown title, and every item with an unknown title
/// is offered, in feed order.
pub proof fn lemma_new_items_are_unseen(items: Seq<RssItem>, seen: Seq<String>)
    ensures
        forall|j: int|
            0 <= j < new_items(items, seen).len() ==> !title_seen(
                seen,
                (#[trigger] new_items(items, seen)[j]).title@,
            ),
        forall|i: int|
            0 <= i < items.len() && !title_seen(seen, (#[trigger] items[i]).title@) ==> exists|j: int|
                0 <= j < new_items(items, seen).len() && new_items(items, seen)[j] == items[i],
    decreases items.len(),
{
    if items.len() > 0 {
        let init = items.drop_last();
        lemma_new_items_are_unseen(init, seen);
        let r = new_items(init, seen);
        assert forall|i: int|
            0 <= i < items.len() && !title_seen(seen, (#[trigger] items[i]).title@) implies exists|j: int|
            0 <= j < new_items(items, seen).len() && new_items(items, seen)[j] == items[i] by {
            if i < items.len() - 1 {
                assert(init[i] == items[i]);
                let j = choose|j: int| 0 <= j < r.len() && r[j] == init[i];
                assert(new_items(items, seen)[j] == items[i]);
            } else {
                assert(new_items(items, seen)[r.len() as int] == items[i]);
            }
        }
    }
}

/// Once an episode's title is known, a later refresh does not offer that
/// episode again.
pub proof fn lemma_known_title_not_offered_again(
    items: Seq<RssItem>,
    seen: Seq<String>,
    title: String,
)
    requires
        exists|i: int| 0 <= i < seen.len() && seen[i]@ == title@,
    ensures
        forall|j: int|
            0 <= j < new_items(items, seen).len() ==> (#[trigger] new_items(items, seen)[j]).title@
                != title@,
{
    lemma_new_items_are_unseen(items, seen);
}

} // verus!
