//! RSS subscriptions: their records, the directory each one downloads into, and
//! the bookkeeping of a refresh over all of them.
use vstd::prelude::*;
use crate::rss::EpisodeInfo;
use crate::text::{
    chars_of, spec_starts_with, spec_trim, spec_trim_char, spec_white_space, starts_with, str_is,
    string_of, trim,
    trim_char,
};

verus! {

/// A subscription to a fansub group's RSS feed for one anime.
pub struct Subscription {
    pub id: String,
    pub title: String,
    pub rss_url: String,
    pub mikan_url: String,
    pub cover_url: String,
    pub enabled: bool,
    pub auto_download: bool,
    pub created_at: String,
}

/// What a refresh of all subscriptions found and started.
pub struct RefreshResult {
    pub new_episodes: u32,
    pub started_downloads: u32,
}

/// A character that Windows refuses in a file name: `\ / : * ? " < > |` or a control character.
pub open spec fn is_illegal_name_char(c: char) -> bool {
    ||| c == '\\'
    ||| c == '/'
    ||| c == ':'
    ||| c == '*'
    ||| c == '?'
    ||| c == '"'
    ||| c == '<'
    ||| c == '>'
    ||| c == '|'
    ||| (c as u32) < 0x20
}

pub open spec fn sanitize_char(c: char) -> char {
    if is_illegal_name_char(c) {
        '_'
    } else {
        c
    }
}

/// The directory name for a subscription title: illegal characters become `_`,
/// surrounding whitespace and then dots are trimmed, and an empty result becomes
/// `untitled`.
pub open spec fn spec_sanitize_dir_name(name: Seq<char>) -> Seq<char> {
    let t = spec_trim_char(spec_trim(name.map_values(|c: char| sanitize_char(c))), '.');
    if t.len() == 0 {
        "untitled"@
    } else {
        t
    }
}

/// A directory name made safe for Windows from a subscription title.
pub fn sanitize_dir_name(name: &str) -> (r: String)
    ensures
        r@ == spec_sanitize_dir_name(name@),
        r@.len() > 0,
        forall|i: int| 0 <= i < r@.len() ==> !is_illegal_name_char(#[trigger] r@[i]),
        r@[0] != '.',
        r@.last() != '.',
{
    let v = chars_of(name);
    let mut s: Vec<char> = Vec::new();
    let mut i: usize = 0;
    while i < v.len()
        invariant
            i <= v.len(),
            s@ == v@.take(i as int).map_values(|c: char| sanitize_char(c)),
        decreases v.len() - i,
    {
        let ch = v[i];
        let c = ch as u32;
        if ch == '\\' || ch == '/' || ch == ':' || ch == '*' || ch == '?' || ch == '"' || ch == '<'
            || ch == '>' || ch == '|' || c < 0x20 {
            s.push('_');
        } else {
            s.push(ch);
        }
        assert(v@.take(i + 1).map_values(|c: char| sanitize_char(c)) =~= v@.take(
            i as int,
        ).map_values(|c: char| sanitize_char(c)).push(sanitize_char(ch)));
        i += 1;
    }
    assert(v@.take(v.len() as int) =~= v@);
    let t = trim_char(&trim(&s), '.');
    proof {
        lemma_sanitized_trim(s@);
    }
    if t.len() == 0 {
        let u = chars_of("untitled");
        proof {
            reveal_strlit("untitled");
        }
        string_of(&u)
    } else {
        string_of(&t)
    }
}

proof fn lemma_sanitized_trim(s: Seq<char>)
    requires
        forall|i: int| 0 <= i < s.len() ==> !is_illegal_name_char(#[trigger] s[i]),
    ensures
        ({
            let t = spec_trim_char(spec_trim(s), '.');
            &&& forall|i: int| 0 <= i < t.len() ==> !is_illegal_name_char(#[trigger] t[i])
            &&& t.len() > 0 ==> t[0] != '.' && t.last() != '.'
        }),
{
    let u = spec_trim(s);
    crate::text::lemma_white_end_bounds(s, 0);
    crate::text::lemma_white_back_bounds(s, s.len() as int);
    assert forall|i: int| 0 <= i < u.len() implies !is_illegal_name_char(#[trigger] u[i]) by {
        assert(u[i] == s[crate::text::white_end(s, 0) + i]);
    }
    crate::text::lemma_char_run_bounds(u, '.');
    let t = spec_trim_char(u, '.');
    assert forall|i: int| 0 <= i < t.len() implies !is_illegal_name_char(#[trigger] t[i]) by {
        assert(t[i] == u[crate::text::char_run_end(u, 0, '.') + i]);
    }
}

} // verus!

verus! {

/// A subscription that a refresh fetches: not the placeholder for manual
/// downloads, and not a `manual://` feed.
pub open spec fn spec_is_refreshable(id: Seq<char>, rss_url: Seq<char>) -> bool {
    id != "manual"@ && !spec_starts_with(rss_url, "manual://"@)
}

pub fn is_refreshable(id: &str, rss_url: &str) -> (b: bool)
    ensures
        b == spec_is_refreshable(id@, rss_url@),
{
    let u = chars_of(rss_url);
    let p = chars_of("manual://");
    !str_is(id, "manual") && !starts_with(&u, &p)
}

/// The record of a subscription just added: enabled, with no cover.
pub fn added_subscription(
    id: String,
    title: String,
    rss_url: String,
    mikan_url: String,
    auto_download: bool,
    created_at: String,
) -> (r: Subscription)
    ensures
        r.id == id,
        r.title == title,
        r.rss_url == rss_url,
        r.mikan_url == mikan_url,
        r.cover_url@ == Seq::<char>::empty(),
        r.enabled,
        r.auto_download == auto_download,
        r.created_at == created_at,
{
    Subscription {
        id,
        title,
        rss_url,
        mikan_url,
        cover_url: String::new(),
        enabled: true,
        auto_download,
        created_at,
    }
}

/// Whether an episode's download counts as started: aria2 accepted it and
/// answered with a non-empty GID.
pub open spec fn started_by(download: Option<Result<String, String>>) -> nat {
    match download {
        Some(Ok(g)) => if g@.len() > 0 {
            1
        } else {
            0
        },
        _ => 0,
    }
}

/// How many of the downloads count as started.
pub open spec fn started_count(downloads: Seq<Option<Result<String, String>>>) -> nat
    decreases downloads.len(),
{
    if downloads.len() == 0 {
        0
    } else {
        started_count(downloads.drop_last()) + started_by(downloads.last())
    }
}

/// The running totals of a refresh over all subscriptions, and the titles
/// known so far (those in the database, then each episode as it is stored).
pub struct RefreshState {
    pub known_titles: Vec<String>,
    pub new_episodes: u32,
    pub started_downloads: u32,
}

impl RefreshState {
    /// Started downloads never outnumber new episodes.
    pub open spec fn well_formed(&self) -> bool {
        self.started_downloads <= self.new_episodes
    }

    /// A refresh that knows the stored titles and has found nothing yet.
    pub fn new(known_titles: Vec<String>) -> (r: RefreshState)
        ensures
            r.known_titles == known_titles,
            r.new_episodes == 0,
            r.started_downloads == 0,
            r.well_formed(),
    {
        RefreshState { known_titles, new_episodes: 0, started_downloads: 0 }
    }

    /// Where a new episode is downloaded from: nowhere unless the subscription
    /// downloads automatically.
    pub fn download_source(auto_download: bool, ep: &EpisodeInfo) -> (r: Option<
        crate::download::DownloadSource,
    >)
        ensures
            !auto_download ==> r is None,
            auto_download ==> match r {
                Some(s) => crate::download::spec_download_source(ep.torrent_url@, ep.magnet_uri@)
                    == Some(crate::download::source_view(s)),
                None => crate::download::spec_download_source(
                    ep.torrent_url@,
                    ep.magnet_uri@,
                ) is None,
            },
    {
        if auto_download {
            crate::download::choose_download_source(ep.torrent_url.as_str(), ep.magnet_uri.as_str())
        } else {
            None
        }
    }

    /// Records a new episode and the outcome of its download, if one was tried.
    /// Returns the GID to store with the episode: aria2's answer when the
    /// download was accepted, even if empty; none when it was not tried or failed.
    pub fn record_episode(&mut self, title: &str, download: Option<Result<String, String>>) -> (r:
        Option<String>)
        requires
            old(self).new_episodes < u32::MAX,
            old(self).started_downloads < u32::MAX,
        ensures
            final(self).new_episodes == old(self).new_episodes + 1,
            final(self).started_downloads == old(self).started_downloads + started_by(download),
            final(self).known_titles@.len() == old(self).known_titles@.len() + 1,
            final(self).known_titles@.take(old(self).known_titles@.len() as int)
                == old(self).known_titles@,
            final(self).known_titles@.last()@ == title@,
            r == (match download {
                Some(Ok(g)) => Some(g),
                _ => None,
            }),
            old(self).well_formed() ==> final(self).well_formed(),
    {
        self.new_episodes = self.new_episodes + 1;
        let gid = match download {
            Some(Ok(g)) => {
                if !g.as_str().is_empty() {
                    self.started_downloads = self.started_downloads + 1;
                }
                Some(g)
            },
            _ => None,
        };
        let ghost before = self.known_titles@;
        self.known_titles.push(string_of(&chars_of(title)));
        assert(self.known_titles@.take(before.len() as int) =~= before);
        gid
    }

    /// The totals of the refresh.
    pub fn result(&self) -> (r: RefreshResult)
        ensures
            r.new_episodes == self.new_episodes,
            r.started_downloads == self.started_downloads,
    {
        RefreshResult {
            new_episodes: self.new_episodes,
            started_downloads: self.started_downloads,
        }
    }
}

} // verus!

verus! {

/// A name that is already safe, with no illegal character and nothing to
/// trim at either end, is kept as it is.
pub proof fn lemma_sanitize_keeps_safe_name(name: Seq<char>)
    requires
        name.len() > 0,
        forall|i: int| 0 <= i < name.len() ==> !is_illegal_name_char(#[trigger] name[i]),
        !crate::text::spec_white_space(name[0]),
        !crate::text::spec_white_space(name.last()),
        name[0] != '.',
        name.last() != '.',
    ensures
        spec_sanitize_dir_name(name) == name,
{
    let m = name.map_values(|c: char| sanitize_char(c));
    assert(m =~= name);
    assert(crate::text::white_end(name, 0) == 0);
    assert(crate::text::white_back(name, name.len() as int) == name.len());
    assert(name.subrange(0, name.len() as int) =~= name);
    assert(spec_trim(name) == name);
    assert(crate::text::char_run_end(name, 0, '.') == 0);
    assert(crate::text::char_run_back(name, name.len() as int, '.') == name.len());
    assert(spec_trim_char(name, '.') == name);
}

/// `r` is the piece of `s` that starts at `a`.
pub open spec fn is_piece_at(r: Seq<char>, s: Seq<char>, a: int) -> bool {
    0 <= a && a + r.len() <= s.len() && r == s.subrange(a, a + r.len())
}

/// A directory name is the title with every character Windows refuses in a
/// file name (`\ / : * ? " < > |` and the control characters) replaced by `_`
/// in its place, cut down to a piece: the name holds none of those
/// characters; it is `untitled` or a piece of the replaced title; and when
/// the title holds anything besides white space and dots, it is that piece,
/// and the piece keeps every character that is neither white space nor a dot.
pub proof fn lemma_sanitize_dir_name_replaces_forbidden(name: Seq<char>)
    ensures
        ({
            let bad = |c: char|
                c == '\\' || c == '/' || c == ':' || c == '*' || c == '?' || c == '"' || c == '<'
                    || c == '>' || c == '|' || (c as u32) < 0x20;
            let m = name.map_values(
                |c: char|
                    if bad(c) {
                        '_'
                    } else {
                        c
                    },
            );
            let r = spec_sanitize_dir_name(name);
            &&& r.len() > 0
            &&& forall|i: int| 0 <= i < r.len() ==> !bad(#[trigger] r[i])
            &&& r == "untitled"@ || exists|a: int| #[trigger] is_piece_at(r, m, a)
            &&& (exists|j: int|
                0 <= j < m.len() && !spec_white_space(#[trigger] m[j]) && m[j] != '.') ==> exists|a: int|
                #[trigger] is_piece_at(r, m, a) && forall|j: int|
                    0 <= j < m.len() && !spec_white_space(#[trigger] m[j]) && m[j] != '.' ==> a <= j
                        < a + r.len()
        }),
{
    let bad = |c: char|
        c == '\\' || c == '/' || c == ':' || c == '*' || c == '?' || c == '"' || c == '<' || c
            == '>' || c == '|' || (c as u32) < 0x20;
    let m = name.map_values(
        |c: char|
            if bad(c) {
                '_'
            } else {
                c
            },
    );
    let s = name.map_values(|c: char| sanitize_char(c));
    assert(m =~= s);
    let r = spec_sanitize_dir_name(name);
    assert forall|i: int| 0 <= i < s.len() implies !is_illegal_name_char(#[trigger] s[i]) by {}
    lemma_sanitized_trim(s);
    let a1 = crate::text::white_end(s, 0);
    let b1 = crate::text::white_back(s, s.len() as int);
    crate::text::lemma_white_end_bounds(s, 0);
    crate::text::lemma_white_back_bounds(s, s.len() as int);
    let u = spec_trim(s);
    crate::text::lemma_char_run_bounds(u, '.');
    let a2 = crate::text::char_run_end(u, 0, '.');
    let b2 = crate::text::char_run_back(u, u.len() as int, '.');
    let t = spec_trim_char(u, '.');
    reveal_strlit("untitled");
    if t.len() == 0 {
        assert(r == "untitled"@);
        assert forall|i: int| 0 <= i < r.len() implies !bad(#[trigger] r[i]) by {
            assert("untitled"@ =~= seq!['u', 'n', 't', 'i', 't', 'l', 'e', 'd']);
        }
    } else {
        assert(r == t);
        assert forall|i: int| 0 <= i < r.len() implies !bad(#[trigger] r[i]) by {
            assert(!is_illegal_name_char(t[i]));
        }
        assert(a1 < b1);
        assert(u == s.subrange(a1, b1));
        assert(a2 < b2);
        assert(t == u.subrange(a2, b2));
        assert(t =~= s.subrange(a1 + a2, a1 + b2));
        assert(is_piece_at(r, m, a1 + a2));
    }
    if exists|j: int| 0 <= j < m.len() && !spec_white_space(#[trigger] m[j]) && m[j] != '.' {
        let j0 = choose|j: int| 0 <= j < m.len() && !spec_white_space(#[trigger] m[j]) && m[j] != '.';
        assert(a1 <= j0 < b1);
        assert(u == s.subrange(a1, b1));
        assert(u[j0 - a1] == s[j0]);
        assert(a2 <= j0 - a1 < b2);
        assert(t.len() > 0);
        assert forall|j: int|
            0 <= j < m.len() && !spec_white_space(#[trigger] m[j]) && m[j] != '.' implies a1 + a2 <= j
            < a1 + a2 + r.len() by {
            assert(a1 <= j < b1);
            assert(u[j - a1] == s[j]);
            assert(a2 <= j - a1 < b2);
        }
        assert(is_piece_at(r, m, a1 + a2));
    }
}

/// The report of wiping all subscriptions and episodes.
pub fn wipe_summary(episodes: i32, subscriptions: i32) -> (r: String)
    ensures
        r@ == "Cleared "@ + crate::decimal::spec_signed_decimal(episodes as int) + " episodes and "@
            + crate::decimal::spec_signed_decimal(subscriptions as int) + " subscriptions"@,
{
    let a = crate::text::str_concat("Cleared ", string_of(&crate::decimal::decimal_i32(episodes)).as_str());
    let b = crate::text::str_concat(a.as_str(), " episodes and ");
    let c = crate::text::str_concat(b.as_str(), string_of(&crate::decimal::decimal_i32(subscriptions)).as_str());
    crate::text::str_concat(c.as_str(), " subscriptions")
}

/// The totals of a whole refresh: starting from a fresh state and recording
/// one episode after another, the new-episode count is the number of episodes
/// recorded and the started count is how many of their downloads aria2
/// accepted with a GID, never more than the new episodes.
pub proof fn lemma_refresh_totals(
    states: Seq<RefreshState>,
    downloads: Seq<Option<Result<String, String>>>,
)
    requires
        states.len() == downloads.len() + 1,
        states[0].new_episodes == 0,
        states[0].started_downloads == 0,
        forall|i: int|
            0 <= i < downloads.len() ==> (#[trigger] states[i + 1]).new_episodes == states[i].new_episodes
                + 1 && states[i + 1].started_downloads == states[i].started_downloads + started_by(
                downloads[i],
            ),
    ensures
        states.last().new_episodes == downloads.len(),
        states.last().started_downloads == started_count(downloads),
        started_count(downloads) <= downloads.len(),
    decreases downloads.len(),
{
    if downloads.len() > 0 {
        let n = downloads.len() - 1;
        let ss = states.drop_last();
        let ds = downloads.drop_last();
        assert forall|i: int| 0 <= i < ds.len() implies (#[trigger] ss[i + 1]).new_episodes
            == ss[i].new_episodes + 1 && ss[i + 1].started_downloads == ss[i].started_downloads
            + started_by(ds[i]) by {
            assert(ss[i + 1] == states[i + 1]);
            assert(ss[i] == states[i]);
            assert(ds[i] == downloads[i]);
        }
        lemma_refresh_totals(ss, ds);
        assert(states[n + 1] == states.last());
        assert(ss.last() == states[n]);
    }
}

} // verus!
