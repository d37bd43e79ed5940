//! The local library: which video files it lists, the group each file is
//! shown under, and the groups in title order.
use vstd::prelude::*;
use crate::text::{all_ascii, ascii_lower, chars_eq, chars_of, str_concat, str_copy, str_is, str_is_empty};

verus! {

/// What `str::to_lowercase` gives for a string (Unicode case mapping).
pub uninterp spec fn str_to_lowercase(s: Seq<char>) -> Seq<char>;

/// `str::to_lowercase`: the string in lower case by Unicode's case mapping.
/// The contract names the result, and states it for an ASCII string: each
/// letter in lower case, the rest kept.
#[verifier::external_body]
fn to_lowercase(s: &str) -> (r: String)
    ensures
        r@ == str_to_lowercase(s@),
        all_ascii(s@) ==> r@ == s@.map_values(|c: char| ascii_lower(c)),
{
    s.to_lowercase()
}

/// The extensions of the files the library lists.
pub open spec fn video_extensions() -> Seq<Seq<char>> {
    seq!["mkv"@, "mp4"@, "avi"@, "mov"@, "webm"@, "flv"@, "ts"@]
}

/// An extension in lower case: letter by letter for an ASCII extension, else
/// by Unicode's case mapping.
pub open spec fn lower_of(ext: Seq<char>) -> Seq<char> {
    if all_ascii(ext) {
        ext.map_values(|c: char| ascii_lower(c))
    } else {
        str_to_lowercase(ext)
    }
}

/// A file is a video when its extension, in lower case, is a video extension.
pub open spec fn spec_is_video_extension(ext: Seq<char>) -> bool {
    video_extensions().contains(lower_of(ext))
}

pub fn is_video_extension(ext: &str) -> (b: bool)
    ensures
        b == spec_is_video_extension(ext@),
{
    let lower = to_lowercase(ext);
    let l = lower.as_str();
    let b = str_is(l, "mkv") || str_is(l, "mp4") || str_is(l, "avi") || str_is(l, "mov") || str_is(
        l,
        "webm",
    ) || str_is(l, "flv") || str_is(l, "ts");
    proof {
        let v = video_extensions();
        if b {
            assert(v.contains(lower@)) by {
                if lower@ == "mkv"@ {
                    assert(v[0] == lower@);
                } else if lower@ == "mp4"@ {
                    assert(v[1] == lower@);
                } else if lower@ == "avi"@ {
                    assert(v[2] == lower@);
                } else if lower@ == "mov"@ {
                    assert(v[3] == lower@);
                } else if lower@ == "webm"@ {
                    assert(v[4] == lower@);
                } else if lower@ == "flv"@ {
                    assert(v[5] == lower@);
                } else {
                    assert(v[6] == lower@);
                }
            }
        }
    }
    b
}

/// The library lists exactly the video files: an ASCII extension is a video
/// extension when, in lower case, it is `mkv`, `mp4`, `avi`, `mov`, `webm`,
/// `flv` or `ts`, and only then.
pub proof fn lemma_video_extensions_listed(ext: Seq<char>)
    requires
        all_ascii(ext),
    ensures
        ({
            let l = ext.map_values(|c: char| ascii_lower(c));
            spec_is_video_extension(ext) <==> (l == "mkv"@ || l == "mp4"@ || l == "avi"@ || l
                == "mov"@ || l == "webm"@ || l == "flv"@ || l == "ts"@)
        }),
{
    let l = ext.map_values(|c: char| ascii_lower(c));
    let v = video_extensions();
    assert(lower_of(ext) == l);
    if v.contains(l) {
        let i = choose|i: int| 0 <= i < v.len() && v[i] == l;
        assert(i == 0 || i == 1 || i == 2 || i == 3 || i == 4 || i == 5 || i == 6);
    }
    if l == "mkv"@ {
        assert(v[0] == l);
    } else if l == "mp4"@ {
        assert(v[1] == l);
    } else if l == "avi"@ {
        assert(v[2] == l);
    } else if l == "mov"@ {
        assert(v[3] == l);
    } else if l == "webm"@ {
        assert(v[4] == l);
    } else if l == "flv"@ {
        assert(v[5] == l);
    } else if l == "ts"@ {
        assert(v[6] == l);
    }
}

/// How deep the library scan descends into sub-directories.
pub const MAX_LIBRARY_DEPTH: usize = 64;

/// The error for a directory nested deeper than the scan descends, if `depth` is.
pub fn nesting_error(depth: usize, dir_display: &str) -> (r: Option<String>)
    ensures
        depth <= MAX_LIBRARY_DEPTH <==> r is None,
        r matches Some(m) ==> m@ == "library directory nesting exceeds 64 levels near "@
            + dir_display@,
{
    if depth > MAX_LIBRARY_DEPTH {
        Some(str_concat("library directory nesting exceeds 64 levels near ", dir_display))
    } else {
        None
    }
}

/// The value of the last pair whose key is `key`, if any (what a map filled
/// from the pairs in order holds for the key).
pub open spec fn last_value<V>(pairs: Seq<(String, V)>, key: Seq<char>) -> Option<V>
    decreases pairs.len(),
{
    if pairs.len() == 0 {
        None
    } else if pairs.last().0@ == key {
        Some(pairs.last().1)
    } else {
        last_value(pairs.drop_last(), key)
    }
}

/// Whether a file is marked watched: the last watch record for its path says
/// so; a file without a record is unwatched.
pub fn is_watched(records: &Vec<(String, bool)>, path: &str) -> (b: bool)
    ensures
        b == (match last_value(records@, path@) {
            Some(w) => w,
            None => false,
        }),
{
    let p = chars_of(path);
    let mut i: usize = records.len();
    assert(records@.take(i as int) =~= records@);
    while i > 0
        invariant
            i <= records.len(),
            p@ == path@,
            last_value(records@.take(i as int), path@) == last_value(records@, path@),
        decreases i,
    {
        assert(records@.take(i as int).drop_last() =~= records@.take(i - 1));
        if chars_eq(&chars_of(records[i - 1].0.as_str()), &p) {
            return records[i - 1].1;
        }
        i -= 1;
    }
    assert(records@.take(0) =~= Seq::<(String, bool)>::empty());
    false
}

/// The title of the subscription a file was downloaded for, from the episode
/// records (path, subscription title); the last record for the path counts.
pub fn subscription_title_for(rows: &Vec<(String, String)>, path: &str) -> (r: Option<String>)
    ensures
        match r {
            Some(t) => last_value(rows@, path@) matches Some(u) && u@ == t@,
            None => last_value(rows@, path@) is None,
        },
{
    let p = chars_of(path);
    let mut i: usize = rows.len();
    assert(rows@.take(i as int) =~= rows@);
    while i > 0
        invariant
            i <= rows.len(),
            p@ == path@,
            last_value(rows@.take(i as int), path@) == last_value(rows@, path@),
        decreases i,
    {
        assert(rows@.take(i as int).drop_last() =~= rows@.take(i - 1));
        if chars_eq(&chars_of(rows[i - 1].0.as_str()), &p) {
            return Some(str_copy(rows[i - 1].1.as_str()));
        }
        i -= 1;
    }
    assert(rows@.take(0) =~= Seq::<(String, String)>::empty());
    None
}

/// The group a file is shown under: its subscription's title when it was
/// downloaded for one; else its folder, unless that is `.`, `download` or
/// `手动下载` (a folder that cannot be named counts as `未分类`); else the
/// title parsed from its name, or `未分类` when that is empty.
pub open spec fn spec_group_title(
    subscription_title: Option<Seq<char>>,
    parent_folder: Option<Seq<char>>,
    parsed_title: Seq<char>,
) -> Seq<char> {
    match subscription_title {
        Some(t) => t,
        None => {
            let folder = match parent_folder {
                Some(f) => f,
                None => "未分类"@,
            };
            if folder != "."@ && folder != "download"@ && folder != "手动下载"@ {
                folder
            } else if parsed_title.len() == 0 {
                "未分类"@
            } else {
                parsed_title
            }
        },
    }
}

pub fn group_title(
    subscription_title: Option<&str>,
    parent_folder: Option<&str>,
    parsed_title: &str,
) -> (r: String)
    ensures
        r@ == spec_group_title(
            match subscription_title {
                Some(t) => Some(t@),
                None => None,
            },
            match parent_folder {
                Some(f) => Some(f@),
                None => None,
            },
            parsed_title@,
        ),
{
    match subscription_title {
        Some(t) => str_copy(t),
        None => {
            let folder = match parent_folder {
                Some(f) => str_copy(f),
                None => str_copy("未分类"),
            };
            let f = folder.as_str();
            if !str_is(f, ".") && !str_is(f, "download") && !str_is(f, "手动下载") {
                folder
            } else if str_is_empty(parsed_title) {
                str_copy("未分类")
            } else {
                str_copy(parsed_title)
            }
        },
    }
}

} // verus!

verus! {

/// A video file as the library lists it.
pub struct EpisodeItem {
    pub file_path: String,
    /// The episode number parsed from the file name, as decimal text.
    pub episode_number: Option<String>,
    pub episode_title: String,
    pub downloaded: bool,
    pub watched: bool,
    pub file_name: String,
}

/// The files shown under one title.
pub struct AnimeGroup {
    pub title: String,
    pub episodes: Vec<EpisodeItem>,
}

/// A scanned file and the title of the group it belongs to.
pub struct LibraryEntry {
    pub group_title: String,
    pub item: EpisodeItem,
}

/// The files, in scan order, that belong to the group titled `t`.
pub open spec fn items_titled(entries: Seq<LibraryEntry>, t: Seq<char>) -> Seq<EpisodeItem>
    decreases entries.len(),
{
    if entries.len() == 0 {
        Seq::empty()
    } else {
        let r = items_titled(entries.drop_last(), t);
        if entries.last().group_title@ == t {
            r.push(entries.last().item)
        } else {
            r
        }
    }
}

/// Groups in strictly increasing title order.
pub open spec fn titles_ascending(gs: Seq<AnimeGroup>) -> bool {
    forall|j: int, k: int|
        0 <= j < k < gs.len() ==> crate::text::lex_lt(
            (#[trigger] gs[j]).title@,
            (#[trigger] gs[k]).title@,
        )
}

/// Some group has the title.
pub open spec fn has_group(gs: Seq<AnimeGroup>, t: Seq<char>) -> bool {
    exists|j: int| 0 <= j < gs.len() && (#[trigger] gs[j]).title@ == t
}

/// `gs` is the library of `entries`: one group per title, in title order,
/// each holding its files in scan order.
pub open spec fn is_library_of(entries: Seq<LibraryEntry>, gs: Seq<AnimeGroup>) -> bool {
    &&& titles_ascending(gs)
    &&& forall|j: int|
        0 <= j < gs.len() ==> (#[trigger] gs[j]).episodes@ == items_titled(entries, gs[j].title@)
            && gs[j].episodes@.len() > 0
    &&& forall|i: int| 0 <= i < entries.len() ==> has_group(gs, (#[trigger] entries[i]).group_title@)
}

proof fn lemma_items_titled_none(entries: Seq<LibraryEntry>, t: Seq<char>)
    requires
        forall|i: int| 0 <= i < entries.len() ==> (#[trigger] entries[i]).group_title@ != t,
    ensures
        items_titled(entries, t) == Seq::<EpisodeItem>::empty(),
    decreases entries.len(),
{
    if entries.len() > 0 {
        assert forall|i: int| 0 <= i < entries.drop_last().len() implies (
        #[trigger] entries.drop_last()[i]).group_title@ != t by {
            assert(entries.drop_last()[i] == entries[i]);
        }
        lemma_items_titled_none(entries.drop_last(), t);
    }
}

/// Groups the scanned files by title, the groups in title order and each
/// group's files in scan order.
pub fn group_library(entries: Vec<LibraryEntry>) -> (r: Vec<AnimeGroup>)
    ensures
        is_library_of(entries@, r@),
{
    let ghost all = entries@;
    let total = entries.len();
    let mut rest = entries;
    let mut groups: Vec<AnimeGroup> = Vec::new();
    let mut i: usize = 0;
    assert(all.skip(0) =~= all);
    while rest.len() > 0
        invariant
            rest@ == all.skip(i as int),
            i + rest@.len() == all.len(),
            all.len() == total,
            is_library_of(all.take(i as int), groups@),
        decreases rest.len(),
    {
        let e = rest.remove(0);
        assert(e == all[i as int]);
        assert(rest@ =~= all.skip(i + 1));
        let ghost prev = all.take(i as int);
        let ghost next = all.take(i + 1);
        assert(next.drop_last() =~= prev);
        assert(next.last() == e);
        let t = chars_of(e.group_title.as_str());
        let mut j: usize = 0;
        let mut found = false;
        while j < groups.len()
            invariant_except_break
                j <= groups.len(),
                !found,
                forall|k: int| 0 <= k < j ==> crate::text::lex_lt(groups@[k].title@, t@),
            ensures
                j <= groups.len(),
                forall|k: int| 0 <= k < j ==> crate::text::lex_lt(groups@[k].title@, t@),
                found ==> j < groups.len() && groups@[j as int].title@ == t@,
                !found ==> j == groups.len() || crate::text::lex_lt(
                    t@,
                    groups@[j as int].title@,
                ),
            decreases groups.len() - j,
        {
            let gt = chars_of(groups[j].title.as_str());
            if chars_eq(&gt, &t) {
                found = true;
                break;
            }
            if crate::text::lex_less(&t, &gt) {
                break;
            }
            proof {
                crate::text::lemma_lex_total(gt@, t@);
            }
            j += 1;
        }
        let ghost old_groups = groups@;
        if found {
            let mut g = groups.remove(j);
            g.episodes.push(e.item);
            groups.insert(j, g);
            assert(groups@ =~= old_groups.update(j as int, groups@[j as int]));
            assert forall|m: int|
                0 <= m < groups@.len() implies (#[trigger] groups@[m]).episodes@ == items_titled(
                next,
                groups@[m].title@,
            ) && groups@[m].episodes@.len() > 0 by {
                if m != j {
                    assert(groups@[m] == old_groups[m]);
                    if m < j {
                        assert(crate::text::lex_lt(old_groups[m].title@, old_groups[j as int].title@));
                    } else {
                        assert(crate::text::lex_lt(old_groups[j as int].title@, old_groups[m].title@));
                    }
                    crate::text::lemma_lex_irreflexive(t@);
                }
            }
            assert forall|k: int| 0 <= k < next.len() implies has_group(
                groups@,
                (#[trigger] next[k]).group_title@,
            ) by {
                if k < i {
                    assert(next[k] == prev[k]);
                    let m = choose|m: int|
                        0 <= m < old_groups.len() && (#[trigger] old_groups[m]).title@
                            == prev[k].group_title@;
                    assert(groups@[m].title@ == old_groups[m].title@);
                } else {
                    assert(groups@[j as int].title@ == t@);
                }
            }
        } else {
            let mut eps: Vec<EpisodeItem> = Vec::new();
            eps.push(e.item);
            let g = AnimeGroup { title: e.group_title, episodes: eps };
            groups.insert(j, g);
            assert(groups@ =~= old_groups.insert(j as int, g));
            assert forall|m: int| 0 <= m < old_groups.len() implies (#[trigger] old_groups[m]).title@
                != t@ by {
                crate::text::lemma_lex_irreflexive(t@);
                if m >= j {
                    if m > j {
                        crate::text::lemma_lex_transitive(
                            t@,
                            old_groups[j as int].title@,
                            old_groups[m].title@,
                        );
                    }
                    crate::text::lemma_lex_asymmetric(t@, old_groups[m].title@);
                }
            }
            assert forall|k: int| 0 <= k < prev.len() implies (#[trigger] prev[k]).group_title@
                != t@ by {
                assert(has_group(old_groups, prev[k].group_title@));
            }
            proof {
                lemma_items_titled_none(prev, t@);
            }
            assert(titles_ascending(groups@)) by {
                assert forall|a: int, b: int| 0 <= a < b < groups@.len() implies crate::text::lex_lt(
                    (#[trigger] groups@[a]).title@,
                    (#[trigger] groups@[b]).title@,
                ) by {
                    if b == j {
                    } else if a == j {
                        assert(groups@[b] == old_groups[b - 1]);
                        if b - 1 > j {
                            crate::text::lemma_lex_transitive(
                                t@,
                                old_groups[j as int].title@,
                                old_groups[b - 1].title@,
                            );
                        }
                    } else if a < j && b < j {
                    } else if a < j && b > j {
                        assert(groups@[b] == old_groups[b - 1]);
                    } else {
                        assert(groups@[a] == old_groups[a - 1]);
                        assert(groups@[b] == old_groups[b - 1]);
                    }
                }
            }
            assert forall|m: int|
                0 <= m < groups@.len() implies (#[trigger] groups@[m]).episodes@ == items_titled(
                next,
                groups@[m].title@,
            ) && groups@[m].episodes@.len() > 0 by {
                if m < j {
                    assert(groups@[m] == old_groups[m]);
                } else if m > j {
                    assert(groups@[m] == old_groups[m - 1]);
                } else {
                    assert(groups@[m].episodes@ =~= Seq::<EpisodeItem>::empty().push(e.item));
                }
            }
            assert forall|k: int| 0 <= k < next.len() implies has_group(
                groups@,
                (#[trigger] next[k]).group_title@,
            ) by {
                if k < i {
                    assert(next[k] == prev[k]);
                    let m = choose|m: int|
                        0 <= m < old_groups.len() && (#[trigger] old_groups[m]).title@
                            == prev[k].group_title@;
                    if m < j {
                        assert(groups@[m] == old_groups[m]);
                    } else {
                        assert(groups@[m + 1] == old_groups[m]);
                    }
                } else {
                    assert(groups@[j as int].title@ == t@);
                }
            }
        }
        i += 1;
    }
    assert(all.take(i as int) =~= all);
    groups
}

} // verus!

verus! {

/// The library shows each title once: no two groups share a title, so every
/// file is listed in exactly one group, the one of its title.
pub proof fn lemma_library_titles_distinct(entries: Seq<LibraryEntry>, gs: Seq<AnimeGroup>)
    requires
        is_library_of(entries, gs),
    ensures
        forall|j: int, k: int|
            0 <= j < gs.len() && 0 <= k < gs.len() && j != k ==> (#[trigger] gs[j]).title@ != (
            #[trigger] gs[k]).title@,
{
    assert forall|j: int, k: int|
        0 <= j < gs.len() && 0 <= k < gs.len() && j != k implies (#[trigger] gs[j]).title@ != (
        #[trigger] gs[k]).title@ by {
        crate::text::lemma_lex_irreflexive(gs[j].title@);
        if j < k {
            assert(crate::text::lex_lt(gs[j].title@, gs[k].title@));
        } else {
            assert(crate::text::lex_lt(gs[k].title@, gs[j].title@));
        }
    }
}

} // verus!
