//! The order of a group's episodes: by episode number, files without a number
//! first, files with equal numbers in scan order.
use vstd::prelude::*;
use crate::library::{
    group_library, has_group, items_titled, titles_ascending, AnimeGroup, EpisodeItem, LibraryEntry,
};
use crate::text::{
    chars_eq, chars_of, lemma_lex_irreflexive, lemma_lex_total, lemma_lex_transitive, lemma_split_nonempty,
    lex_less, lex_lt, slice_range, spec_split, split, views,
};

verus! {

/// A run of digits without its leading zeros.
pub open spec fn strip_leading_zeros(s: Seq<char>) -> Seq<char>
    decreases s.len(),
{
    if s.len() > 0 && s[0] == '0' {
        strip_leading_zeros(s.drop_first())
    } else {
        s
    }
}

/// A run of digits without its trailing zeros.
pub open spec fn strip_trailing_zeros(s: Seq<char>) -> Seq<char>
    decreases s.len(),
{
    if s.len() > 0 && s.last() == '0' {
        strip_trailing_zeros(s.drop_last())
    } else {
        s
    }
}

/// The key a decimal number is ordered by: its integer digits without leading
/// zeros, and its fraction digits (after the `.`) without trailing zeros. Two
/// numbers written `digits` or `digits.digits` have the same key exactly when
/// they have the same value.
pub open spec fn number_key(t: Seq<char>) -> (Seq<char>, Seq<char>) {
    let ps = spec_split(t, seq!['.']);
    (
        strip_leading_zeros(ps[0]),
        strip_trailing_zeros(
            if ps.len() > 1 {
                ps[1]
            } else {
                Seq::empty()
            },
        ),
    )
}

/// Numeric order on keys: fewer integer digits is smaller; with as many, the
/// digits compare in order; with equal integer digits, the fractions compare
/// digit by digit, a fraction that is a prefix of another being smaller.
pub open spec fn number_lt(x: (Seq<char>, Seq<char>), y: (Seq<char>, Seq<char>)) -> bool {
    ||| x.0.len() < y.0.len()
    ||| x.0.len() == y.0.len() && lex_lt(x.0, y.0)
    ||| x.0 == y.0 && lex_lt(x.1, y.1)
}

/// The key of an episode: none when it has no number.
pub open spec fn item_key(e: EpisodeItem) -> Option<(Seq<char>, Seq<char>)> {
    match e.episode_number {
        Some(t) => Some(number_key(t@)),
        None => None,
    }
}

/// Episode order on keys: no number before any number, numbers by value.
pub open spec fn key_lt(a: Option<(Seq<char>, Seq<char>)>, b: Option<(Seq<char>, Seq<char>)>) -> bool {
    match (a, b) {
        (None, Some(_)) => true,
        (Some(x), Some(y)) => number_lt(x, y),
        _ => false,
    }
}

/// Episode `a` comes strictly before episode `b`.
pub open spec fn episode_lt(a: EpisodeItem, b: EpisodeItem) -> bool {
    key_lt(item_key(a), item_key(b))
}

pub proof fn lemma_key_irreflexive(a: Option<(Seq<char>, Seq<char>)>)
    ensures
        !key_lt(a, a),
{
    if let Some(x) = a {
        lemma_lex_irreflexive(x.0);
        lemma_lex_irreflexive(x.1);
    }
}

pub proof fn lemma_key_transitive(
    a: Option<(Seq<char>, Seq<char>)>,
    b: Option<(Seq<char>, Seq<char>)>,
    c: Option<(Seq<char>, Seq<char>)>,
)
    requires
        key_lt(a, b),
        key_lt(b, c),
    ensures
        key_lt(a, c),
{
    if let (Some(x), Some(y), Some(z)) = (a, b, c) {
        if x.0.len() == y.0.len() && y.0.len() == z.0.len() {
            if lex_lt(x.0, y.0) && lex_lt(y.0, z.0) {
                lemma_lex_transitive(x.0, y.0, z.0);
            } else if x.0 == y.0 && y.0 == z.0 {
                lemma_lex_transitive(x.1, y.1, z.1);
            }
        }
    }
}

pub proof fn lemma_key_total(a: Option<(Seq<char>, Seq<char>)>, b: Option<(Seq<char>, Seq<char>)>)
    requires
        a != b,
    ensures
        key_lt(a, b) || key_lt(b, a),
{
    if let (Some(x), Some(y)) = (a, b) {
        if x.0 != y.0 {
            if x.0.len() == y.0.len() {
                lemma_lex_total(x.0, y.0);
            }
        } else {
            assert(x.1 != y.1);
            lemma_lex_total(x.1, y.1);
        }
    }
}

fn strip_leading_zeros_chars(s: &[char]) -> (r: Vec<char>)
    ensures
        r@ == strip_leading_zeros(s@),
{
    let mut i: usize = 0;
    assert(s@.skip(0) =~= s@);
    while i < s.len() && s[i] == '0'
        invariant
            i <= s.len(),
            strip_leading_zeros(s@.skip(i as int)) == strip_leading_zeros(s@),
        decreases s.len() - i,
    {
        assert(s@.skip(i as int).drop_first() =~= s@.skip(i + 1));
        i += 1;
    }
    assert(s@.subrange(i as int, s.len() as int) =~= s@.skip(i as int));
    slice_range(s, i, s.len())
}

fn strip_trailing_zeros_chars(s: &[char]) -> (r: Vec<char>)
    ensures
        r@ == strip_trailing_zeros(s@),
{
    let mut j: usize = s.len();
    assert(s@.take(j as int) =~= s@);
    while j > 0 && s[j - 1] == '0'
        invariant
            j <= s.len(),
            strip_trailing_zeros(s@.take(j as int)) == strip_trailing_zeros(s@),
        decreases j,
    {
        assert(s@.take(j as int).drop_last() =~= s@.take(j - 1));
        j -= 1;
    }
    assert(s@.subrange(0, j as int) =~= s@.take(j as int));
    slice_range(s, 0, j)
}

fn number_key_chars(t: &[char]) -> (r: (Vec<char>, Vec<char>))
    ensures
        (r.0@, r.1@) == number_key(t@),
{
    let dot: Vec<char> = vec!['.'];
    assert(dot@ =~= seq!['.']);
    let ps = split(t, &dot);
    proof {
        lemma_split_nonempty(t@, seq!['.']);
        assert(views(ps@)[0] == ps@[0]@);
    }
    let int_part = strip_leading_zeros_chars(&ps[0]);
    let frac_part = if ps.len() > 1 {
        proof {
            assert(views(ps@)[1] == ps@[1]@);
        }
        strip_trailing_zeros_chars(&ps[1])
    } else {
        let empty: Vec<char> = Vec::new();
        strip_trailing_zeros_chars(&empty)
    };
    (int_part, frac_part)
}

fn episode_key_chars(n: &Option<String>) -> (r: Option<(Vec<char>, Vec<char>)>)
    ensures
        match (r, *n) {
            (Some(k), Some(t)) => (k.0@, k.1@) == number_key(t@),
            (None, None) => true,
            _ => false,
        },
{
    match n {
        Some(t) => Some(number_key_chars(&chars_of(t.as_str()))),
        None => None,
    }
}

/// Whether episode `a` comes strictly before episode `b`.
pub fn episode_before(a: &EpisodeItem, b: &EpisodeItem) -> (r: bool)
    ensures
        r == episode_lt(*a, *b),
{
    let ka = episode_key_chars(&a.episode_number);
    let kb = episode_key_chars(&b.episode_number);
    match (ka, kb) {
        (None, Some(_)) => true,
        (Some(x), Some(y)) => {
            x.0.len() < y.0.len() || (x.0.len() == y.0.len() && lex_less(&x.0, &y.0)) || (chars_eq(
                &x.0,
                &y.0,
            ) && lex_less(&x.1, &y.1))
        },
        _ => false,
    }
}

/// Where an episode goes in a sorted list: after every episode that does not
/// come after it.
pub open spec fn insert_pos(s: Seq<EpisodeItem>, x: EpisodeItem) -> int
    decreases s.len(),
{
    if s.len() == 0 {
        0
    } else if episode_lt(x, s.last()) {
        insert_pos(s.drop_last(), x)
    } else {
        s.len() as int
    }
}

/// The episodes sorted by number, stably: each one, in scan order, is placed
/// after all those before it that do not come after it.
pub open spec fn sort_by_episode(s: Seq<EpisodeItem>) -> Seq<EpisodeItem>
    decreases s.len(),
{
    if s.len() == 0 {
        Seq::empty()
    } else {
        let r = sort_by_episode(s.drop_last());
        r.insert(insert_pos(r, s.last()), s.last())
    }
}

/// No episode comes before an episode listed earlier.
pub open spec fn episodes_sorted(s: Seq<EpisodeItem>) -> bool {
    forall|i: int, j: int| 0 <= i < j < s.len() ==> !episode_lt(#[trigger] s[j], #[trigger] s[i])
}

proof fn lemma_insert_pos(s: Seq<EpisodeItem>, x: EpisodeItem)
    ensures
        0 <= insert_pos(s, x) <= s.len(),
        forall|k: int| insert_pos(s, x) <= k < s.len() ==> episode_lt(x, #[trigger] s[k]),
        insert_pos(s, x) > 0 ==> !episode_lt(x, s[insert_pos(s, x) - 1]),
    decreases s.len(),
{
    if s.len() > 0 && episode_lt(x, s.last()) {
        let t = s.drop_last();
        lemma_insert_pos(t, x);
        assert forall|k: int| insert_pos(s, x) <= k < s.len() implies episode_lt(x, #[trigger] s[k]) by {
            if k < s.len() - 1 {
                assert(t[k] == s[k]);
            }
        }
        if insert_pos(s, x) > 0 {
            assert(t[insert_pos(s, x) - 1] == s[insert_pos(s, x) - 1]);
        }
    }
}

proof fn lemma_insert_keeps_sorted(s: Seq<EpisodeItem>, x: EpisodeItem)
    requires
        episodes_sorted(s),
    ensures
        episodes_sorted(s.insert(insert_pos(s, x), x)),
{
    lemma_insert_pos(s, x);
    let p = insert_pos(s, x);
    let t = s.insert(p, x);
    assert forall|i: int, j: int| 0 <= i < j < t.len() implies !episode_lt(#[trigger] t[j], #[trigger] t[i]) by {
        if j < p {
            assert(t[i] == s[i] && t[j] == s[j]);
        } else if j == p {
            assert(t[j] == x && t[i] == s[i]);
            let ki = item_key(s[i]);
            let kp = item_key(s[p - 1]);
            let kx = item_key(x);
            if episode_lt(x, s[i]) {
                if i < p - 1 {
                    assert(!episode_lt(s[p - 1], s[i]));
                    if ki != kp {
                        lemma_key_total(ki, kp);
                        lemma_key_transitive(kx, ki, kp);
                    }
                }
            }
        } else if i == p {
            assert(t[i] == x && t[j] == s[j - 1]);
            if episode_lt(s[j - 1], x) {
                lemma_key_transitive(item_key(x), item_key(s[j - 1]), item_key(x));
                lemma_key_irreflexive(item_key(x));
            }
        } else if i < p {
            assert(t[i] == s[i] && t[j] == s[j - 1]);
        } else {
            assert(t[i] == s[i - 1] && t[j] == s[j - 1]);
        }
    }
}

/// Sorting episodes orders them by number and keeps every one of them.
pub proof fn lemma_sort_by_episode(s: Seq<EpisodeItem>)
    ensures
        episodes_sorted(sort_by_episode(s)),
        sort_by_episode(s).to_multiset() == s.to_multiset(),
    decreases s.len(),
{
    broadcast use vstd::seq_lib::to_multiset_insert, vstd::seq_lib::to_multiset_build;

    if s.len() == 0 {
        assert(sort_by_episode(s) =~= s);
    } else {
        let r = sort_by_episode(s.drop_last());
        lemma_sort_by_episode(s.drop_last());
        lemma_insert_pos(r, s.last());
        lemma_insert_keeps_sorted(r, s.last());
        assert(s.drop_last().push(s.last()) =~= s);
    }
}

/// The episodes of a group, sorted by number: episodes without a number
/// first, equal numbers in their given order.
pub fn sort_episodes(items: Vec<EpisodeItem>) -> (r: Vec<EpisodeItem>)
    ensures
        r@ == sort_by_episode(items@),
        episodes_sorted(r@),
        r@.to_multiset() == items@.to_multiset(),
{
    let ghost all = items@;
    let mut rest = items;
    let mut r: Vec<EpisodeItem> = Vec::new();
    let mut i: usize = 0;
    assert(all.skip(0) =~= all);
    assert(all.take(0) =~= Seq::<EpisodeItem>::empty());
    assert(all.len() == rest.len());
    while rest.len() > 0
        invariant
            rest@ == all.skip(i as int),
            i + rest@.len() == all.len(),
            all.len() <= usize::MAX,
            r@ == sort_by_episode(all.take(i as int)),
        decreases rest.len(),
    {
        let x = rest.remove(0);
        assert(x == all[i as int]);
        assert(rest@ =~= all.skip(i + 1));
        assert(all.take(i + 1).drop_last() =~= all.take(i as int));
        assert(all.take(i + 1).last() == x);
        let ghost before = r@;
        let mut p: usize = r.len();
        assert(before.take(p as int) =~= before);
        while p > 0 && episode_before(&x, &r[p - 1])
            invariant
                p <= r.len(),
                r@ == before,
                insert_pos(before, x) == insert_pos(before.take(p as int), x),
            decreases p,
        {
            assert(before.take(p as int).drop_last() =~= before.take(p - 1));
            assert(before.take(p as int).last() == before[p - 1]);
            p -= 1;
        }
        proof {
            if p > 0 {
                assert(before.take(p as int).last() == before[p - 1]);
            }
        }
        assert(insert_pos(before.take(p as int), x) == p);
        r.insert(p, x);
        i += 1;
    }
    assert(all.take(i as int) =~= all);
    proof {
        lemma_sort_by_episode(all);
    }
    r
}

/// `gs` is the library of `entries` as it is shown: one group per title, in
/// title order, each holding its files sorted by episode number (files
/// without a number first, equal numbers in scan order).
pub open spec fn is_shown_library_of(entries: Seq<LibraryEntry>, gs: Seq<AnimeGroup>) -> bool {
    &&& titles_ascending(gs)
    &&& forall|j: int|
        0 <= j < gs.len() ==> (#[trigger] gs[j]).episodes@ == sort_by_episode(
            items_titled(entries, gs[j].title@),
        ) && gs[j].episodes@.len() > 0
    &&& forall|i: int| 0 <= i < entries.len() ==> has_group(gs, (#[trigger] entries[i]).group_title@)
}

/// The library of the scanned files: grouped by title, the groups in title
/// order, and each group's files sorted by episode number.
pub fn library_groups(entries: Vec<LibraryEntry>) -> (r: Vec<AnimeGroup>)
    ensures
        is_shown_library_of(entries@, r@),
        forall|j: int| 0 <= j < r@.len() ==> episodes_sorted((#[trigger] r@[j]).episodes@),
{
    let ghost es = entries@;
    let groups = group_library(entries);
    let ghost gs = groups@;
    let mut rest = groups;
    let mut r: Vec<AnimeGroup> = Vec::new();
    let mut i: usize = 0;
    assert(gs.skip(0) =~= gs);
    assert(gs.len() == rest.len());
    while rest.len() > 0
        invariant
            rest@ == gs.skip(i as int),
            i + rest@.len() == gs.len(),
            gs.len() <= usize::MAX,
            crate::library::is_library_of(es, gs),
            r@.len() == i,
            forall|j: int| 0 <= j < i ==> (#[trigger] r@[j]).title@ == gs[j].title@,
            forall|j: int|
                0 <= j < i ==> (#[trigger] r@[j]).episodes@ == sort_by_episode(gs[j].episodes@),
        decreases rest.len(),
    {
        let g = rest.remove(0);
        assert(g == gs[i as int]);
        assert(rest@ =~= gs.skip(i + 1));
        let AnimeGroup { title, episodes } = g;
        let sorted = sort_episodes(episodes);
        r.push(AnimeGroup { title, episodes: sorted });
        i += 1;
    }
    proof {
        assert forall|j: int| 0 <= j < r@.len() implies episodes_sorted((#[trigger] r@[j]).episodes@)
            && r@[j].episodes@.len() > 0 by {
            lemma_sort_by_episode(gs[j].episodes@);
            vstd::seq_lib::to_multiset_len(gs[j].episodes@);
            vstd::seq_lib::to_multiset_len(r@[j].episodes@);
        }
        assert forall|j: int, k: int|
            0 <= j < k < r@.len() implies crate::text::lex_lt(
            (#[trigger] r@[j]).title@,
            (#[trigger] r@[k]).title@,
        ) by {
            assert(crate::text::lex_lt(gs[j].title@, gs[k].title@));
        }
        assert forall|e: int| 0 <= e < es.len() implies has_group(r@, (#[trigger] es[e]).group_title@) by {
            assert(has_group(gs, es[e].group_title@));
            let m = choose|m: int| 0 <= m < gs.len() && (#[trigger] gs[m]).title@ == es[e].group_title@;
            assert(r@[m].title@ == es[e].group_title@);
        }
    }
    r
}

} // verus!
