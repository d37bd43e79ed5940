//! Character-level text operations with their specifications.
use vstd::prelude::*;
use vstd::std_specs::iter::IteratorSpec;

verus! {

/// Appends a character to a `String` (std's `String::push`).
#[verifier::external_body]
pub(crate) fn push_char(s: &mut String, c: char)
    ensures
        final(s)@ == old(s)@.push(c),
{
    s.push(c);
}

/// The characters of a string slice, in order.
pub fn chars_of(s: &str) -> (v: Vec<char>)
    ensures
        v@ == s@,
{
    let mut v: Vec<char> = Vec::new();
    let mut it = s.chars();
    loop
        invariant
            it.obeys_prophetic_iter_laws(),
            it.decrease() is Some,
            v@ + it.remaining() == s@,
        ensures
            v@ == s@,
        decreases it.decrease()->0,
    {
        match it.next() {
            Some(c) => {
                v.push(c);
            },
            None => {
                assert(v@ + it.remaining() =~= v@);
                break;
            },
        }
    }
    v
}

/// Every character is ASCII.
pub open spec fn all_ascii(s: Seq<char>) -> bool {
    forall|i: int| 0 <= i < s.len() ==> (#[trigger] s[i]) as int <= 0x7f
}

/// An ASCII letter in upper case; any other character as it is.
pub open spec fn ascii_upper(c: char) -> char {
    if 'a' <= c && c <= 'z' {
        (c as int - 32) as char
    } else {
        c
    }
}

/// An ASCII letter in lower case; any other character as it is.
pub open spec fn ascii_lower(c: char) -> char {
    if 'A' <= c && c <= 'Z' {
        (c as int + 32) as char
    } else {
        c
    }
}

/// Builds a `String` from a run of characters.
pub fn string_of(v: &[char]) -> (s: String)
    ensures
        s@ == v@,
{
    let mut s = String::new();
    let mut i: usize = 0;
    while i < v.len()
        invariant
            i <= v.len(),
            s@ == v@.take(i as int),
        decreases v.len() - i,
    {
        push_char(&mut s, v[i]);
        assert(v@.take(i as int).push(v@[i as int]) =~= v@.take(i + 1));
        i += 1;
    }
    assert(v@.take(v.len() as int) =~= v@);
    s
}

} // verus!

verus! {

/// `\s` in the project's patterns: ASCII whitespace `[\t\n\v\f\r ]`.
pub open spec fn spec_regex_space(c: char) -> bool {
    c == '\t' || c == '\n' || c == '\x0B' || c == '\x0C' || c == '\r' || c == ' '
}

/// `\d`: an ASCII digit.
pub open spec fn spec_digit(c: char) -> bool {
    '0' <= c && c <= '9'
}

/// `\w`: an ASCII letter, digit or underscore.
pub open spec fn spec_word(c: char) -> bool {
    spec_digit(c) || ('a' <= c && c <= 'z') || ('A' <= c && c <= 'Z') || c == '_'
}

/// Unicode `White_Space`, the set that `char::is_whitespace` and `str::trim` use.
pub open spec fn spec_white_space(c: char) -> bool {
    ||| ('\t' <= c && c <= '\r')
    ||| c == ' '
    ||| c == '\u{85}'
    ||| c == '\u{A0}'
    ||| c == '\u{1680}'
    ||| ('\u{2000}' <= c && c <= '\u{200A}')
    ||| c == '\u{2028}'
    ||| c == '\u{2029}'
    ||| c == '\u{202F}'
    ||| c == '\u{205F}'
    ||| c == '\u{3000}'
}

#[verifier::when_used_as_spec(spec_regex_space)]
pub fn is_regex_space(c: char) -> (b: bool)
    ensures
        b == spec_regex_space(c),
{
    c == '\t' || c == '\n' || c == '\x0B' || c == '\x0C' || c == '\r' || c == ' '
}

#[verifier::when_used_as_spec(spec_digit)]
pub fn is_digit(c: char) -> (b: bool)
    ensures
        b == spec_digit(c),
{
    '0' <= c && c <= '9'
}

#[verifier::when_used_as_spec(spec_word)]
pub fn is_word(c: char) -> (b: bool)
    ensures
        b == spec_word(c),
{
    is_digit(c) || ('a' <= c && c <= 'z') || ('A' <= c && c <= 'Z') || c == '_'
}

#[verifier::when_used_as_spec(spec_white_space)]
pub fn is_white_space(c: char) -> (b: bool)
    ensures
        b == spec_white_space(c),
{
    ('\t' <= c && c <= '\r') || c == ' ' || c == '\u{85}' || c == '\u{A0}' || c == '\u{1680}'
        || ('\u{2000}' <= c && c <= '\u{200A}') || c == '\u{2028}' || c == '\u{2029}'
        || c == '\u{202F}' || c == '\u{205F}' || c == '\u{3000}'
}

/// First index at or after `i` that is not Unicode whitespace.
pub open spec fn white_end(s: Seq<char>, i: int) -> int
    decreases s.len() - i,
{
    if 0 <= i < s.len() && spec_white_space(s[i]) {
        white_end(s, i + 1)
    } else {
        i
    }
}

/// Index just past the last character before `j` that is not Unicode whitespace.
pub open spec fn white_back(s: Seq<char>, j: int) -> int
    decreases j,
{
    if 0 < j <= s.len() && spec_white_space(s[j - 1]) {
        white_back(s, j - 1)
    } else {
        j
    }
}

/// `str::trim`: the string without leading and trailing Unicode whitespace.
pub open spec fn spec_trim(s: Seq<char>) -> Seq<char> {
    let a = white_end(s, 0);
    let b = white_back(s, s.len() as int);
    if a < b {
        s.subrange(a, b)
    } else {
        Seq::empty()
    }
}

pub proof fn lemma_white_end_bounds(s: Seq<char>, i: int)
    requires
        0 <= i <= s.len(),
    ensures
        i <= white_end(s, i) <= s.len(),
        white_end(s, i) < s.len() ==> !spec_white_space(s[white_end(s, i)]),
        forall|k: int| i <= k < white_end(s, i) ==> spec_white_space(#[trigger] s[k]),
    decreases s.len() - i,
{
    if i < s.len() && spec_white_space(s[i]) {
        lemma_white_end_bounds(s, i + 1);
    }
}

pub proof fn lemma_white_back_bounds(s: Seq<char>, j: int)
    requires
        0 <= j <= s.len(),
    ensures
        0 <= white_back(s, j) <= j,
        white_back(s, j) > 0 ==> !spec_white_space(s[white_back(s, j) - 1]),
        forall|k: int| white_back(s, j) <= k < j ==> spec_white_space(#[trigger] s[k]),
    decreases j,
{
    if j > 0 && spec_white_space(s[j - 1]) {
        lemma_white_back_bounds(s, j - 1);
    }
}

/// `str::trim` on a run of characters.
pub fn trim(v: &[char]) -> (r: Vec<char>)
    ensures
        r@ == spec_trim(v@),
{
    let mut a: usize = 0;
    while a < v.len() && is_white_space(v[a])
        invariant
            a <= v.len(),
            white_end(v@, a as int) == white_end(v@, 0),
        decreases v.len() - a,
    {
        a += 1;
    }
    let mut b: usize = v.len();
    while b > 0 && is_white_space(v[b - 1])
        invariant
            b <= v.len(),
            white_back(v@, b as int) == white_back(v@, v@.len() as int),
        decreases b,
    {
        b -= 1;
    }
    if a < b {
        slice_range(v, a, b)
    } else {
        Vec::new()
    }
}

/// A copy of `v[from..to]`.
pub fn slice_range(v: &[char], from: usize, to: usize) -> (r: Vec<char>)
    requires
        from <= to <= v.len(),
    ensures
        r@ == v@.subrange(from as int, to as int),
{
    let mut r: Vec<char> = Vec::new();
    let mut i: usize = from;
    while i < to
        invariant
            from <= i <= to <= v.len(),
            r@ == v@.subrange(from as int, i as int),
        decreases to - i,
    {
        r.push(v[i]);
        assert(v@.subrange(from as int, i as int).push(v@[i as int]) =~= v@.subrange(
            from as int,
            i + 1,
        ));
        i += 1;
    }
    r
}

/// `v` with every leading and trailing occurrence of `c` removed (`str::trim_matches`).
pub open spec fn spec_trim_char(s: Seq<char>, c: char) -> Seq<char> {
    let a = char_run_end(s, 0, c);
    let b = char_run_back(s, s.len() as int, c);
    if a < b {
        s.subrange(a, b)
    } else {
        Seq::empty()
    }
}

pub open spec fn char_run_end(s: Seq<char>, i: int, c: char) -> int
    decreases s.len() - i,
{
    if 0 <= i < s.len() && s[i] == c {
        char_run_end(s, i + 1, c)
    } else {
        i
    }
}

pub open spec fn char_run_back(s: Seq<char>, j: int, c: char) -> int
    decreases j,
{
    if 0 < j <= s.len() && s[j - 1] == c {
        char_run_back(s, j - 1, c)
    } else {
        j
    }
}

pub proof fn lemma_char_run_bounds(s: Seq<char>, c: char)
    ensures
        0 <= char_run_end(s, 0, c) <= s.len(),
        0 <= char_run_back(s, s.len() as int, c) <= s.len(),
        char_run_end(s, 0, c) < s.len() ==> s[char_run_end(s, 0, c)] != c,
        char_run_back(s, s.len() as int, c) > 0 ==> s[char_run_back(s, s.len() as int, c) - 1]
            != c,
        forall|k: int| 0 <= k < char_run_end(s, 0, c) ==> #[trigger] s[k] == c,
        forall|k: int| char_run_back(s, s.len() as int, c) <= k < s.len() ==> #[trigger] s[k] == c,
{
    lemma_char_run_end(s, 0, c);
    lemma_char_run_back(s, s.len() as int, c);
}

proof fn lemma_char_run_end(s: Seq<char>, i: int, c: char)
    requires
        0 <= i <= s.len(),
    ensures
        i <= char_run_end(s, i, c) <= s.len(),
        char_run_end(s, i, c) < s.len() ==> s[char_run_end(s, i, c)] != c,
        forall|k: int| i <= k < char_run_end(s, i, c) ==> #[trigger] s[k] == c,
    decreases s.len() - i,
{
    if i < s.len() && s[i] == c {
        lemma_char_run_end(s, i + 1, c);
    }
}

proof fn lemma_char_run_back(s: Seq<char>, j: int, c: char)
    requires
        0 <= j <= s.len(),
    ensures
        0 <= char_run_back(s, j, c) <= j,
        char_run_back(s, j, c) > 0 ==> s[char_run_back(s, j, c) - 1] != c,
        forall|k: int| char_run_back(s, j, c) <= k < j ==> #[trigger] s[k] == c,
    decreases j,
{
    if j > 0 && s[j - 1] == c {
        lemma_char_run_back(s, j - 1, c);
    }
}

pub fn trim_char(v: &[char], c: char) -> (r: Vec<char>)
    ensures
        r@ == spec_trim_char(v@, c),
{
    let mut a: usize = 0;
    while a < v.len() && v[a] == c
        invariant
            a <= v.len(),
            char_run_end(v@, a as int, c) == char_run_end(v@, 0, c),
        decreases v.len() - a,
    {
        a += 1;
    }
    let mut b: usize = v.len();
    while b > 0 && v[b - 1] == c
        invariant
            b <= v.len(),
            char_run_back(v@, b as int, c) == char_run_back(v@, v@.len() as int, c),
        decreases b,
    {
        b -= 1;
    }
    if a < b {
        slice_range(v, a, b)
    } else {
        Vec::new()
    }
}

/// `s` begins with `p`.
pub open spec fn spec_starts_with(s: Seq<char>, p: Seq<char>) -> bool {
    p.len() <= s.len() && s.subrange(0, p.len() as int) == p
}

/// `s` ends with `p`.
pub open spec fn spec_ends_with(s: Seq<char>, p: Seq<char>) -> bool {
    p.len() <= s.len() && s.subrange(s.len() - p.len(), s.len() as int) == p
}

/// `p` occurs in `s` at index `i`.
pub open spec fn occurs_at(s: Seq<char>, p: Seq<char>, i: int) -> bool {
    0 <= i && i + p.len() <= s.len() && s.subrange(i, i + p.len()) == p
}

/// `p` occurs somewhere in `s` (`str::contains`).
pub open spec fn spec_contains(s: Seq<char>, p: Seq<char>) -> bool {
    exists|i: int| occurs_at(s, p, i)
}

/// `p` occurs in `s` at index `i`, checked character by character.
pub fn matches_at(s: &[char], p: &[char], i: usize) -> (b: bool)
    ensures
        b == occurs_at(s@, p@, i as int),
{
    if i > s.len() || p.len() > s.len() - i {
        return false;
    }
    let mut k: usize = 0;
    while k < p.len()
        invariant
            i + p.len() <= s.len(),
            k <= p.len(),
            forall|m: int| 0 <= m < k ==> s@[i + m] == p@[m],
        decreases p.len() - k,
    {
        if s[i + k] != p[k] {
            assert(s@.subrange(i as int, i + p.len())[k as int] != p@[k as int]);
            return false;
        }
        k += 1;
    }
    assert(s@.subrange(i as int, i + p.len()) =~= p@);
    true
}

pub fn starts_with(s: &[char], p: &[char]) -> (b: bool)
    ensures
        b == spec_starts_with(s@, p@),
{
    matches_at(s, p, 0)
}

pub fn ends_with(s: &[char], p: &[char]) -> (b: bool)
    ensures
        b == spec_ends_with(s@, p@),
{
    if p.len() > s.len() {
        false
    } else {
        matches_at(s, p, s.len() - p.len())
    }
}

/// First index at or after `i` where `p` occurs, if any.
pub open spec fn find_from(s: Seq<char>, p: Seq<char>, i: int) -> Option<int>
    decreases s.len() + 1 - i,
{
    if i < 0 || i > s.len() {
        None
    } else if occurs_at(s, p, i) {
        Some(i)
    } else {
        find_from(s, p, i + 1)
    }
}

pub proof fn lemma_find_from(s: Seq<char>, p: Seq<char>, i: int)
    requires
        0 <= i <= s.len() + 1,
    ensures
        find_from(s, p, i) matches Some(k) ==> i <= k && occurs_at(s, p, k) && forall|m: int|
            i <= m < k ==> !occurs_at(s, p, m),
        find_from(s, p, i) is None ==> forall|m: int| i <= m ==> !occurs_at(s, p, m),
    decreases s.len() + 1 - i,
{
    if i <= s.len() && !occurs_at(s, p, i) {
        lemma_find_from(s, p, i + 1);
    }
}

/// `str::find`: the first index where `p` occurs.
pub fn find(s: &[char], p: &[char]) -> (r: Option<usize>)
    ensures
        r matches Some(k) ==> find_from(s@, p@, 0) == Some(k as int),
        r is None ==> find_from(s@, p@, 0) is None,
{
    let mut i: usize = 0;
    loop
        invariant
            i <= s.len(),
            find_from(s@, p@, i as int) == find_from(s@, p@, 0),
        decreases s.len() - i,
    {
        if matches_at(s, p, i) {
            return Some(i);
        }
        if i == s.len() {
            assert(find_from(s@, p@, i + 1) is None);
            return None;
        }
        i += 1;
    }
}

/// `str::contains` on character runs.
pub fn contains(s: &[char], p: &[char]) -> (b: bool)
    ensures
        b == spec_contains(s@, p@),
{
    proof {
        lemma_find_from(s@, p@, 0);
    }
    match find(s, p) {
        Some(_) => true,
        None => {
            assert forall|i: int| !occurs_at(s@, p@, i) by {
                if i >= 0 {
                }
            }
            false
        },
    }
}

/// Two character runs are equal.
pub fn chars_eq(a: &[char], b: &[char]) -> (r: bool)
    ensures
        r == (a@ == b@),
{
    if a.len() != b.len() {
        return false;
    }
    let ok = matches_at(a, b, 0);
    assert(a@.subrange(0, b@.len() as int) =~= a@);
    ok
}

/// A string equals a run of characters.
pub fn str_is(s: &str, lit: &str) -> (r: bool)
    ensures
        r == (s@ == lit@),
{
    let a = chars_of(s);
    let b = chars_of(lit);
    chars_eq(&a, &b)
}

} // verus!

verus! {

/// The views of a sequence of character vectors.
pub open spec fn views(ps: Seq<Vec<char>>) -> Seq<Seq<char>> {
    ps.map_values(|p: Vec<char>| p@)
}

/// `str::split` with a set of separator characters: the pieces between separators,
/// empty pieces included.
pub open spec fn spec_split(s: Seq<char>, seps: Seq<char>) -> Seq<Seq<char>>
    decreases s.len(),
{
    if s.len() == 0 {
        seq![Seq::<char>::empty()]
    } else {
        let r = spec_split(s.drop_last(), seps);
        if seps.contains(s.last()) {
            r.push(Seq::<char>::empty())
        } else {
            r.update(r.len() - 1, r.last().push(s.last()))
        }
    }
}

pub proof fn lemma_split_nonempty(s: Seq<char>, seps: Seq<char>)
    ensures
        spec_split(s, seps).len() >= 1,
    decreases s.len(),
{
    if s.len() > 0 {
        lemma_split_nonempty(s.drop_last(), seps);
    }
}

/// `str::split` on a set of separator characters.
pub fn split(s: &[char], seps: &[char]) -> (r: Vec<Vec<char>>)
    ensures
        views(r@) == spec_split(s@, seps@),
{
    let mut parts: Vec<Vec<char>> = Vec::new();
    let mut cur: Vec<char> = Vec::new();
    let mut i: usize = 0;
    assert(s@.take(0) =~= Seq::<char>::empty());
    assert(views(parts@).push(cur@) =~= seq![Seq::<char>::empty()]);
    while i < s.len()
        invariant
            i <= s.len(),
            spec_split(s@.take(i as int), seps@) == views(parts@).push(cur@),
        decreases s.len() - i,
    {
        let c = s[i];
        assert(s@.take(i + 1).drop_last() =~= s@.take(i as int));
        assert(s@.take(i + 1).last() == c);
        proof {
            lemma_split_nonempty(s@.take(i as int), seps@);
        }
        let mut is_sep = false;
        let mut k: usize = 0;
        while k < seps.len()
            invariant
                k <= seps.len(),
                is_sep == exists|m: int| 0 <= m < k && seps@[m] == c,
            decreases seps.len() - k,
        {
            if seps[k] == c {
                is_sep = true;
            }
            k += 1;
        }
        assert(is_sep == seps@.contains(c));
        if is_sep {
            let ghost old_parts = parts@;
            let ghost old_cur = cur@;
            parts.push(cur);
            cur = Vec::new();
            assert(views(parts@) =~= views(old_parts).push(old_cur));
            assert(views(parts@).push(cur@) =~= views(old_parts).push(old_cur).push(
                Seq::<char>::empty(),
            ));
        } else {
            let ghost old_cur = cur@;
            cur.push(c);
            assert(views(parts@).push(cur@) =~= (views(parts@).push(old_cur)).update(
                parts@.len() as int,
                old_cur.push(c),
            ));
        }
        i += 1;
    }
    assert(s@.take(s.len() as int) =~= s@);
    let ghost before = parts@;
    parts.push(cur);
    assert(views(parts@) =~= views(before).push(cur@));
    parts
}

} // verus!

verus! {

/// `[T]::join` on strings: the pieces with `sep` between neighbours.
pub open spec fn spec_join(ps: Seq<Seq<char>>, sep: Seq<char>) -> Seq<char>
    decreases ps.len(),
{
    if ps.len() == 0 {
        Seq::empty()
    } else if ps.len() == 1 {
        ps[0]
    } else {
        spec_join(ps.drop_last(), sep) + sep + ps.last()
    }
}

pub fn join(ps: &Vec<Vec<char>>, sep: &[char]) -> (r: Vec<char>)
    ensures
        r@ == spec_join(views(ps@), sep@),
{
    let mut r: Vec<char> = Vec::new();
    let mut i: usize = 0;
    while i < ps.len()
        invariant
            i <= ps.len(),
            r@ == spec_join(views(ps@).take(i as int), sep@),
        decreases ps.len() - i,
    {
        if i > 0 {
            append(&mut r, sep);
        }
        append(&mut r, &ps[i]);
        assert(views(ps@).take(i + 1).drop_last() =~= views(ps@).take(i as int));
        i += 1;
    }
    assert(views(ps@).take(ps.len() as int) =~= views(ps@));
    r
}

/// Appends a run of characters.
pub fn append(r: &mut Vec<char>, w: &[char])
    ensures
        final(r)@ == old(r)@ + w@,
{
    let mut k: usize = 0;
    while k < w.len()
        invariant
            k <= w.len(),
            r@ == old(r)@ + w@.take(k as int),
        decreases w.len() - k,
    {
        r.push(w[k]);
        assert(old(r)@ + w@.take(k + 1) =~= (old(r)@ + w@.take(k as int)).push(w@[k as int]));
        k += 1;
    }
    assert(w@.take(w.len() as int) =~= w@);
}

/// `str::replace`: every non-overlapping occurrence of `pat`, from the left,
/// replaced by `rep`.
pub open spec fn spec_replace(s: Seq<char>, pat: Seq<char>, rep: Seq<char>) -> Seq<char>
    recommends
        pat.len() > 0,
    decreases s.len(),
{
    if s.len() == 0 || pat.len() == 0 {
        s
    } else if spec_starts_with(s, pat) {
        rep + spec_replace(s.subrange(pat.len() as int, s.len() as int), pat, rep)
    } else {
        seq![s[0]] + spec_replace(s.drop_first(), pat, rep)
    }
}

pub fn replace(s: &[char], pat: &[char], rep: &[char]) -> (r: Vec<char>)
    requires
        pat.len() > 0,
    ensures
        r@ == spec_replace(s@, pat@, rep@),
{
    let mut r: Vec<char> = Vec::new();
    let mut i: usize = 0;
    assert(s@.subrange(0, s.len() as int) =~= s@);
    assert(r@ + spec_replace(s@, pat@, rep@) =~= spec_replace(s@, pat@, rep@));
    while i < s.len()
        invariant
            pat.len() > 0,
            i <= s.len(),
            r@ + spec_replace(s@.subrange(i as int, s.len() as int), pat@, rep@) == spec_replace(
                s@,
                pat@,
                rep@,
            ),
        decreases s.len() - i,
    {
        let ghost t = s@.subrange(i as int, s.len() as int);
        if matches_at(s, pat, i) {
            assert(t.subrange(0, pat@.len() as int) =~= s@.subrange(i as int, i + pat@.len()));
            assert(t.subrange(pat@.len() as int, t.len() as int) =~= s@.subrange(
                i + pat@.len(),
                s.len() as int,
            ));
            let ghost old_r = r@;
            let ghost rest = spec_replace(s@.subrange(i + pat@.len(), s.len() as int), pat@, rep@);
            assert(spec_replace(t, pat@, rep@) == rep@ + rest);
            append(&mut r, rep);
            assert(r@ + rest =~= old_r + (rep@ + rest));
            i += pat.len();
        } else {
            proof {
                if spec_starts_with(t, pat@) {
                    assert(t.subrange(0, pat@.len() as int) =~= s@.subrange(
                        i as int,
                        i + pat@.len(),
                    ));
                }
            }
            assert(t.drop_first() =~= s@.subrange(i + 1, s.len() as int));
            let ghost old_r = r@;
            let ghost rest = spec_replace(s@.subrange(i + 1, s.len() as int), pat@, rep@);
            assert(spec_replace(t, pat@, rep@) == seq![t[0]] + rest);
            r.push(s[i]);
            assert(r@ + rest =~= old_r + (seq![t[0]] + rest));
            i += 1;
        }
    }
    assert(s@.subrange(s.len() as int, s.len() as int) =~= Seq::<char>::empty());
    assert(r@ + Seq::<char>::empty() =~= r@);
    r
}

} // verus!

verus! {

/// A copy of a string.
pub fn str_copy(s: &str) -> (r: String)
    ensures
        r@ == s@,
{
    string_of(&chars_of(s))
}

/// Two strings, one after the other.
pub fn str_concat(a: &str, b: &str) -> (r: String)
    ensures
        r@ == a@ + b@,
{
    let mut v = chars_of(a);
    let w = chars_of(b);
    append(&mut v, &w);
    string_of(&v)
}

/// A string begins with a prefix.
pub fn str_starts_with(s: &str, p: &str) -> (b: bool)
    ensures
        b == spec_starts_with(s@, p@),
{
    starts_with(&chars_of(s), &chars_of(p))
}

/// A string ends with a suffix.
pub fn str_ends_with(s: &str, p: &str) -> (b: bool)
    ensures
        b == spec_ends_with(s@, p@),
{
    ends_with(&chars_of(s), &chars_of(p))
}

/// A string contains a piece.
pub fn str_contains(s: &str, p: &str) -> (b: bool)
    ensures
        b == spec_contains(s@, p@),
{
    contains(&chars_of(s), &chars_of(p))
}

/// A string is empty.
pub fn str_is_empty(s: &str) -> (b: bool)
    ensures
        b == (s@.len() == 0),
{
    s.is_empty()
}

} // verus!

verus! {

/// Lexicographic order of character sequences, the order in which `String`'s
/// `Ord` sorts (UTF-8 preserves the order of code points).
pub open spec fn lex_lt(a: Seq<char>, b: Seq<char>) -> bool
    decreases a.len(),
{
    if a.len() == 0 {
        b.len() > 0
    } else if b.len() == 0 {
        false
    } else if a[0] != b[0] {
        a[0] < b[0]
    } else {
        lex_lt(a.drop_first(), b.drop_first())
    }
}

pub proof fn lemma_lex_irreflexive(a: Seq<char>)
    ensures
        !lex_lt(a, a),
    decreases a.len(),
{
    if a.len() > 0 {
        lemma_lex_irreflexive(a.drop_first());
    }
}

pub proof fn lemma_lex_transitive(a: Seq<char>, b: Seq<char>, c: Seq<char>)
    requires
        lex_lt(a, b),
        lex_lt(b, c),
    ensures
        lex_lt(a, c),
    decreases a.len(),
{
    if a.len() > 0 && b.len() > 0 && c.len() > 0 && a[0] == b[0] && b[0] == c[0] {
        lemma_lex_transitive(a.drop_first(), b.drop_first(), c.drop_first());
    }
}

pub proof fn lemma_lex_total(a: Seq<char>, b: Seq<char>)
    requires
        a != b,
    ensures
        lex_lt(a, b) || lex_lt(b, a),
    decreases a.len(),
{
    if a.len() > 0 && b.len() > 0 && a[0] == b[0] {
        if a.drop_first() == b.drop_first() {
            assert(a =~= seq![a[0]] + a.drop_first());
            assert(b =~= seq![b[0]] + b.drop_first());
        }
        lemma_lex_total(a.drop_first(), b.drop_first());
    } else if a.len() == 0 && b.len() == 0 {
        assert(a =~= b);
    }
}

pub proof fn lemma_lex_asymmetric(a: Seq<char>, b: Seq<char>)
    requires
        lex_lt(a, b),
    ensures
        !lex_lt(b, a),
    decreases a.len(),
{
    if a.len() > 0 && b.len() > 0 && a[0] == b[0] {
        lemma_lex_asymmetric(a.drop_first(), b.drop_first());
    }
}

/// `a < b` for strings.
pub fn lex_less(a: &[char], b: &[char]) -> (r: bool)
    ensures
        r == lex_lt(a@, b@),
{
    let mut i: usize = 0;
    assert(a@.skip(0) =~= a@);
    assert(b@.skip(0) =~= b@);
    while i < a.len() && i < b.len() && a[i] == b[i]
        invariant
            i <= a.len(),
            i <= b.len(),
            lex_lt(a@.skip(i as int), b@.skip(i as int)) == lex_lt(a@, b@),
        decreases a.len() - i,
    {
        assert(a@.skip(i as int).drop_first() =~= a@.skip(i + 1));
        assert(b@.skip(i as int).drop_first() =~= b@.skip(i + 1));
        i += 1;
    }
    if i == a.len() {
        i < b.len()
    } else if i == b.len() {
        false
    } else {
        a[i] < b[i]
    }
}

} // verus!
