//! The episode-number patterns that titles and file names are searched with.
//! Each pattern is searched leftmost-first, as a regular-expression engine does:
//! the match that starts earliest wins, and quantifiers are greedy. In these
//! patterns a digit run is always followed by something that is not a digit, so
//! the greedy choice is the only one that can succeed at a given start.
use vstd::prelude::*;
use crate::text::{is_digit, is_regex_space, is_word, spec_digit, spec_regex_space, spec_word};

verus! {

/// First index at or after `i` that is not `\s`.
pub open spec fn space_end(s: Seq<char>, i: int) -> int
    decreases s.len() - i,
{
    if 0 <= i < s.len() && spec_regex_space(s[i]) {
        space_end(s, i + 1)
    } else {
        i
    }
}

/// First index at or after `i` that is not `\d`.
pub open spec fn digit_end(s: Seq<char>, i: int) -> int
    decreases s.len() - i,
{
    if 0 <= i < s.len() && spec_digit(s[i]) {
        digit_end(s, i + 1)
    } else {
        i
    }
}

/// First index at or after `i` that is neither a digit nor `.` (`[\d.]*`).
pub open spec fn digit_dot_end(s: Seq<char>, i: int) -> int
    decreases s.len() - i,
{
    if 0 <= i < s.len() && (spec_digit(s[i]) || s[i] == '.') {
        digit_dot_end(s, i + 1)
    } else {
        i
    }
}

/// Every character from `i` to the end is `\w`.
pub open spec fn word_to_end(s: Seq<char>, i: int) -> bool {
    forall|k: int| i <= k < s.len() ==> spec_word(#[trigger] s[k])
}

/// `-` or the en dash `–`.
pub open spec fn is_dash(c: char) -> bool {
    c == '-' || c == '–'
}

pub open spec fn is_hua(c: char) -> bool {
    c == '话' || c == '話'
}

pub open spec fn is_e(c: char) -> bool {
    c == 'E' || c == 'e'
}

pub open spec fn is_p(c: char) -> bool {
    c == 'P' || c == 'p'
}

/// The character at `i` exists and satisfies `f`.
pub open spec fn char_is(s: Seq<char>, i: int, f: spec_fn(char) -> bool) -> bool {
    0 <= i < s.len() && f(s[i])
}

/// End of `\d+(?:\.\d+)?` that starts at `m` (a digit): the digit run, and a
/// fraction when a `.` and at least one digit follow it.
pub open spec fn number_end(s: Seq<char>, m: int) -> int {
    let d = digit_end(s, m);
    if d + 1 < s.len() && s[d] == '.' && spec_digit(s[d + 1]) {
        digit_end(s, d + 1)
    } else {
        d
    }
}

/// The capture `(\d+(?:\.\d+)?)` that starts at `m`, if a digit is there.
pub open spec fn number_at(s: Seq<char>, m: int) -> Option<(int, int)> {
    if char_is(s, m, |c: char| spec_digit(c)) {
        Some((m, number_end(s, m)))
    } else {
        None
    }
}

/// The patterns that capture an episode number.
#[derive(Clone, Copy, PartialEq, Eq, Structural)]
pub enum NumberPattern {
    /// `(?:^|\s)[-–]\s*(\d+(?:\.\d+)?)\s*(?:\s|\[|$)`: ` - 01 [`
    DashSpaced,
    /// `第\s*(\d+(?:\.\d+)?)\s*[话話]`: `第01话`
    Dai,
    /// `[Ee][Pp]\s*(\d+(?:\.\d+)?)`: `EP01`
    Ep,
    /// `[Ee][Pp]?\s*(\d+(?:\.\d+)?)`: `EP01`, `E01`
    EOrEp,
    /// `#\s*(\d+(?:\.\d+)?)`: `#01`
    Hash,
    /// `\s(\d{2,3})\s`: a standalone ` 01 `
    Spaced,
    /// `-\s*(\d+(?:\.\d+)?)\s*(?:\[|$)`: `- 01 [` or a trailing `- 01`
    DashBracketOrEnd,
    /// `[-–\s](\d{2,3})(?:\s|\[|\.\w+$)`: ` 01 `, `-01[`, ` 01.mkv`
    LooseTwoOrThree,
}

/// The span of a run of two or three digits that starts at `m` and is not longer.
pub open spec fn two_or_three_at(s: Seq<char>, m: int) -> Option<(int, int)> {
    let d = digit_end(s, m);
    if 0 <= m && (d - m == 2 || d - m == 3) {
        Some((m, d))
    } else {
        None
    }
}

/// The capture of `pat` in a match whose first character (after an optional
/// `^`/`\s` for `DashSpaced`) is at `k`.
pub open spec fn capture_at(pat: NumberPattern, s: Seq<char>, k: int) -> Option<(int, int)> {
    match pat {
        NumberPattern::DashSpaced => {
            if char_is(s, k, |c: char| is_dash(c)) && (k == 0 || char_is(
                s,
                k - 1,
                |c: char| spec_regex_space(c),
            )) {
                match number_at(s, space_end(s, k + 1)) {
                    Some((m, e)) => if e == s.len() || s[e] == '[' || spec_regex_space(s[e]) {
                        Some((m, e))
                    } else {
                        None
                    },
                    None => None,
                }
            } else {
                None
            }
        },
        NumberPattern::Dai => {
            if char_is(s, k, |c: char| c == '第') {
                match number_at(s, space_end(s, k + 1)) {
                    Some((m, e)) => if char_is(s, space_end(s, e), |c: char| is_hua(c)) {
                        Some((m, e))
                    } else {
                        None
                    },
                    None => None,
                }
            } else {
                None
            }
        },
        NumberPattern::Ep => {
            if char_is(s, k, |c: char| is_e(c)) && char_is(s, k + 1, |c: char| is_p(c)) {
                number_at(s, space_end(s, k + 2))
            } else {
                None
            }
        },
        NumberPattern::EOrEp => {
            if char_is(s, k, |c: char| is_e(c)) {
                if char_is(s, k + 1, |c: char| is_p(c)) {
                    number_at(s, space_end(s, k + 2))
                } else {
                    number_at(s, space_end(s, k + 1))
                }
            } else {
                None
            }
        },
        NumberPattern::Hash => {
            if char_is(s, k, |c: char| c == '#') {
                number_at(s, space_end(s, k + 1))
            } else {
                None
            }
        },
        NumberPattern::Spaced => {
            if char_is(s, k, |c: char| spec_regex_space(c)) {
                match two_or_three_at(s, k + 1) {
                    Some((m, e)) => if char_is(s, e, |c: char| spec_regex_space(c)) {
                        Some((m, e))
                    } else {
                        None
                    },
                    None => None,
                }
            } else {
                None
            }
        },
        NumberPattern::DashBracketOrEnd => {
            if char_is(s, k, |c: char| c == '-') {
                match number_at(s, space_end(s, k + 1)) {
                    Some((m, e)) => {
                        let f = space_end(s, e);
                        if f == s.len() || s[f] == '[' {
                            Some((m, e))
                        } else {
                            None
                        }
                    },
                    None => None,
                }
            } else {
                None
            }
        },
        NumberPattern::LooseTwoOrThree => {
            if char_is(s, k, |c: char| is_dash(c) || spec_regex_space(c)) {
                match two_or_three_at(s, k + 1) {
                    Some((m, e)) => if char_is(s, e, |c: char| spec_regex_space(c) || c == '[') || (
                    char_is(s, e, |c: char| c == '.') && e + 1 < s.len() && word_to_end(s, e + 1)) {
                        Some((m, e))
                    } else {
                        None
                    },
                    None => None,
                }
            } else {
                None
            }
        },
    }
}

/// The capture of the leftmost match of `pat` that starts at or after `k`.
pub open spec fn first_capture_from(pat: NumberPattern, s: Seq<char>, k: int) -> Option<
    (int, int),
>
    decreases s.len() + 1 - k,
{
    if k < 0 || k > s.len() {
        None
    } else if capture_at(pat, s, k) is Some {
        capture_at(pat, s, k)
    } else {
        first_capture_from(pat, s, k + 1)
    }
}

/// The capture of the leftmost match of `pat` in `s`.
pub open spec fn first_capture(pat: NumberPattern, s: Seq<char>) -> Option<(int, int)> {
    first_capture_from(pat, s, 0)
}

pub proof fn lemma_space_end(s: Seq<char>, i: int)
    requires
        0 <= i <= s.len(),
    ensures
        i <= space_end(s, i) <= s.len(),
        space_end(s, i) < s.len() ==> !spec_regex_space(s[space_end(s, i)]),
    decreases s.len() - i,
{
    if i < s.len() && spec_regex_space(s[i]) {
        lemma_space_end(s, i + 1);
    }
}

pub proof fn lemma_digit_end(s: Seq<char>, i: int)
    requires
        0 <= i <= s.len(),
    ensures
        i <= digit_end(s, i) <= s.len(),
        digit_end(s, i) < s.len() ==> !spec_digit(s[digit_end(s, i)]),
        forall|k: int| i <= k < digit_end(s, i) ==> spec_digit(#[trigger] s[k]),
    decreases s.len() - i,
{
    if i < s.len() && spec_digit(s[i]) {
        lemma_digit_end(s, i + 1);
    }
}

pub proof fn lemma_digit_dot_end(s: Seq<char>, i: int)
    requires
        0 <= i <= s.len(),
    ensures
        i <= digit_dot_end(s, i) <= s.len(),
    decreases s.len() - i,
{
    if i < s.len() && (spec_digit(s[i]) || s[i] == '.') {
        lemma_digit_dot_end(s, i + 1);
    }
}

pub proof fn lemma_number_at(s: Seq<char>, m: int)
    requires
        0 <= m <= s.len(),
    ensures
        number_at(s, m) matches Some((a, e)) ==> a == m && m < e <= s.len(),
{
    lemma_digit_end(s, m);
    let d = digit_end(s, m);
    if d + 1 < s.len() && s[d] == '.' && spec_digit(s[d + 1]) {
        lemma_digit_end(s, d + 1);
    }
}

pub fn space_end_exec(s: &[char], i: usize) -> (r: usize)
    requires
        i <= s.len(),
    ensures
        r == space_end(s@, i as int),
{
    let mut j = i;
    while j < s.len() && is_regex_space(s[j])
        invariant
            i <= j <= s.len(),
            space_end(s@, j as int) == space_end(s@, i as int),
        decreases s.len() - j,
    {
        j += 1;
    }
    j
}

pub fn digit_end_exec(s: &[char], i: usize) -> (r: usize)
    requires
        i <= s.len(),
    ensures
        r == digit_end(s@, i as int),
{
    let mut j = i;
    while j < s.len() && is_digit(s[j])
        invariant
            i <= j <= s.len(),
            digit_end(s@, j as int) == digit_end(s@, i as int),
        decreases s.len() - j,
    {
        j += 1;
    }
    j
}

pub fn digit_dot_end_exec(s: &[char], i: usize) -> (r: usize)
    requires
        i <= s.len(),
    ensures
        r == digit_dot_end(s@, i as int),
{
    let mut j = i;
    while j < s.len() && (is_digit(s[j]) || s[j] == '.')
        invariant
            i <= j <= s.len(),
            digit_dot_end(s@, j as int) == digit_dot_end(s@, i as int),
        decreases s.len() - j,
    {
        j += 1;
    }
    j
}

fn word_to_end_exec(s: &[char], i: usize) -> (b: bool)
    requires
        i <= s.len(),
    ensures
        b == word_to_end(s@, i as int),
{
    let mut j = i;
    while j < s.len()
        invariant
            i <= j <= s.len(),
            forall|k: int| i <= k < j ==> spec_word(#[trigger] s@[k]),
        decreases s.len() - j,
    {
        if !is_word(s[j]) {
            return false;
        }
        j += 1;
    }
    true
}

pub fn number_at_exec(s: &[char], m: usize) -> (r: Option<(usize, usize)>)
    requires
        m <= s.len(),
    ensures
        r matches Some((a, e)) ==> number_at(s@, m as int) == Some((a as int, e as int)),
        r is None ==> number_at(s@, m as int) is None,
{
    if m < s.len() && is_digit(s[m]) {
        proof {
            lemma_digit_end(s@, m as int);
        }
        let d = digit_end_exec(s, m);
        if d < s.len() && d + 1 < s.len() && s[d] == '.' && is_digit(s[d + 1]) {
            let e = digit_end_exec(s, d + 1);
            Some((m, e))
        } else {
            Some((m, d))
        }
    } else {
        None
    }
}

fn two_or_three_at_exec(s: &[char], m: usize) -> (r: Option<(usize, usize)>)
    requires
        m <= s.len(),
    ensures
        r matches Some((a, e)) ==> two_or_three_at(s@, m as int) == Some((a as int, e as int)),
        r is None ==> two_or_three_at(s@, m as int) is None,
{
    proof {
        lemma_digit_end(s@, m as int);
    }
    let d = digit_end_exec(s, m);
    if d - m == 2 || d - m == 3 {
        Some((m, d))
    } else {
        None
    }
}

/// The capture of `pat` at `k`; see `capture_at`.
pub fn capture_at_exec(pat: NumberPattern, s: &[char], k: usize) -> (r: Option<(usize, usize)>)
    requires
        k <= s.len(),
    ensures
        r matches Some((a, e)) ==> capture_at(pat, s@, k as int) == Some((a as int, e as int)),
        r is None ==> capture_at(pat, s@, k as int) is None,
{
    let n = s.len();
    if k >= n {
        return None;
    }
    let c = s[k];
    match pat {
        NumberPattern::DashSpaced => {
            if (c == '-' || c == '–') && (k == 0 || is_regex_space(s[k - 1])) {
                let m = space_end_exec(s, k + 1);
                proof {
                    lemma_space_end(s@, k + 1);
                    lemma_number_at(s@, m as int);
                }
                match number_at_exec(s, m) {
                    Some((m, e)) => if e == n || s[e] == '[' || is_regex_space(s[e]) {
                        Some((m, e))
                    } else {
                        None
                    },
                    None => None,
                }
            } else {
                None
            }
        },
        NumberPattern::Dai => {
            if c == '第' {
                let m = space_end_exec(s, k + 1);
                proof {
                    lemma_space_end(s@, k + 1);
                    lemma_number_at(s@, m as int);
                }
                match number_at_exec(s, m) {
                    Some((m, e)) => {
                        let f = space_end_exec(s, e);
                        if f < n && (s[f] == '话' || s[f] == '話') {
                            Some((m, e))
                        } else {
                            None
                        }
                    },
                    None => None,
                }
            } else {
                None
            }
        },
        NumberPattern::Ep => {
            if (c == 'E' || c == 'e') && k + 1 < n && (s[k + 1] == 'P' || s[k + 1] == 'p') {
                let m = space_end_exec(s, k + 2);
                proof {
                    lemma_space_end(s@, k + 2);
                }
                number_at_exec(s, m)
            } else {
                None
            }
        },
        NumberPattern::EOrEp => {
            if c == 'E' || c == 'e' {
                if k + 1 < n && (s[k + 1] == 'P' || s[k + 1] == 'p') {
                    let m = space_end_exec(s, k + 2);
                    proof {
                        lemma_space_end(s@, k + 2);
                    }
                    number_at_exec(s, m)
                } else {
                    let m = space_end_exec(s, k + 1);
                    proof {
                        lemma_space_end(s@, k + 1);
                    }
                    number_at_exec(s, m)
                }
            } else {
                None
            }
        },
        NumberPattern::Hash => {
            if c == '#' {
                let m = space_end_exec(s, k + 1);
                proof {
                    lemma_space_end(s@, k + 1);
                }
                number_at_exec(s, m)
            } else {
                None
            }
        },
        NumberPattern::Spaced => {
            if is_regex_space(c) {
                proof {
                    lemma_digit_end(s@, k + 1);
                }
                match two_or_three_at_exec(s, k + 1) {
                    Some((m, e)) => if e < n && is_regex_space(s[e]) {
                        Some((m, e))
                    } else {
                        None
                    },
                    None => None,
                }
            } else {
                None
            }
        },
        NumberPattern::DashBracketOrEnd => {
            if c == '-' {
                let m = space_end_exec(s, k + 1);
                proof {
                    lemma_space_end(s@, k + 1);
                    lemma_number_at(s@, m as int);
                }
                match number_at_exec(s, m) {
                    Some((m, e)) => {
                        proof {
                            lemma_space_end(s@, e as int);
                        }
                        let f = space_end_exec(s, e);
                        if f == n || s[f] == '[' {
                            Some((m, e))
                        } else {
                            None
                        }
                    },
                    None => None,
                }
            } else {
                None
            }
        },
        NumberPattern::LooseTwoOrThree => {
            if c == '-' || c == '–' || is_regex_space(c) {
                proof {
                    lemma_digit_end(s@, k + 1);
                }
                match two_or_three_at_exec(s, k + 1) {
                    Some((m, e)) => {
                        if e < n && (is_regex_space(s[e]) || s[e] == '[') {
                            Some((m, e))
                        } else if e < n && s[e] == '.' && e + 1 < n && word_to_end_exec(s, e + 1) {
                            Some((m, e))
                        } else {
                            None
                        }
                    },
                    None => None,
                }
            } else {
                None
            }
        },
    }
}

/// The capture of the leftmost match of `pat` in `s`.
pub fn first_capture_exec(pat: NumberPattern, s: &[char]) -> (r: Option<(usize, usize)>)
    ensures
        r matches Some((a, e)) ==> first_capture(pat, s@) == Some((a as int, e as int)),
        r is None ==> first_capture(pat, s@) is None,
{
    let mut k: usize = 0;
    loop
        invariant
            k <= s.len(),
            first_capture_from(pat, s@, k as int) == first_capture(pat, s@),
        decreases s.len() - k,
    {
        match capture_at_exec(pat, s, k) {
            Some(r) => {
                return Some(r);
            },
            None => {},
        }
        if k == s.len() {
            assert(first_capture_from(pat, s@, k + 1) is None);
            return None;
        }
        k += 1;
    }
}


/// The patterns that remove an episode-number suffix from a title, each ending
/// in `\s*$`.
#[derive(Clone, Copy, PartialEq, Eq, Structural)]
pub enum SuffixPattern {
    /// `\s*[-–]\s*\d+(?:\.\d+)?\s*$`
    DashNumber,
    /// `\s*[第#][\d.]+[话話]\s*$`
    DaiOrHash,
    /// `\s*[Ee][Pp]?\s*\d+(?:\.\d+)?\s*$`
    EpNumber,
}

/// The part of `pat` after its leading `\s*` matches from `k` to the end of `s`.
pub open spec fn suffix_core_at(pat: SuffixPattern, s: Seq<char>, k: int) -> bool {
    match pat {
        SuffixPattern::DashNumber => {
            &&& char_is(s, k, |c: char| is_dash(c))
            &&& number_at(s, space_end(s, k + 1)) matches Some((m, e))
            &&& space_end(s, e) == s.len()
        },
        SuffixPattern::DaiOrHash => {
            let r = digit_dot_end(s, k + 1);
            &&& char_is(s, k, |c: char| c == '第' || c == '#')
            &&& r > k + 1
            &&& char_is(s, r, |c: char| is_hua(c))
            &&& space_end(s, r + 1) == s.len()
        },
        SuffixPattern::EpNumber => {
            let p = if char_is(s, k + 1, |c: char| is_p(c)) {
                k + 2
            } else {
                k + 1
            };
            &&& char_is(s, k, |c: char| is_e(c))
            &&& number_at(s, space_end(s, p)) matches Some((m, e))
            &&& space_end(s, e) == s.len()
        },
    }
}

/// The start of the leftmost match of `pat` at or after `i`.
pub open spec fn suffix_match_from(pat: SuffixPattern, s: Seq<char>, i: int) -> Option<int>
    decreases s.len() + 1 - i,
{
    if i < 0 || i > s.len() {
        None
    } else if suffix_core_at(pat, s, space_end(s, i)) {
        Some(i)
    } else {
        suffix_match_from(pat, s, i + 1)
    }
}

/// `Regex::replace(s, "")` for `pat`: `s` up to where the leftmost match starts.
pub open spec fn spec_strip_suffix(pat: SuffixPattern, s: Seq<char>) -> Seq<char> {
    match suffix_match_from(pat, s, 0) {
        Some(i) => s.take(i),
        None => s,
    }
}

fn suffix_core_at_exec(pat: SuffixPattern, s: &[char], k: usize) -> (b: bool)
    requires
        k <= s.len(),
    ensures
        b == suffix_core_at(pat, s@, k as int),
{
    let n = s.len();
    if k >= n {
        return false;
    }
    let c = s[k];
    match pat {
        SuffixPattern::DashNumber => {
            if c == '-' || c == '–' {
                proof {
                    lemma_space_end(s@, k + 1);
                }
                let m = space_end_exec(s, k + 1);
                proof {
                    lemma_number_at(s@, m as int);
                }
                match number_at_exec(s, m) {
                    Some((_, e)) => space_end_exec(s, e) == n,
                    None => false,
                }
            } else {
                false
            }
        },
        SuffixPattern::DaiOrHash => {
            proof {
                lemma_digit_dot_end(s@, k + 1);
            }
            let r = digit_dot_end_exec(s, k + 1);
            if (c == '第' || c == '#') && r > k + 1 && r < n && (s[r] == '话' || s[r] == '話') {
                space_end_exec(s, r + 1) == n
            } else {
                false
            }
        },
        SuffixPattern::EpNumber => {
            if c == 'E' || c == 'e' {
                let p = if k + 1 < n && (s[k + 1] == 'P' || s[k + 1] == 'p') {
                    k + 2
                } else {
                    k + 1
                };
                proof {
                    lemma_space_end(s@, p as int);
                }
                let m = space_end_exec(s, p);
                proof {
                    lemma_number_at(s@, m as int);
                }
                match number_at_exec(s, m) {
                    Some((_, e)) => space_end_exec(s, e) == n,
                    None => false,
                }
            } else {
                false
            }
        },
    }
}

/// Removes the suffix that `pat` matches, if any.
pub fn strip_suffix(pat: SuffixPattern, s: &[char]) -> (r: Vec<char>)
    ensures
        r@ == spec_strip_suffix(pat, s@),
{
    let mut i: usize = 0;
    loop
        invariant
            i <= s.len(),
            suffix_match_from(pat, s@, i as int) == suffix_match_from(pat, s@, 0),
        decreases s.len() - i,
    {
        proof {
            lemma_space_end(s@, i as int);
        }
        let k = space_end_exec(s, i);
        if suffix_core_at_exec(pat, s, k) {
            assert(s@.subrange(0, i as int) =~= s@.take(i as int));
            return crate::text::slice_range(s, 0, i);
        }
        if i == s.len() {
            assert(suffix_match_from(pat, s@, i + 1) is None);
            assert(s@.subrange(0, s@.len() as int) =~= s@);
            return crate::text::slice_range(s, 0, s.len());
        }
        i += 1;
    }
}

/// A capture lies inside the text and is not empty.
pub proof fn lemma_first_capture_bounds(pat: NumberPattern, s: Seq<char>)
    ensures
        first_capture(pat, s) matches Some((a, e)) ==> 0 <= a < e <= s.len(),
{
    lemma_first_capture_from_bounds(pat, s, 0);
}

proof fn lemma_first_capture_from_bounds(pat: NumberPattern, s: Seq<char>, k: int)
    requires
        0 <= k <= s.len() + 1,
    ensures
        first_capture_from(pat, s, k) matches Some((a, e)) ==> 0 <= a < e <= s.len(),
    decreases s.len() + 1 - k,
{
    if k <= s.len() {
        if capture_at(pat, s, k) is Some {
            lemma_capture_at_bounds(pat, s, k);
        } else {
            lemma_first_capture_from_bounds(pat, s, k + 1);
        }
    }
}

proof fn lemma_capture_at_bounds(pat: NumberPattern, s: Seq<char>, k: int)
    requires
        0 <= k <= s.len(),
    ensures
        capture_at(pat, s, k) matches Some((a, e)) ==> 0 <= a < e <= s.len(),
{
    if k < s.len() {
        lemma_space_end(s, k + 1);
        lemma_number_at(s, space_end(s, k + 1));
        lemma_digit_end(s, k + 1);
        if k + 2 <= s.len() {
            lemma_space_end(s, k + 2);
            lemma_number_at(s, space_end(s, k + 2));
        }
    }
}

} // verus!
