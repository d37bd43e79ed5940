//! Smart parsing of downloaded video file names: the anime title and the
//! episode number.
use vstd::prelude::*;
use crate::patterns::{
    first_capture, first_capture_exec, spec_strip_suffix, strip_suffix, NumberPattern,
    SuffixPattern,
};
use crate::text::{
    all_ascii, ascii_upper, chars_of, spec_ends_with, chars_eq, contains, join, occurs_at, spec_contains, spec_join, spec_split,
    spec_starts_with, spec_trim, split, starts_with, string_of, trim, views,
};

verus! {

/// What `str::to_uppercase` gives for a string (Unicode case mapping).
pub uninterp spec fn str_to_uppercase(s: Seq<char>) -> Seq<char>;

/// `str::to_uppercase`: the string in upper case by Unicode's case mapping,
/// which may change the length of the string. The contract names the result,
/// and states it for an ASCII string: each letter in upper case, the rest kept.
#[verifier::external_body]
fn to_uppercase(s: &str) -> (r: String)
    ensures
        r@ == str_to_uppercase(s@),
        all_ascii(s@) ==> r@ == s@.map_values(|c: char| ascii_upper(c)),
{
    s.to_uppercase()
}

/// The file name does not hold a separator or a drive colon and is not `.` or
/// `..`, so that every platform takes it as a single normal path component.
pub open spec fn is_simple_file_name(f: Seq<char>) -> bool {
    &&& f.len() > 0
    &&& f != seq!['.']
    &&& f != seq!['.', '.']
    &&& forall|i: int| 0 <= i < f.len() ==> #[trigger] f[i] != '/' && f[i] != '\\' && f[i] != ':'
}

/// The stem of a file name, as `Path::file_stem` documents it: the whole name
/// when it holds no `.`, or when it begins with `.` and holds no other; else
/// the part before the final `.`.
pub open spec fn spec_file_stem(f: Seq<char>) -> Seq<char> {
    if exists|i: int| 0 <= i < f.len() && f[i] == '.' {
        let j = choose|j: int|
            0 <= j < f.len() && f[j] == '.' && forall|k: int| j < k < f.len() ==> f[k] != '.';
        if j == 0 {
            f
        } else {
            f.take(j)
        }
    } else {
        f
    }
}

/// `Path::new(p).file_stem()`, as a string. For a simple file name the result
/// is its stem as documented. A path that ends in `..` has no file name and so
/// no stem. Of any other path the contract says only that a stem, when there
/// is one, is a non-empty piece of the path (a file name is never empty, and
/// the documented cut at the final `.` leaves text before it).
#[verifier::external_body]
fn path_file_stem(p: &str) -> (r: Option<String>)
    ensures
        is_simple_file_name(p@) ==> r is Some && r->0@ == spec_file_stem(p@),
        r is Some ==> spec_contains(p@, r->0@),
        r is Some ==> r->0@.len() > 0,
        (p@ == seq!['.', '.'] || spec_ends_with(p@, seq!['/', '.', '.'])) ==> r is None,
{
    std::path::Path::new(p).file_stem().and_then(|s| s.to_str()).map(|s| s.to_string())
}

/// What is known of the name without extension `s` of a file name `f` on
/// every platform: the documented stem for a simple file name; the name
/// itself when it ends in `..` (it has no stem); else the name or a non-empty
/// piece of it.
pub open spec fn is_stem_of(s: Seq<char>, f: Seq<char>) -> bool {
    &&& is_simple_file_name(f) ==> s == spec_file_stem(f)
    &&& s == f || spec_contains(f, s)
    &&& f.len() > 0 ==> s.len() > 0
    &&& (f == seq!['.', '.'] || spec_ends_with(f, seq!['/', '.', '.'])) ==> s == f
}

/// The file name without its extension: its stem, or the whole name when it has none.
pub fn strip_extension(filename: &str) -> (r: String)
    ensures
        is_stem_of(r@, filename@),
{
    match path_file_stem(filename) {
        Some(t) => t,
        None => string_of(&chars_of(filename)),
    }
}

} // verus!

verus! {

/// Words that mark a bracket part as a codec, resolution, language or release tag.
pub open spec fn tag_keywords() -> Seq<Seq<char>> {
    seq![
        "MP4"@,
        "MKV"@,
        "AVI"@,
        "HEVC"@,
        "H264"@,
        "H265"@,
        "X264"@,
        "X265"@,
        "AAC"@,
        "EAC3"@,
        "FLAC"@,
        "OPUS"@,
        "1080P"@,
        "720P"@,
        "480P"@,
        "2160P"@,
        "4K"@,
        "WEBRIP"@,
        "BDRIP"@,
        "WEB-DL"@,
        "BD"@,
        "CHS"@,
        "CHT"@,
        "GB"@,
        "BIG5"@,
        "JP"@,
        "CHI"@,
        "JPN"@,
        "SRT"@,
        "ASS"@,
        "PGS"@,
        "10BIT"@,
        "8BIT"@,
        "HI10P"@,
        "SUBPLEASE"@,
        "ERAWP"@,
        "RAW"@,
        "MOVIE"@,
        "OVA"@,
        "OAD"@,
        "ONA"@,
        "TV"@,
        "FINALE"@,
        "V2"@,
        "V3"@,
        "REV"@,
    ]
}

/// Release groups whose names mark a bracket part as a tag.
pub open spec fn subtitle_groups() -> Seq<Seq<char>> {
    seq![
        "LOLIHOUSE"@,
        "BEANSUB"@,
        "FZSD"@,
        "PRE-S"@,
        "Y-RAWS"@,
        "NC-RAWS"@,
        "COOLGIRLS"@,
        "MAKAIKAISUB"@,
        "SWSUB"@,
        "KISSSUB"@,
        "SAKURATOON"@,
    ]
}

fn tag_keyword_list() -> (r: Vec<Vec<char>>)
    ensures
        views(r@) == tag_keywords(),
{
    let mut r: Vec<Vec<char>> = Vec::new();
    r.push(chars_of("MP4"));
    r.push(chars_of("MKV"));
    r.push(chars_of("AVI"));
    r.push(chars_of("HEVC"));
    r.push(chars_of("H264"));
    r.push(chars_of("H265"));
    r.push(chars_of("X264"));
    r.push(chars_of("X265"));
    r.push(chars_of("AAC"));
    r.push(chars_of("EAC3"));
    r.push(chars_of("FLAC"));
    r.push(chars_of("OPUS"));
    r.push(chars_of("1080P"));
    r.push(chars_of("720P"));
    r.push(chars_of("480P"));
    r.push(chars_of("2160P"));
    r.push(chars_of("4K"));
    r.push(chars_of("WEBRIP"));
    r.push(chars_of("BDRIP"));
    r.push(chars_of("WEB-DL"));
    r.push(chars_of("BD"));
    r.push(chars_of("CHS"));
    r.push(chars_of("CHT"));
    r.push(chars_of("GB"));
    r.push(chars_of("BIG5"));
    r.push(chars_of("JP"));
    r.push(chars_of("CHI"));
    r.push(chars_of("JPN"));
    r.push(chars_of("SRT"));
    r.push(chars_of("ASS"));
    r.push(chars_of("PGS"));
    r.push(chars_of("10BIT"));
    r.push(chars_of("8BIT"));
    r.push(chars_of("HI10P"));
    r.push(chars_of("SUBPLEASE"));
    r.push(chars_of("ERAWP"));
    r.push(chars_of("RAW"));
    r.push(chars_of("MOVIE"));
    r.push(chars_of("OVA"));
    r.push(chars_of("OAD"));
    r.push(chars_of("ONA"));
    r.push(chars_of("TV"));
    r.push(chars_of("FINALE"));
    r.push(chars_of("V2"));
    r.push(chars_of("V3"));
    r.push(chars_of("REV"));
    assert(views(r@) =~= tag_keywords());
    r
}

fn subtitle_group_list() -> (r: Vec<Vec<char>>)
    ensures
        views(r@) == subtitle_groups(),
{
    let mut r: Vec<Vec<char>> = Vec::new();
    r.push(chars_of("LOLIHOUSE"));
    r.push(chars_of("BEANSUB"));
    r.push(chars_of("FZSD"));
    r.push(chars_of("PRE-S"));
    r.push(chars_of("Y-RAWS"));
    r.push(chars_of("NC-RAWS"));
    r.push(chars_of("COOLGIRLS"));
    r.push(chars_of("MAKAIKAISUB"));
    r.push(chars_of("SWSUB"));
    r.push(chars_of("KISSSUB"));
    r.push(chars_of("SAKURATOON"));
    assert(views(r@) =~= subtitle_groups());
    r
}

} // verus!

verus! {

/// The characters a bracket part is split into words at.
pub open spec fn tag_separators() -> Seq<char> {
    seq!['&', '-', '_', ' ', '+']
}

/// A word in upper case: letter by letter for an ASCII word, else by
/// Unicode's case mapping.
pub open spec fn upper_of(w: Seq<char>) -> Seq<char> {
    if all_ascii(w) {
        w.map_values(|c: char| ascii_upper(c))
    } else {
        str_to_uppercase(w)
    }
}

/// A word is a known tag: in upper case it begins with one of the tag keywords.
pub open spec fn is_keyword_word(w: Seq<char>) -> bool {
    exists|i: int| 0 <= i < tag_keywords().len() && spec_starts_with(
        upper_of(w),
        #[trigger] tag_keywords()[i],
    )
}

/// How many words are known tags.
pub open spec fn keyword_word_count(ws: Seq<Seq<char>>) -> nat
    decreases ws.len(),
{
    if ws.len() == 0 {
        0
    } else {
        keyword_word_count(ws.drop_last()) + if is_keyword_word(ws.last()) {
            1nat
        } else {
            0nat
        }
    }
}

/// A word is, as written, one of the release-group names.
pub open spec fn names_group(w: Seq<char>) -> bool {
    exists|i: int| 0 <= i < subtitle_groups().len() && #[trigger] subtitle_groups()[i] == w
}

/// A word, in upper case, contains one of the release-group names.
pub open spec fn holds_group(w: Seq<char>) -> bool {
    exists|i: int| 0 <= i < subtitle_groups().len() && spec_contains(
        upper_of(w),
        #[trigger] subtitle_groups()[i],
    )
}

/// A bracket part is a tag (codec, resolution, language, release group) rather
/// than title text: more than half of its words are known tags, or one of its
/// words is or contains a release-group name.
pub open spec fn spec_is_tag_part(s: Seq<char>) -> bool {
    let ws = spec_split(s, tag_separators());
    ||| 2 * keyword_word_count(ws) > ws.len()
    ||| exists|j: int| 0 <= j < ws.len() && names_group(#[trigger] ws[j])
    ||| exists|j: int| 0 <= j < ws.len() && holds_group(#[trigger] ws[j])
}

fn upper_chars(w: &[char]) -> (r: Vec<char>)
    ensures
        r@ == upper_of(w@),
{
    let s = string_of(w);
    let u = to_uppercase(s.as_str());
    chars_of(u.as_str())
}

/// Whether a bracket part of a file name is a tag rather than title text.
pub fn is_tag_part(s: &str) -> (b: bool)
    ensures
        b == spec_is_tag_part(s@),
{
    let v = chars_of(s);
    is_tag_part_chars(&v)
}

fn is_tag_part_chars(v: &[char]) -> (b: bool)
    ensures
        b == spec_is_tag_part(v@),
{
    let seps: Vec<char> = vec!['&', '-', '_', ' ', '+'];
    assert(seps@ =~= tag_separators());
    let words = split(v, &seps);
    let keywords = tag_keyword_list();
    let groups = subtitle_group_list();
    let ghost ws = views(words@);
    let mut count: usize = 0;
    let mut named = false;
    let mut held = false;
    let mut j: usize = 0;
    while j < words.len()
        invariant
            j <= words.len(),
            ws == views(words@),
            ws == spec_split(v@, tag_separators()),
            views(keywords@) == tag_keywords(),
            views(groups@) == subtitle_groups(),
            count == keyword_word_count(ws.take(j as int)),
            count <= j,
            named == exists|m: int| 0 <= m < j && names_group(#[trigger] ws[m]),
            held == exists|m: int| 0 <= m < j && holds_group(#[trigger] ws[m]),
        decreases words.len() - j,
    {
        let w = &words[j];
        assert(ws[j as int] == w@);
        let up = upper_chars(w);
        let mut kw = false;
        let mut k: usize = 0;
        while k < keywords.len()
            invariant
                k <= keywords.len(),
                views(keywords@) == tag_keywords(),
                up@ == upper_of(w@),
                kw == exists|i: int| 0 <= i < k && spec_starts_with(
                    upper_of(w@),
                    #[trigger] tag_keywords()[i],
                ),
            decreases keywords.len() - k,
        {
            assert(tag_keywords()[k as int] == keywords@[k as int]@);
            if starts_with(&up, &keywords[k]) {
                kw = true;
            }
            k += 1;
        }
        let mut nm = false;
        let mut hd = false;
        let mut g: usize = 0;
        while g < groups.len()
            invariant
                g <= groups.len(),
                views(groups@) == subtitle_groups(),
                up@ == upper_of(w@),
                nm == exists|i: int| 0 <= i < g && #[trigger] subtitle_groups()[i] == w@,
                hd == exists|i: int| 0 <= i < g && spec_contains(
                    upper_of(w@),
                    #[trigger] subtitle_groups()[i],
                ),
            decreases groups.len() - g,
        {
            assert(subtitle_groups()[g as int] == groups@[g as int]@);
            if chars_eq(&groups[g], w) {
                nm = true;
            }
            if contains(&up, &groups[g]) {
                hd = true;
            }
            g += 1;
        }
        assert(ws.take(j + 1).drop_last() =~= ws.take(j as int));
        if kw {
            count += 1;
        }
        if nm {
            named = true;
        }
        if hd {
            held = true;
        }
        j += 1;
    }
    assert(ws.take(words.len() as int) =~= ws);
    count > words.len() - count || named || held
}

} // verus!

verus! {

/// With no separator in it, a text is split into the one word it is.
proof fn lemma_split_single_word(s: Seq<char>, seps: Seq<char>)
    requires
        forall|i: int| 0 <= i < s.len() ==> !seps.contains(#[trigger] s[i]),
    ensures
        spec_split(s, seps) == seq![s],
    decreases s.len(),
{
    if s.len() == 0 {
        assert(s =~= Seq::<char>::empty());
    } else {
        let t = s.drop_last();
        assert forall|i: int| 0 <= i < t.len() implies !seps.contains(#[trigger] t[i]) by {
            assert(t[i] == s[i]);
        }
        lemma_split_single_word(t, seps);
        assert(!seps.contains(s[s.len() - 1]));
        assert(!seps.contains(s.last()));
        assert(spec_split(t, seps) == seq![t]);
        assert(t.push(s.last()) =~= s);
        assert(seq![t].update(0, t.push(s.last())) =~= seq![s]);
    }
}

/// Tags are recognised by prefix: a bracket part that is a single ASCII word
/// (no `&`, `-`, `_`, space or `+`) is a tag exactly when its upper-case form
/// begins with one of the tag keywords MP4 … REV (so `JPSC`, `AACx2`, `1080p`
/// and `x264` are tags), or it is one of the release-group names, or its
/// upper-case form contains one of them.
pub proof fn lemma_single_word_tag(w: Seq<char>)
    requires
        all_ascii(w),
        forall|i: int|
            0 <= i < w.len() ==> #[trigger] w[i] != '&' && w[i] != '-' && w[i] != '_' && w[i] != ' '
                && w[i] != '+',
    ensures
        ({
            let upper = w.map_values(|c: char| ascii_upper(c));
            let keywords = seq![
                "MP4"@, "MKV"@, "AVI"@, "HEVC"@, "H264"@, "H265"@, "X264"@, "X265"@, "AAC"@,
                "EAC3"@, "FLAC"@, "OPUS"@, "1080P"@, "720P"@, "480P"@, "2160P"@, "4K"@,
                "WEBRIP"@, "BDRIP"@, "WEB-DL"@, "BD"@, "CHS"@, "CHT"@, "GB"@, "BIG5"@, "JP"@,
                "CHI"@, "JPN"@, "SRT"@, "ASS"@, "PGS"@, "10BIT"@, "8BIT"@, "HI10P"@,
                "SUBPLEASE"@, "ERAWP"@, "RAW"@, "MOVIE"@, "OVA"@, "OAD"@, "ONA"@, "TV"@,
                "FINALE"@, "V2"@, "V3"@, "REV"@,
            ];
            let groups = seq![
                "LOLIHOUSE"@, "BEANSUB"@, "FZSD"@, "PRE-S"@, "Y-RAWS"@, "NC-RAWS"@,
                "COOLGIRLS"@, "MAKAIKAISUB"@, "SWSUB"@, "KISSSUB"@, "SAKURATOON"@,
            ];
            spec_is_tag_part(w) <==> (exists|k: int|
                0 <= k < keywords.len() && spec_starts_with(upper, #[trigger] keywords[k]))
                || (exists|g: int| 0 <= g < groups.len() && w == #[trigger] groups[g])
                || (exists|g: int| 0 <= g < groups.len() && spec_contains(upper, #[trigger] groups[g]))
        }),
{
    assert forall|i: int| 0 <= i < w.len() implies !tag_separators().contains(#[trigger] w[i]) by {
        if tag_separators().contains(w[i]) {
            let j = choose|j: int| 0 <= j < tag_separators().len() && tag_separators()[j] == w[i];
            assert(j == 0 || j == 1 || j == 2 || j == 3 || j == 4);
        }
    }
    lemma_split_single_word(w, tag_separators());
    let ws = spec_split(w, tag_separators());
    assert(ws.drop_last() =~= Seq::<Seq<char>>::empty());
    assert(ws[0] == w);
    assert(ws.last() == w);
    assert(keyword_word_count(ws.drop_last()) == 0);
    assert(upper_of(w) == w.map_values(|c: char| ascii_upper(c)));
    assert(keyword_word_count(ws) == (if is_keyword_word(w) { 1nat } else { 0nat }));
    assert((exists|j: int| 0 <= j < ws.len() && names_group(#[trigger] ws[j])) == names_group(w)) by {
        if names_group(w) {
            assert(names_group(ws[0]));
        }
    }
    assert((exists|j: int| 0 <= j < ws.len() && holds_group(#[trigger] ws[j])) == holds_group(w)) by {
        if holds_group(w) {
            assert(holds_group(ws[0]));
        }
    }
}

/// A bracket part none of whose words is or contains a release-group name is
/// a tag exactly when strictly more than half of its words are known tags:
/// half is not enough (so `1080P Title` is title text).
pub proof fn lemma_tag_part_needs_a_majority(s: Seq<char>)
    requires
        forall|j: int|
            0 <= j < spec_split(s, tag_separators()).len() ==> !names_group(
                #[trigger] spec_split(s, tag_separators())[j],
            ) && !holds_group(spec_split(s, tag_separators())[j]),
    ensures
        spec_is_tag_part(s) <==> keyword_word_count(spec_split(s, tag_separators())) * 2
            >= spec_split(s, tag_separators()).len() + 1,
{
}

/// The episode-number suffixes that a title loses: ` - 01`, `第01话`/`#01话`,
/// `EP01`, each at the very end, then surrounding whitespace.
pub open spec fn spec_strip_episode_suffix(t: Seq<char>) -> Seq<char> {
    spec_trim(
        spec_strip_suffix(
            SuffixPattern::EpNumber,
            spec_strip_suffix(
                SuffixPattern::DaiOrHash,
                spec_strip_suffix(SuffixPattern::DashNumber, t),
            ),
        ),
    )
}

fn strip_episode_suffix_chars(t: &[char]) -> (r: Vec<char>)
    ensures
        r@ == spec_strip_episode_suffix(t@),
{
    let a = strip_suffix(SuffixPattern::DashNumber, t);
    let b = strip_suffix(SuffixPattern::DaiOrHash, &a);
    let c = strip_suffix(SuffixPattern::EpNumber, &b);
    trim(&c)
}

/// A title without its episode-number suffix.
pub fn strip_episode_suffix(title: &str) -> (r: String)
    ensures
        r@ == spec_strip_episode_suffix(title@),
{
    let v = chars_of(title);
    string_of(&strip_episode_suffix_chars(&v))
}

/// The trimmed pieces that are neither empty nor tags, in order.
pub open spec fn title_parts(ps: Seq<Seq<char>>) -> Seq<Seq<char>>
    decreases ps.len(),
{
    if ps.len() == 0 {
        Seq::empty()
    } else {
        let r = title_parts(ps.drop_last());
        let t = spec_trim(ps.last());
        if t.len() > 0 && !spec_is_tag_part(t) {
            r.push(t)
        } else {
            r
        }
    }
}

/// The anime title of a file name without extension: the text outside and
/// inside brackets that is not a tag, joined by spaces (the whole name when
/// nothing is left), without its episode-number suffix.
pub open spec fn spec_extract_title(name: Seq<char>) -> Seq<char> {
    let joined = spec_trim(
        spec_join(title_parts(spec_split(name, seq!['[', ']'])), seq![' ']),
    );
    spec_strip_episode_suffix(
        if joined.len() == 0 {
            name
        } else {
            joined
        },
    )
}

fn extract_title_chars(name: &[char]) -> (r: Vec<char>)
    ensures
        r@ == spec_extract_title(name@),
{
    let brackets: Vec<char> = vec!['[', ']'];
    assert(brackets@ =~= seq!['[', ']']);
    let parts = split(name, &brackets);
    let ghost ps = views(parts@);
    let mut kept: Vec<Vec<char>> = Vec::new();
    let mut i: usize = 0;
    while i < parts.len()
        invariant
            i <= parts.len(),
            ps == views(parts@),
            views(kept@) == title_parts(ps.take(i as int)),
        decreases parts.len() - i,
    {
        let t = trim(&parts[i]);
        assert(ps.take(i + 1).drop_last() =~= ps.take(i as int));
        assert(ps.take(i + 1).last() == parts@[i as int]@);
        if t.len() > 0 && !is_tag_part_chars(&t) {
            let ghost before = kept@;
            kept.push(t);
            assert(views(kept@) =~= views(before).push(t@));
        }
        i += 1;
    }
    assert(ps.take(parts.len() as int) =~= ps);
    let space: Vec<char> = vec![' '];
    assert(space@ =~= seq![' ']);
    let joined = trim(&join(&kept, &space));
    if joined.len() == 0 {
        strip_episode_suffix_chars(name)
    } else {
        strip_episode_suffix_chars(&joined)
    }
}

/// The name back, and the anime title extracted from it.
pub fn extract_title(name: &str) -> (r: (String, String))
    ensures
        r.0@ == name@,
        r.1@ == spec_extract_title(name@),
{
    let v = chars_of(name);
    let title = extract_title_chars(&v);
    (string_of(&v), string_of(&title))
}

/// The text of a capture, if there is one.
pub open spec fn capture_text(s: Seq<char>, c: Option<(int, int)>) -> Option<Seq<char>> {
    match c {
        Some((a, e)) => Some(s.subrange(a, e)),
        None => None,
    }
}

/// Some digit of `t` is not `0`, that is, the number is at least 1.
pub open spec fn has_nonzero_digit(t: Seq<char>) -> bool {
    exists|i: int| 0 <= i < t.len() && t[i] != '0'
}

/// The episode number of a file name, as decimal text: the capture of the first
/// of ` - 01`, `第01话`, `EP01`, `#01`, ` 01 ` that matches; failing those, a
/// two- or three-digit number after `-`, `–` or whitespace and before
/// whitespace, `[` or the extension, when it is at least 1.
pub open spec fn spec_parse_episode_number(name: Seq<char>) -> Option<Seq<char>> {
    if first_capture(NumberPattern::DashSpaced, name) is Some {
        capture_text(name, first_capture(NumberPattern::DashSpaced, name))
    } else if first_capture(NumberPattern::Dai, name) is Some {
        capture_text(name, first_capture(NumberPattern::Dai, name))
    } else if first_capture(NumberPattern::Ep, name) is Some {
        capture_text(name, first_capture(NumberPattern::Ep, name))
    } else if first_capture(NumberPattern::Hash, name) is Some {
        capture_text(name, first_capture(NumberPattern::Hash, name))
    } else if first_capture(NumberPattern::Spaced, name) is Some {
        capture_text(name, first_capture(NumberPattern::Spaced, name))
    } else {
        match capture_text(name, first_capture(NumberPattern::LooseTwoOrThree, name)) {
            Some(t) => if has_nonzero_digit(t) {
                Some(t)
            } else {
                None
            },
            None => None,
        }
    }
}

/// The capture text of the first match of `pat`.
pub fn capture_of(pat: NumberPattern, s: &[char]) -> (r: Option<Vec<char>>)
    ensures
        r matches Some(t) ==> capture_text(s@, first_capture(pat, s@)) == Some(t@),
        r is None ==> first_capture(pat, s@) is None,
{
    match first_capture_exec(pat, s) {
        Some((a, e)) => {
            proof {
                crate::patterns::lemma_first_capture_bounds(pat, s@);
            }
            Some(crate::text::slice_range(s, a, e))
        },
        None => None,
    }
}

fn parse_episode_number_chars(name: &[char]) -> (r: Option<Vec<char>>)
    ensures
        r matches Some(t) ==> spec_parse_episode_number(name@) == Some(t@),
        r is None ==> spec_parse_episode_number(name@) is None,
{
    if let Some(t) = capture_of(NumberPattern::DashSpaced, name) {
        return Some(t);
    }
    if let Some(t) = capture_of(NumberPattern::Dai, name) {
        return Some(t);
    }
    if let Some(t) = capture_of(NumberPattern::Ep, name) {
        return Some(t);
    }
    if let Some(t) = capture_of(NumberPattern::Hash, name) {
        return Some(t);
    }
    if let Some(t) = capture_of(NumberPattern::Spaced, name) {
        return Some(t);
    }
    match capture_of(NumberPattern::LooseTwoOrThree, name) {
        Some(t) => {
            let ghost c = capture_text(name@, first_capture(NumberPattern::LooseTwoOrThree, name@));
            assert(c == Some(t@));
            let mut k: usize = 0;
            while k < t.len()
                invariant
                    c == Some(t@),
                    c == capture_text(name@, first_capture(NumberPattern::LooseTwoOrThree, name@)),
                    first_capture(NumberPattern::DashSpaced, name@) is None,
                    first_capture(NumberPattern::Dai, name@) is None,
                    first_capture(NumberPattern::Ep, name@) is None,
                    first_capture(NumberPattern::Hash, name@) is None,
                    first_capture(NumberPattern::Spaced, name@) is None,
                    k <= t.len(),
                    forall|m: int| 0 <= m < k ==> t@[m] == '0',
                decreases t.len() - k,
            {
                if t[k] != '0' {
                    assert(has_nonzero_digit(t@)) by {
                        assert(t@[k as int] != '0');
                    }
                    return Some(t);
                }
                k += 1;
            }
            None
        },
        None => None,
    }
}

/// The episode number of a file name, as decimal text; see `spec_parse_episode_number`.
pub fn parse_episode_number(name: &str) -> (r: Option<String>)
    ensures
        r matches Some(t) ==> spec_parse_episode_number(name@) == Some(t@),
        r is None ==> spec_parse_episode_number(name@) is None,
{
    let v = chars_of(name);
    match parse_episode_number_chars(&v) {
        Some(t) => Some(string_of(&t)),
        None => None,
    }
}

/// `ep` is the episode number that `spec_parse_episode_number` finds in `name`.
pub open spec fn episode_text_of(ep: Option<String>, name: Seq<char>) -> bool {
    match ep {
        Some(t) => spec_parse_episode_number(name) == Some(t@),
        None => spec_parse_episode_number(name) is None,
    }
}

/// A video file name, parsed.
pub struct ParsedFilename {
    pub anime_title: String,
    /// The episode number as decimal text (`01`, `12.5`).
    pub episode_number: Option<String>,
    pub raw_filename: String,
}

/// Parses a file name: the title and episode number both come from the name
/// without its extension that `strip_extension` gives.
pub fn parse(filename: &str) -> (r: ParsedFilename)
    ensures
        r.raw_filename@ == filename@,
        exists|stem: Seq<char>|
            #![trigger is_stem_of(stem, filename@)]
            is_stem_of(stem, filename@) && r.anime_title@ == spec_extract_title(stem)
                && episode_text_of(r.episode_number, stem),
        is_simple_file_name(filename@) ==> r.anime_title@ == spec_extract_title(
            spec_file_stem(filename@),
        ),
        is_simple_file_name(filename@) ==> (match r.episode_number {
            Some(t) => spec_parse_episode_number(spec_file_stem(filename@)) == Some(t@),
            None => spec_parse_episode_number(spec_file_stem(filename@)) is None,
        }),
{
    let name = strip_extension(filename);
    let (_cleaned, title) = extract_title(name.as_str());
    let ep = parse_episode_number(name.as_str());
    ParsedFilename {
        anime_title: title,
        episode_number: ep,
        raw_filename: string_of(&chars_of(filename)),
    }
}

} // verus!
