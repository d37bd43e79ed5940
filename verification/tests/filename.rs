use bangumiao::filename::{extract_title, is_tag_part, parse, parse_episode_number, strip_extension};

fn episode(text: &Option<String>) -> Option<f64> {
    text.as_deref().map(|t| t.parse::<f64>().unwrap())
}

#[test]
fn test_lolihouse() {
    let r = parse("[LoliHouse] Youkoso Jitsuryoku Shijou Shugi no Kyoushitsu e S4 - 01 [WebRip 1080p HEVC-10bit AAC SRTx2].mkv");
    assert!(r.anime_title.contains("Youkoso"));
    assert_eq!(episode(&r.episode_number), Some(1.0));
}

#[test]
fn test_multi_group() {
    let r = parse("[Pre-S&三明治摸鱼部&Y-Raws] 超时空辉夜姬 Cosmic Princess Kaguya [WebRip 1080P HEVC 10Bit EAC3&AAC MKV][CHI_JPN].mkv");
    assert!(r.anime_title.contains("Kaguya") || r.anime_title.contains("辉夜姬"));
}

#[test]
fn test_beansub() {
    let r = parse("[BeanSub&FZSD][Chainsaw_Man_Reze_Arc][MOVIE][GB][1080P][x264_AAC].mp4");
    assert!(r.anime_title.contains("Chainsaw"));
}

#[test]
fn lolihouse_title_is_exact() {
    let r = parse("[LoliHouse] Youkoso Jitsuryoku Shijou Shugi no Kyoushitsu e S4 - 01 [WebRip 1080p HEVC-10bit AAC SRTx2].mkv");
    assert_eq!(r.anime_title, "Youkoso Jitsuryoku Shijou Shugi no Kyoushitsu e S4");
    assert_eq!(r.raw_filename, "[LoliHouse] Youkoso Jitsuryoku Shijou Shugi no Kyoushitsu e S4 - 01 [WebRip 1080p HEVC-10bit AAC SRTx2].mkv");
}

#[test]
fn strip_extension_keeps_stem() {
    assert_eq!(strip_extension("a.b.mkv"), "a.b");
    assert_eq!(strip_extension(".hidden"), ".hidden");
    assert_eq!(strip_extension("noext"), "noext");
    assert_eq!(strip_extension("trailing."), "trailing");
}

#[test]
fn tag_part_needs_more_than_half_tags() {
    assert!(!is_tag_part("1080P Title"));
    assert!(is_tag_part("1080P HEVC Title"));
    assert!(!is_tag_part("MKV Movie Name Here"));
}

#[test]
fn strip_extension_keeps_names_without_stem() {
    assert_eq!(strip_extension(".."), "..");
    assert_eq!(strip_extension("."), ".");
    assert_eq!(strip_extension(""), "");
}

#[test]
fn tag_parts_are_recognised() {
    assert!(is_tag_part("WebRip 1080p HEVC-10bit AAC SRTx2"));
    assert!(is_tag_part("LoliHouse"));
    assert!(!is_tag_part("Youkoso Jitsuryoku"));
    assert!(is_tag_part("1080P"));
}

#[test]
fn extract_title_returns_name_and_title() {
    let (name, title) = extract_title("[Group] Some Show - 12 [1080p]");
    assert_eq!(name, "[Group] Some Show - 12 [1080p]");
    assert_eq!(title, "Group Some Show");
}

#[test]
fn episode_number_patterns() {
    assert_eq!(episode(&parse_episode_number("Show 第12话")), Some(12.0));
    assert_eq!(episode(&parse_episode_number("Show EP 7")), Some(7.0));
    assert_eq!(episode(&parse_episode_number("Show #3")), Some(3.0));
    assert_eq!(episode(&parse_episode_number("Show 05 end")), Some(5.0));
    assert_eq!(episode(&parse_episode_number("Show - 12.5 [x]")), Some(12.5));
    assert_eq!(episode(&parse_episode_number("Show-07[x]")), Some(7.0));
    assert_eq!(parse_episode_number("Show-00[x]"), None);
    assert_eq!(parse_episode_number("Nothing here"), None);
}

fn regex_episode(name: &str) -> Option<String> {
    let patterns = [
        r"(?:^|\s)[-–]\s*(\d+(?:\.\d+)?)\s*(?:\s|\[|$)",
        r"第\s*(\d+(?:\.\d+)?)\s*[话話]",
        r"[Ee][Pp]\s*(\d+(?:\.\d+)?)",
        r"#\s*(\d+(?:\.\d+)?)",
        r"\s(\d{2,3})\s",
    ];
    for p in patterns {
        let re = regex_lite::Regex::new(p).unwrap();
        if let Some(c) = re.captures(name) {
            return Some(c.get(1).unwrap().as_str().to_string());
        }
    }
    let re = regex_lite::Regex::new(r"[-–\s](\d{2,3})(?:\s|\[|\.\w+$)").unwrap();
    if let Some(c) = re.captures(name) {
        let t = c.get(1).unwrap().as_str();
        let n: f64 = t.parse().unwrap();
        if n >= 1.0 && n <= 999.0 {
            return Some(t.to_string());
        }
    }
    None
}

fn regex_strip(title: &str) -> String {
    let patterns = [
        r"\s*[-–]\s*\d+(?:\.\d+)?\s*$",
        r"\s*[第#][\d.]+[话話]\s*$",
        r"\s*[Ee][Pp]?\s*\d+(?:\.\d+)?\s*$",
    ];
    let mut result = title.to_string();
    for p in patterns {
        let re = regex_lite::Regex::new(p).unwrap();
        result = re.replace(&result, "").to_string();
    }
    result.trim().to_string()
}

fn sample_names() -> Vec<String> {
    let alphabet = [
        "-", "–", " ", "\t", "第", "话", "話", "#", "E", "e", "P", "p", "0", "1", "2", "5", ".",
        "[", "]", "x", "\u{3000}", "mkv",
    ];
    let mut out = Vec::new();
    let mut seed: u64 = 0x9e3779b97f4a7c15;
    for _ in 0..20000 {
        seed ^= seed << 13;
        seed ^= seed >> 7;
        seed ^= seed << 17;
        let len = (seed % 12) as usize;
        let mut s = String::new();
        let mut x = seed;
        for _ in 0..len {
            x = x.wrapping_mul(6364136223846793005).wrapping_add(1442695040888963407);
            s.push_str(alphabet[((x >> 33) % alphabet.len() as u64) as usize]);
        }
        out.push(s);
    }
    out
}

#[test]
fn episode_number_agrees_with_regex_engine() {
    for name in sample_names() {
        assert_eq!(parse_episode_number(&name), regex_episode(&name), "name {:?}", name);
    }
}

#[test]
fn suffix_stripping_agrees_with_regex_engine() {
    for name in sample_names() {
        let (_, title) = extract_title(&name);
        let _ = title;
        let joined = name.clone();
        let expected = regex_strip(&joined);
        let got = bangumiao::filename::strip_episode_suffix(&joined);
        assert_eq!(got, expected, "title {:?}", joined);
    }
}

#[test]
fn parse_reads_the_stem_of_a_path() {
    let r = parse("downloads/Show Name - 03.mkv");
    assert_eq!(r.episode_number.as_deref(), Some("03"));
    assert_eq!(r.anime_title, "Show Name");
    assert_eq!(r.raw_filename, "downloads/Show Name - 03.mkv");
}

