use bangumiao::rss::{
    extract_episode_number, extract_magnet, extract_new_episodes, Enclosure, RssChannel, RssFeed,
    RssItem,
};

fn item(title: &str, link: &str, enclosure: Option<&str>) -> RssItem {
    RssItem {
        title: title.into(),
        link: link.into(),
        enclosure: enclosure.map(|u| Enclosure {
            url: u.into(),
            enclosure_type: "application/x-bittorrent".into(),
            length: "1".into(),
        }),
        pub_date: "2024-01-01".into(),
    }
}

#[test]
fn magnet_links_are_kept() {
    assert_eq!(extract_magnet("magnet:?xt=urn:btih:abc"), "magnet:?xt=urn:btih:abc");
    assert_eq!(extract_magnet("https://mikanani.me/Home/Episode/1"), "");
}

#[test]
fn rss_episode_numbers() {
    let n = |t: &str| extract_episode_number(t).map(|s| s.parse::<f64>().unwrap());
    assert_eq!(n("[Group] 葬送的芙莉莲 第05话 [1080p]"), Some(5.0));
    assert_eq!(n("[Group] Show EP12 [1080p]"), Some(12.0));
    assert_eq!(n("[Group] Show E7"), Some(7.0));
    assert_eq!(n("[Group] Show #3"), Some(3.0));
    assert_eq!(n("[Group] Show - 11 [1080p]"), Some(11.0));
    assert_eq!(n("[Group] Show - 11.5"), Some(11.5));
    assert_eq!(n("[Group] Show"), None);
}

fn regex_rss(title: &str) -> Option<String> {
    let patterns = [
        r"第\s*(\d+(?:\.\d+)?)\s*[话話]",
        r"[Ee][Pp]?\s*(\d+(?:\.\d+)?)",
        r"#\s*(\d+(?:\.\d+)?)",
        r"-\s*(\d+(?:\.\d+)?)\s*(?:\[|$)",
    ];
    for p in patterns {
        let re = regex_lite::Regex::new(p).unwrap();
        if let Some(c) = re.captures(title) {
            return Some(c.get(1).unwrap().as_str().to_string());
        }
    }
    None
}

#[test]
fn rss_episode_numbers_agree_with_regex_engine() {
    let alphabet = ["-", " ", "\t", "第", "话", "話", "#", "E", "e", "P", "p", "0", "1", "9", ".", "[", "]", "x"];
    let mut seed: u64 = 12345;
    for _ in 0..20000 {
        seed = seed.wrapping_mul(6364136223846793005).wrapping_add(1442695040888963407);
        let len = ((seed >> 40) % 10) as usize;
        let mut s = String::new();
        let mut x = seed;
        for _ in 0..len {
            x = x.wrapping_mul(6364136223846793005).wrapping_add(1442695040888963407);
            s.push_str(alphabet[((x >> 33) % alphabet.len() as u64) as usize]);
        }
        assert_eq!(extract_episode_number(&s), regex_rss(&s), "title {:?}", s);
    }
}

#[test]
fn new_episodes_skip_known_titles() {
    let feed = RssFeed {
        channel: RssChannel {
            title: "c".into(),
            link: "l".into(),
            items: vec![
                item("A 第01话", "magnet:?a", None),
                item("B - 02", "https://x/b", Some("https://x/b.torrent")),
                item("C", "https://x/c", None),
            ],
        },
    };
    let eps = extract_new_episodes(&feed, &vec!["C".to_string()]);
    assert_eq!(eps.len(), 2);
    assert_eq!(eps[0].title, "A 第01话");
    assert_eq!(eps[0].torrent_url, "magnet:?a");
    assert_eq!(eps[0].magnet_uri, "magnet:?a");
    assert_eq!(eps[0].episode_number.as_deref(), Some("01"));
    assert_eq!(eps[1].torrent_url, "https://x/b.torrent");
    assert_eq!(eps[1].magnet_uri, "");
    assert_eq!(eps[1].pub_date, "2024-01-01");
    assert_eq!(eps[1].episode_number.as_deref(), Some("02"));
    let again = extract_new_episodes(&feed, &vec!["A 第01话".into(), "B - 02".into(), "C".into()]);
    assert!(again.is_empty());
}
