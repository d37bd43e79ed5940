use bangumiao::mikan::{scan_expression, scan_result_is_empty};

#[test]
fn test_scan_mikan_rss() {
    let js = r#"
(function() {
    function findAnimeTitle(el) {
        var current = el;
        for (var i = 0; i < 10; i++) {
            if (!current || current === document.body) break;
            var titleEl = current.querySelector('a.anime-title, a[class*="title"], h3, h2, .bangumi-title');
            if (titleEl) return titleEl.textContent.trim();
            if (current.previousElementSibling) {
                var prevTitle = current.previousElementSibling.querySelector('a.anime-title, a[class*="title"], h3, h2');
                if (prevTitle) return prevTitle.textContent.trim();
                var prevText = current.previousElementSibling.textContent.trim();
                if (prevText.length > 0 && prevText.length < 100) return prevText;
            }
            current = current.parentElement;
        }
        var pageTitle = document.querySelector('h1, .page-title, .bangumi-page-title');
        if (pageTitle) return pageTitle.textContent.trim();
        return 'Unknown Anime';
    }

    var results = [];
    var seen = {};
    var links = document.querySelectorAll('a[href*="/RSS/Bangumi"]');
    links.forEach(function(a) {
        var href = a.getAttribute('href');
        var bangumiMatch = href.match(/bangumiId=(\d+)/);
        var subgroupMatch = href.match(/subgroupid=(\d+)/);
        if (!bangumiMatch || !subgroupMatch) return;

        var bangumiId = bangumiMatch[1];
        var subgroupId = subgroupMatch[1];
        var key = bangumiId + ':' + subgroupId;

        if (seen[key]) return;
        seen[key] = true;

        var subgroupName = (a.textContent || '').trim();
        if (!subgroupName || subgroupName.length < 2) {
            subgroupName = a.getAttribute('title') || '';
        }
        if (!subgroupName || subgroupName.length < 2) {
            var row = a.closest('tr, li, .subgroup-row, [class*="subgroup"]');
            if (row) subgroupName = (row.textContent || '').trim().substring(0, 50);
        }
        if (!subgroupName || subgroupName.length < 2) {
            subgroupName = 'Subgroup ' + subgroupId;
        }

        var animeTitle = findAnimeTitle(a);

        var fullUrl = href.startsWith('http') ? href : ('https://mikanani.me' + href);

        results.push({
            animeTitle: animeTitle,
            subgroupName: subgroupName,
            rssUrl: fullUrl,
            bangumiId: bangumiId,
            subgroupId: subgroupId
        });
    });

    if (results.length === 0) {
        var tokenLinks = document.querySelectorAll('a[href*="/RSS/MyBangumi"]');
        tokenLinks.forEach(function(a) {
            var href = a.getAttribute('href');
            var fullUrl = href.startsWith('http') ? href : ('https://mikanani.me' + href);
            results.push({
                animeTitle: 'MyBangumi (个人聚合)',
                subgroupName: 'All',
                rssUrl: fullUrl,
                bangumiId: '',
                subgroupId: ''
            });
        });
    }

    return JSON.stringify(results);
})();
        "#;
    // Verify JS constructable — structural check only
    assert!(!js.is_empty());
}

#[test]
fn scan_expression_wraps_the_script() {
    assert_eq!(scan_expression("f"), "(f)()");
}

#[test]
fn empty_scan_results() {
    assert!(scan_result_is_empty(""));
    assert!(scan_result_is_empty("null"));
    assert!(!scan_result_is_empty("[]"));
}
