use xuflow_core::crawl::{extract_links, normalize_url_str, robots_cut_body, CrawlAction, Crawler, UrlInfo};
use xuflow_core::web::{CrawlConfig, WebPage};

#[test]
fn test_normalize_url_strips_fragment() {
    let url = UrlInfo::parse("https://example.com/page?q=1#section").unwrap();
    let normalized = normalize_url_str(&url);
    assert!(!normalized.contains('#'));
    assert!(normalized.contains("?q=1"));
}

#[test]
fn test_normalize_url_strips_trailing_slash() {
    let url = UrlInfo::parse("https://example.com/path/").unwrap();
    let normalized = normalize_url_str(&url);
    assert_eq!(normalized, "https://example.com/path");
}

#[test]
fn test_normalize_url_preserves_root_slash() {
    let url = UrlInfo::parse("https://example.com/").unwrap();
    let normalized = normalize_url_str(&url);
    assert_eq!(normalized, "https://example.com/");
}

#[test]
fn test_extract_links_resolves_relative() {
    let base = UrlInfo::parse("https://example.com/blog/").unwrap();
    let html = r#"<html><body>
            <a href="/about">About</a>
            <a href="post-1.html">Post 1</a>
        </body></html>"#;
    let links = extract_links(html, &base, "example.com", true);
    let urls: Vec<String> = links.iter().map(|u| u.href.clone()).collect();
    assert!(urls.contains(&"https://example.com/about".to_string()));
    assert!(urls.contains(&"https://example.com/blog/post-1.html".to_string()));
}

#[test]
fn test_extract_links_filters_javascript() {
    let base = UrlInfo::parse("https://example.com/").unwrap();
    let html = r#"<a href="javascript:void(0)">click</a><a href="/real">Real</a>"#;
    let links = extract_links(html, &base, "example.com", true);
    assert_eq!(links.len(), 1);
    assert_eq!(links[0].href, "https://example.com/real");
}

#[test]
fn test_extract_links_filters_cross_domain() {
    let base = UrlInfo::parse("https://example.com/").unwrap();
    let html = r#"<a href="https://other.com/page">Other</a><a href="/local">Local</a>"#;
    let links = extract_links(html, &base, "example.com", true);
    assert_eq!(links.len(), 1);
    assert!(links[0].href.contains("example.com"));
}

#[test]
fn normalization_lowercases_and_drops_fragment() {
    let url = UrlInfo::parse("HTTPS://Example.COM/Docs/#top").unwrap();
    assert_eq!(normalize_url_str(&url), "https://example.com/docs");
}

#[test]
fn links_skip_mail_tel_and_fragments_and_keep_order() {
    let base = UrlInfo::parse("https://example.com/a/").unwrap();
    let html = r##"<a href="#x">f</a><a href="mailto:a@b.c">m</a><a href="tel:1">t</a>
        <a href="  b.html#frag ">b</a><a href="ftp://example.com/x">ftp</a><a>none</a>
        <a href="https://other.com/">o</a>"##;
    let links = extract_links(html, &base, "example.com", false);
    let urls: Vec<String> = links.iter().map(|u| u.href.clone()).collect();
    assert_eq!(urls, vec!["https://example.com/a/b.html".to_string(), "https://other.com/".to_string()]);
}

fn config(seed: &str) -> CrawlConfig {
    let mut c = CrawlConfig::new();
    c.seed_url = seed.to_string();
    c
}

#[test]
fn crawl_refuses_bad_seeds() {
    assert_eq!(Crawler::start(config("not a url")).err().unwrap(), "无法解析种子 URL: not a url");
    assert_eq!(
        Crawler::start(config("ftp://example.com/")).err().unwrap(),
        "种子 URL 必须以 http:// 或 https:// 开头，当前为: ftp://example.com/"
    );
}

fn page(url: &str, title: &str, html: &str) -> WebPage {
    WebPage { url: url.to_string(), title: title.to_string(), html_content: html.to_string(), status_code: 200 }
}

#[test]
fn crawl_walks_breadth_first() {
    let mut cfg = config("https://example.com/");
    cfg.max_depth = 1;
    let mut c = Crawler::start(cfg).unwrap();
    // robots.txt first
    match c.next_action() {
        CrawlAction::FetchRobots { domain, robots_url } => {
            assert_eq!(domain, "example.com");
            assert_eq!(robots_url, "https://example.com/robots.txt");
            c.robots_fetched(domain, Some(200), Some("User-agent: *\nDisallow: /private\n".to_string()));
        }
        other => panic!("unexpected {:?}", other),
    }
    // then the seed, without waiting
    match c.next_action() {
        CrawlAction::Fetch { url, depth, wait_ms } => {
            assert_eq!(url.href, "https://example.com/");
            assert_eq!(depth, 0);
            assert_eq!(wait_ms, None);
        }
        other => panic!("unexpected {:?}", other),
    }
    c.page_fetched(Ok(page(
        "https://example.com/",
        "Home",
        r#"<html><body><p>welcome</p><a href="/a">a</a><a href="/private/x">p</a><a href="https://other.org/">o</a><a href="/">self</a></body></html>"#,
    )));
    assert_eq!(c.pages.len(), 1);
    assert_eq!(c.pages[0].depth, 0);
    assert!(c.pages[0].content.contains("welcome"));
    assert_eq!(c.logs.last().unwrap(), "OK [depth=0] Home — https://example.com/");
    // /a is next, after the delay
    match c.next_action() {
        CrawlAction::Fetch { url, depth, wait_ms } => {
            assert_eq!(url.href, "https://example.com/a");
            assert_eq!(depth, 1);
            assert_eq!(wait_ms, Some(1000));
        }
        other => panic!("unexpected {:?}", other),
    }
    c.page_fetched(Err("timeout".to_string()));
    assert_eq!(c.logs.last().unwrap(), "FAIL [抓取] https://example.com/a — timeout");
    // /private/x is refused by robots.txt; the seed again is passed over
    match c.next_action() {
        CrawlAction::Finished => {}
        other => panic!("unexpected {:?}", other),
    }
    assert!(c.logs.contains(&"SKIP [robots.txt] https://example.com/private/x".to_string()));
    let r = c.finish();
    assert_eq!(r.seed_url, "https://example.com/");
    assert_eq!(r.pages_crawled, 1);
    assert_eq!(r.pages_skipped, 2);
}

#[test]
fn crawl_stops_at_page_limit_and_skips_redirect_duplicates() {
    let mut cfg = config("https://example.com/");
    cfg.max_pages = 1;
    cfg.respect_robots_txt = false;
    let mut c = Crawler::start(cfg).unwrap();
    assert!(matches!(c.next_action(), CrawlAction::Fetch { .. }));
    c.page_fetched(Ok(page("https://example.com/", "", r#"<a href="/next">n</a>"#)));
    assert_eq!(c.logs.last().unwrap(), "OK [depth=0] (无标题) — https://example.com/");
    assert!(matches!(c.next_action(), CrawlAction::Finished));
    assert_eq!(c.logs.last().unwrap(), "INFO 已达到最大页数限制(1)，停止爬取");

    let mut cfg = config("https://example.com/");
    cfg.respect_robots_txt = false;
    let mut c = Crawler::start(cfg).unwrap();
    assert!(matches!(c.next_action(), CrawlAction::Fetch { .. }));
    c.page_fetched(Ok(page("https://example.com/", "Home", r#"<a href="/old">old</a>"#)));
    assert!(matches!(c.next_action(), CrawlAction::Fetch { .. }));
    c.page_fetched(Ok(page("https://example.com/", "Home", "")));
    assert_eq!(c.logs.last().unwrap(), "SKIP [重定向去重] https://example.com/old → https://example.com/");
    assert_eq!(c.skipped, 1);
}

#[test]
fn robots_lines_are_cut_where_the_parser_stops() {
    let short = "User-agent: *\nDisallow: /private\n";
    assert_eq!(robots_cut_body(short), short);
    let long = format!("{}éé\nDisallow: /\n", "a".repeat(16662));
    assert_eq!(robots_cut_body(&long), format!("{}é\nDisallow: /\n", "a".repeat(16662)));
    let ascii = format!("{}bb\r\nx", "a".repeat(16663));
    assert_eq!(robots_cut_body(&ascii), format!("{}\r\nx", "a".repeat(16663)));
}

#[test]
fn an_overlong_robots_line_still_lets_the_rules_apply() {
    let mut c = Crawler::start(config("https://example.com/")).unwrap();
    match c.next_action() {
        CrawlAction::FetchRobots { domain, .. } => {
            let body = format!("#{}ééé\nUser-agent: *\nDisallow: /\n", "a".repeat(16662));
            c.robots_fetched(domain, Some(200), Some(body));
        }
        _ => panic!("robots.txt comes first"),
    }
    assert!(matches!(c.next_action(), CrawlAction::Finished));
    assert!(c.logs.iter().any(|l| l.starts_with("SKIP [robots.txt]")));
}
