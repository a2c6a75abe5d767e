use xuflow_core::extract::{extract_content, ExtractMode};
use xuflow_core::fetch::{content_type_charset, decode_html};
use xuflow_core::web::{
    check_content_type, check_query, check_url, crawl_config, fetch_max_chars, fetch_mode,
    fetch_report, format_crawl_result, format_search, http_status_error, snippet_of, user_agent_of,
    CrawlResult, CrawledPage, FetchOptions, SearchItem, WebPage,
};

#[test]
fn charset_comes_from_the_header() {
    assert_eq!(content_type_charset("text/html; charset=GBK"), Some("GBK".to_string()));
    assert_eq!(content_type_charset("text/html; Charset=\"utf-8\""), Some("utf-8".to_string()));
    assert_eq!(content_type_charset("text/html;x=1; charset='big5' "), Some("big5".to_string()));
    assert_eq!(content_type_charset("text/html"), None);
    assert_eq!(content_type_charset("charset=utf-8"), None);
}

#[test]
fn pages_are_decoded_by_declared_charset_bom_utf8_or_legacy() {
    let gbk = [0xD6u8, 0xD0, 0xCE, 0xC4];
    assert_eq!(decode_html(&gbk, "text/html; charset=GBK").unwrap(), "中文");
    // not UTF-8, no header: the legacy encodings are tried
    assert_eq!(decode_html(&gbk, "text/html").unwrap(), "中文");
    assert_eq!(decode_html("héllo".as_bytes(), "").unwrap(), "héllo");
    assert_eq!(decode_html(&[0xEF, 0xBB, 0xBF, b'h', b'i'], "").unwrap(), "hi");
}

#[test]
fn fetch_arguments() {
    assert!(check_url(Some("https://a.b")).is_ok());
    assert!(check_url(Some("http://a.b")).is_ok());
    let e = check_url(Some("ftp://a.b")).unwrap_err();
    assert_eq!(e.error.as_deref(), Some("URL 必须以 http:// 或 https:// 开头"));
    let e = check_url(None).unwrap_err();
    assert_eq!(e.error.as_deref(), Some("缺少必填参数: url"));
    assert_eq!(fetch_mode(Some("text")), ExtractMode::Text);
    assert_eq!(fetch_mode(Some("other")), ExtractMode::Readability);
    assert_eq!(fetch_mode(None), ExtractMode::Readability);
    assert_eq!(fetch_max_chars(None), 30_000);
    assert_eq!(fetch_max_chars(Some(12)), 12);
    let opts = FetchOptions::new();
    assert_eq!(opts.timeout_secs, 30);
    assert_eq!(user_agent_of(&opts), "Xuflow/0.1 (AI agent)");
    let custom = FetchOptions { timeout_secs: 5, max_chars: 0, user_agent: Some("bot".into()) };
    assert_eq!(user_agent_of(&custom), "bot");
}

#[test]
fn content_types_and_status() {
    assert_eq!(check_content_type("text/html; charset=utf-8"), None);
    assert_eq!(check_content_type(""), None);
    assert_eq!(check_content_type("application/xhtml+xml"), None);
    assert_eq!(
        check_content_type("image/png"),
        Some("不支持的内容类型: image/png. 仅处理 HTML 页面。".to_string())
    );
    assert_eq!(http_status_error(404, Some("Not Found")), "HTTP 404 Not Found");
    assert_eq!(http_status_error(599, None), "HTTP 599 未知状态码");
}

#[test]
fn fetched_pages_are_reported() {
    let page = WebPage {
        url: "https://a.b/".into(),
        title: "T".into(),
        html_content: "<html><body><p>hi</p></body></html>".into(),
        status_code: 200,
    };
    let body = extract_content(&page.html_content, ExtractMode::Text, 0);
    assert!(body.contains("hi"));
    let r = fetch_report(&page, ExtractMode::Text, 0);
    assert!(r.success);
    assert_eq!(r.content, format!("# T\n\nURL: https://a.b/\n\n{}", body));
    let untitled = WebPage { title: String::new(), ..page };
    assert_eq!(fetch_report(&untitled, ExtractMode::Text, 0).content, format!("URL: https://a.b/\n\n{}", body));
}

#[test]
fn crawl_settings_are_capped() {
    let c = crawl_config("https://a.b", Some(50), Some(500), Some(false), Some(100));
    assert_eq!(c.seed_url, "https://a.b");
    assert_eq!(c.max_depth, 10);
    assert_eq!(c.max_pages, 100);
    assert!(!c.same_domain_only);
    assert_eq!(c.max_chars_per_page, 100);
    let d = crawl_config("https://a.b", None, None, None, None);
    assert_eq!((d.max_depth, d.max_pages, d.same_domain_only, d.max_chars_per_page), (3, 20, true, 5000));
    assert!(d.respect_robots_txt);
}

#[test]
fn crawl_results_are_formatted() {
    let r = CrawlResult {
        seed_url: "https://a.b".into(),
        pages_crawled: 1,
        pages_skipped: 0,
        pages: vec![CrawledPage { url: "https://a.b/".into(), title: String::new(), content: "body".into(), depth: 0 }],
        logs: vec!["OK".into()],
    };
    assert_eq!(
        format_crawl_result(&r),
        "## 网页爬取结果\n\n**种子 URL:** https://a.b\n**成功抓取:** 1 页 | **跳过/失败:** 0 页\n\n### 抓取日志\n\n- OK\n\n---\n\n### 页面 1: (无标题) (depth=0)\n**URL:** https://a.b/\n\nbody\n\n---\n\n"
    );
    let empty = CrawlResult { seed_url: "s".into(), pages_crawled: 0, pages_skipped: 2, pages: vec![], logs: vec![] };
    assert!(format_crawl_result(&empty).ends_with("### ⚠️ 未抓取到任何页面\n\n可能原因：种子 URL 不可达、所有链接被 robots.txt 拦截、超出深度/数量限制。"));
}

#[test]
fn searches() {
    assert!(check_query(Some("rust")).is_ok());
    assert_eq!(check_query(Some("   ")).unwrap_err().error.as_deref(), Some("搜索关键词不能为空"));
    assert_eq!(check_query(None).unwrap_err().error.as_deref(), Some("缺少必填参数: query"));
    let items = vec![SearchItem { title: "R".into(), url: "u".into(), snippet: "s".into(), relevance: "90".into(), content: "c".into() }];
    assert_eq!(
        format_search("q", Some("A"), &items),
        "搜索: \"q\"\n\n## 摘要\n\nA\n\n## 搜索结果（共 1 条）\n\n### 1. R\n- URL: u\n- 相关度: 90%\n\nc\n\n"
    );
    assert_eq!(format_search("q", Some(""), &vec![]), "搜索: \"q\"\n\n## 搜索结果（共 0 条）\n\n未找到相关结果。");
}

#[test]
fn snippets_fall_back_to_the_content() {
    assert_eq!(snippet_of(Some("short".into()), "long text"), "short");
    assert_eq!(snippet_of(None, "正文"), "正文");
    let long = "字".repeat(250);
    assert_eq!(snippet_of(None, &long), "字".repeat(200));
}
