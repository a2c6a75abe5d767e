//! The web tools: `web_fetch`, `web_crawl` and `web_search`, and the types
//! the fetcher and the crawler share. The requests are the caller's; the
//! argument checks, defaults and reports are decided here.
use vstd::prelude::*;
use crate::text::{chars_of, eq_lit, find, push_all, push_str, starts_with, starts_with_chars, str_views, string_of, trim, trim_chars};
use crate::num::{dec, dec_chars};
use crate::extract::{ExtractMode, extracted, parsed_dom, extract_content};
use crate::tool::{ToolResult, ResultV, ok_v, err_v};

verus! {

// ─── Shared types ──────────────────────────────────────────────────────

/// Options of one page fetch.
#[derive(Debug)]
pub struct FetchOptions {
    /// Request timeout in seconds (30 by default).
    pub timeout_secs: u64,
    /// Limit of the returned text (30 000 by default).
    pub max_chars: usize,
    /// A user agent other than the default one.
    pub user_agent: Option<String>,
}

impl FetchOptions {
    /// The default options.
    pub fn new() -> (r: FetchOptions)
        ensures
            r.timeout_secs == 30,
            r.max_chars == 30_000,
            r.user_agent is None,
    {
        FetchOptions { timeout_secs: 30, max_chars: 30_000, user_agent: None }
    }
}

/// A fetched page.
#[derive(Debug)]
pub struct WebPage {
    pub url: String,
    pub title: String,
    pub html_content: String,
    pub status_code: u16,
}

/// Settings of a breadth-first crawl.
#[derive(Debug)]
pub struct CrawlConfig {
    pub seed_url: String,
    /// Links followed from the seed at most (seed: depth 0).
    pub max_depth: u32,
    /// Pages fetched at most.
    pub max_pages: u32,
    /// Only pages of the seed's host.
    pub same_domain_only: bool,
    /// Obey robots.txt.
    pub respect_robots_txt: bool,
    /// Pause between requests, in milliseconds.
    pub request_delay_ms: u64,
    pub timeout_secs: u64,
    /// Limit of the text kept per page.
    pub max_chars_per_page: usize,
}

impl CrawlConfig {
    /// The default settings (with an empty seed).
    pub fn new() -> (r: CrawlConfig)
        ensures
            r.seed_url@.len() == 0,
            r.max_depth == 3,
            r.max_pages == 20,
            r.same_domain_only,
            r.respect_robots_txt,
            r.request_delay_ms == 1000,
            r.timeout_secs == 30,
            r.max_chars_per_page == 5000,
    {
        CrawlConfig {
            seed_url: String::new(),
            max_depth: 3,
            max_pages: 20,
            same_domain_only: true,
            respect_robots_txt: true,
            request_delay_ms: 1000,
            timeout_secs: 30,
            max_chars_per_page: 5000,
        }
    }
}

/// A crawled page with its extracted text.
#[derive(Debug)]
pub struct CrawledPage {
    pub url: String,
    pub title: String,
    pub content: String,
    /// Links followed from the seed to reach it.
    pub depth: u32,
}

/// The outcome of a crawl.
#[derive(Debug)]
pub struct CrawlResult {
    pub seed_url: String,
    pub pages_crawled: u32,
    pub pages_skipped: u32,
    pub pages: Vec<CrawledPage>,
    pub logs: Vec<String>,
}

// ─── URL arguments ─────────────────────────────────────────────────────

/// Only http and https addresses are fetched.
pub open spec fn web_url(url: Seq<char>) -> bool {
    starts_with(url, "http://"@) || starts_with(url, "https://"@)
}

/// Checks the `url` argument of the web tools.
pub fn check_url(url: Option<&str>) -> (r: Result<(), ToolResult>)
    ensures
        match url {
            None => (r matches Err(t) && t@ == err_v("缺少必填参数: url"@)),
            Some(u) => if web_url(u@) {
                r is Ok
            } else {
                (r matches Err(t) && t@ == err_v("URL 必须以 http:// 或 https:// 开头"@))
            },
        },
{
    match url {
        None => Err(ToolResult::err(String::from_str("缺少必填参数: url"))),
        Some(u) => {
            let c = chars_of(u);
            let a = chars_of("http://");
            let b = chars_of("https://");
            if starts_with_chars(&c, &a) || starts_with_chars(&c, &b) {
                Ok(())
            } else {
                Err(ToolResult::err(String::from_str("URL 必须以 http:// 或 https:// 开头")))
            }
        },
    }
}

// ─── web_fetch ─────────────────────────────────────────────────────────

/// The extraction mode asked for: "text" selects text mode; anything
/// else, or nothing, readability.
pub fn fetch_mode(mode: Option<&str>) -> (r: ExtractMode)
    ensures
        r == (match mode {
            Some(m) => if m@ == "text"@ {
                ExtractMode::Text
            } else {
                ExtractMode::Readability
            },
            None => ExtractMode::Readability,
        }),
{
    match mode {
        Some(m) => {
            let c = chars_of(m);
            if eq_lit(&c, "text") {
                ExtractMode::Text
            } else {
                ExtractMode::Readability
            }
        },
        None => ExtractMode::Readability,
    }
}

/// The text limit asked for (30 000 by default).
pub fn fetch_max_chars(max_chars: Option<u64>) -> (r: usize)
    ensures
        r == (match max_chars {
            Some(v) => v as usize,
            None => 30_000,
        }),
{
    match max_chars {
        Some(v) => v as usize,
        None => 30_000,
    }
}

/// What `web_fetch` shows of a page: "# <title>" and a blank line when
/// there is a title, "URL: <url>" and a blank line, then the extracted
/// text.
pub open spec fn fetched_text(title: Seq<char>, url: Seq<char>, body: Seq<char>) -> Seq<char> {
    (if title.len() > 0 {
        "# "@ + title + "\n\n"@
    } else {
        seq![]
    }) + "URL: "@ + url + "\n\n"@ + body
}

/// The report of a fetched page.
pub fn fetch_report(page: &WebPage, mode: ExtractMode, max_chars: usize) -> (r: ToolResult)
    ensures
        r@ == ok_v(
            fetched_text(
                page.title@,
                page.url@,
                extracted(parsed_dom(page.html_content@), mode, max_chars as int),
            ),
        ),
{
    let mut v: Vec<char> = Vec::new();
    let t = chars_of(page.title.as_str());
    if t.len() > 0 {
        push_str(&mut v, "# ");
        push_all(&mut v, &t);
        push_str(&mut v, "\n\n");
    }
    push_str(&mut v, "URL: ");
    push_str(&mut v, page.url.as_str());
    push_str(&mut v, "\n\n");
    let body = extract_content(page.html_content.as_str(), mode, max_chars);
    push_str(&mut v, body.as_str());
    ToolResult::ok(string_of(&v))
}

/// Whether a response of this content type is read: no content type, or
/// HTML, plain text or XHTML.
pub open spec fn readable_type(ct: Seq<char>) -> bool {
    ct.len() == 0 || find(ct, "text/html"@) is Some || find(ct, "text/plain"@) is Some || find(
        ct,
        "application/xhtml"@,
    ) is Some
}

/// Refuses responses that are not HTML.
pub fn check_content_type(ct: &str) -> (r: Option<String>)
    ensures
        readable_type(ct@) ==> r is None,
        !readable_type(ct@) ==> (r matches Some(e) && e@ == "不支持的内容类型: "@ + ct@ + ". 仅处理 HTML 页面。"@),
{
    let c = chars_of(ct);
    let a = chars_of("text/html");
    let b = chars_of("text/plain");
    let x = chars_of("application/xhtml");
    if c.len() == 0 || crate::text::find_chars(&c, &a).is_some() || crate::text::find_chars(&c, &b).is_some()
        || crate::text::find_chars(&c, &x).is_some() {
        None
    } else {
        let mut v: Vec<char> = Vec::new();
        push_str(&mut v, "不支持的内容类型: ");
        push_all(&mut v, &c);
        push_str(&mut v, ". 仅处理 HTML 页面。");
        Some(string_of(&v))
    }
}

/// The error for a response that is not a success: "HTTP <code> <reason>"
/// ("未知状态码" when the status has no reason phrase).
pub fn http_status_error(code: u16, reason: Option<&str>) -> (r: String)
    ensures
        r@ == "HTTP "@ + dec(code as nat) + " "@ + match reason {
            Some(s) => s@,
            None => "未知状态码"@,
        },
{
    let mut v: Vec<char> = Vec::new();
    push_str(&mut v, "HTTP ");
    let d = dec_chars(code as u64);
    push_all(&mut v, &d);
    push_str(&mut v, " ");
    match reason {
        Some(s) => push_str(&mut v, s),
        None => push_str(&mut v, "未知状态码"),
    }
    string_of(&v)
}

/// The user agent of a fetch: the one configured, or the default one.
pub fn user_agent_of(opts: &FetchOptions) -> (r: &str)
    ensures
        r@ == match opts.user_agent {
            Some(u) => u@,
            None => "Xuflow/0.1 (AI agent)"@,
        },
{
    match &opts.user_agent {
        Some(u) => u.as_str(),
        None => "Xuflow/0.1 (AI agent)",
    }
}

// ─── web_crawl ─────────────────────────────────────────────────────────

/// The crawl asked for by the tool's arguments: depth at most 10 (3 by
/// default), pages at most 100 (20 by default), same host by default,
/// 5000 characters per page by default; the other settings are the
/// defaults. Numbers are first taken as `u32` (`as u32`).
pub fn crawl_config(url: &str, max_depth: Option<u64>, max_pages: Option<u64>, same_domain_only: Option<bool>, max_chars_per_page: Option<u64>) -> (r: CrawlConfig)
    ensures
        r.seed_url@ == url@,
        r.max_depth == match max_depth {
            Some(v) => if (v as u32) < 10 { v as u32 } else { 10 },
            None => 3,
        },
        r.max_pages == match max_pages {
            Some(v) => if (v as u32) < 100 { v as u32 } else { 100 },
            None => 20,
        },
        r.same_domain_only == match same_domain_only {
            Some(b) => b,
            None => true,
        },
        r.max_chars_per_page == match max_chars_per_page {
            Some(v) => v as usize,
            None => 5000,
        },
        r.respect_robots_txt,
        r.request_delay_ms == 1000,
        r.timeout_secs == 30,
{
    let depth = match max_depth {
        Some(v) => {
            let d = v as u32;
            if d < 10 {
                d
            } else {
                10
            }
        },
        None => 3,
    };
    let pages = match max_pages {
        Some(v) => {
            let p = v as u32;
            if p < 100 {
                p
            } else {
                100
            }
        },
        None => 20,
    };
    let mut c = CrawlConfig::new();
    c.seed_url = String::from_str(url);
    c.max_depth = depth;
    c.max_pages = pages;
    c.same_domain_only = match same_domain_only {
        Some(b) => b,
        None => true,
    };
    c.max_chars_per_page = match max_chars_per_page {
        Some(v) => v as usize,
        None => 5000,
    };
    c
}

pub open spec fn page_block(i: nat, p: CrawledPage) -> Seq<char> {
    "### 页面 "@ + dec(i + 1) + ": "@ + (if p.title@.len() == 0 {
        "(无标题)"@
    } else {
        p.title@
    }) + " (depth="@ + dec(p.depth as nat) + ")\n**URL:** "@ + p.url@ + "\n\n"@ + p.content@
        + "\n\n---\n\n"@
}

pub open spec fn page_blocks(pages: Seq<CrawledPage>) -> Seq<char>
    decreases pages.len(),
{
    if pages.len() == 0 {
        seq![]
    } else {
        page_blocks(pages.drop_last()) + page_block((pages.len() - 1) as nat, pages.last())
    }
}

pub open spec fn log_lines(logs: Seq<Seq<char>>) -> Seq<char>
    decreases logs.len(),
{
    if logs.len() == 0 {
        seq![]
    } else {
        log_lines(logs.drop_last()) + "- "@ + logs.last() + "\n"@
    }
}

/// A crawl as the model reads it: a summary, the log, then each page.
pub open spec fn crawl_report(r: CrawlResult) -> Seq<char> {
    "## 网页爬取结果\n\n**种子 URL:** "@ + r.seed_url@ + "\n**成功抓取:** "@ + dec(r.pages_crawled as nat)
        + " 页 | **跳过/失败:** "@ + dec(r.pages_skipped as nat) + " 页\n\n"@ + (if r.logs@.len()
        > 0 {
        "### 抓取日志\n\n"@ + log_lines(str_views(r.logs@)) + "\n"@
    } else {
        seq![]
    }) + (if r.pages@.len() == 0 {
        "### ⚠️ 未抓取到任何页面\n\n可能原因：种子 URL 不可达、所有链接被 robots.txt 拦截、超出深度/数量限制。"@
    } else {
        "---\n\n"@ + page_blocks(r.pages@)
    })
}

fn page_block_chars(i: usize, p: &CrawledPage) -> (r: Vec<char>)
    requires
        i < usize::MAX,
    ensures
        r@ == page_block(i as nat, *p),
{
    let mut v: Vec<char> = Vec::new();
    push_str(&mut v, "### 页面 ");
    let d = dec_chars((i as u64) + 1);
    push_all(&mut v, &d);
    push_str(&mut v, ": ");
    let t = chars_of(p.title.as_str());
    if t.len() == 0 {
        push_str(&mut v, "(无标题)");
    } else {
        push_all(&mut v, &t);
    }
    push_str(&mut v, " (depth=");
    let d = dec_chars(p.depth as u64);
    push_all(&mut v, &d);
    push_str(&mut v, ")\n**URL:** ");
    push_str(&mut v, p.url.as_str());
    push_str(&mut v, "\n\n");
    push_str(&mut v, p.content.as_str());
    push_str(&mut v, "\n\n---\n\n");
    v
}

/// Formats a crawl as Markdown.
pub fn format_crawl_result(result: &CrawlResult) -> (r: String)
    ensures
        r@ == crawl_report(*result),
{
    let mut v: Vec<char> = Vec::new();
    push_str(&mut v, "## 网页爬取结果\n\n**种子 URL:** ");
    push_str(&mut v, result.seed_url.as_str());
    push_str(&mut v, "\n**成功抓取:** ");
    let d = dec_chars(result.pages_crawled as u64);
    push_all(&mut v, &d);
    push_str(&mut v, " 页 | **跳过/失败:** ");
    let d = dec_chars(result.pages_skipped as u64);
    push_all(&mut v, &d);
    push_str(&mut v, " 页\n\n");
    let ghost head = v@;
    let mut logs: Vec<char> = Vec::new();
    if result.logs.len() > 0 {
        push_str(&mut logs, "### 抓取日志\n\n");
        let ghost l0 = logs@;
        let ghost lv = str_views(result.logs@);
        let mut i: usize = 0;
        while i < result.logs.len()
            invariant
                i <= result.logs@.len(),
                lv == str_views(result.logs@),
                logs@ == l0 + log_lines(lv.take(i as int)),
            decreases result.logs@.len() - i,
        {
            assert(lv.take(i + 1).drop_last() =~= lv.take(i as int));
            push_str(&mut logs, "- ");
            push_str(&mut logs, result.logs[i].as_str());
            push_str(&mut logs, "\n");
            i = i + 1;
            assert(logs@ =~= l0 + log_lines(lv.take(i as int)));
        }
        assert(lv.take(i as int) =~= lv);
        push_str(&mut logs, "\n");
    }
    push_all(&mut v, &logs);
    if result.pages.len() == 0 {
        push_str(&mut v, "### ⚠️ 未抓取到任何页面\n\n可能原因：种子 URL 不可达、所有链接被 robots.txt 拦截、超出深度/数量限制。");
    } else {
        push_str(&mut v, "---\n\n");
        let ghost v0 = v@;
        let ghost pv = result.pages@;
        let mut i: usize = 0;
        while i < result.pages.len()
            invariant
                i <= result.pages@.len(),
                pv == result.pages@,
                v@ == v0 + page_blocks(pv.take(i as int)),
            decreases result.pages@.len() - i,
        {
            assert(pv.take(i + 1).drop_last() =~= pv.take(i as int));
            let b = page_block_chars(i, &result.pages[i]);
            push_all(&mut v, &b);
            i = i + 1;
            assert(v@ =~= v0 + page_blocks(pv.take(i as int)));
        }
        assert(pv.take(i as int) =~= pv);
    }
    string_of(&v)
}

// ─── web_search ────────────────────────────────────────────────────────

/// One search result as shown: the relevance is already rendered in
/// percent (a rounded score); the snippet is the service's short summary.
pub struct SearchItem {
    pub title: String,
    pub url: String,
    pub snippet: String,
    pub relevance: String,
    pub content: String,
}

/// A result's snippet: the one the service sent, or else the first 200
/// characters of its content.
pub fn snippet_of(snippet: Option<String>, content: &str) -> (r: String)
    ensures
        r@ == (match snippet {
            Some(s) => s@,
            None => content@.take(if content@.len() < 200 { content@.len() as int } else { 200 }),
        }),
{
    match snippet {
        Some(s) => s,
        None => {
            let c = chars_of(content);
            let n = if c.len() < 200 { c.len() } else { 200 };
            let cut = crate::text::slice_of(&c, 0, n);
            string_of(&cut)
        },
    }
}

/// Checks the `query` argument of `web_search`.
pub fn check_query(query: Option<&str>) -> (r: Result<(), ToolResult>)
    ensures
        match query {
            None => (r matches Err(t) && t@ == err_v("缺少必填参数: query"@)),
            Some(q) => if trim(q@).len() == 0 {
                (r matches Err(t) && t@ == err_v("搜索关键词不能为空"@))
            } else {
                r is Ok
            },
        },
{
    match query {
        None => Err(ToolResult::err(String::from_str("缺少必填参数: query"))),
        Some(q) => {
            let c = chars_of(q);
            let t = trim_chars(&c);
            if t.len() == 0 {
                Err(ToolResult::err(String::from_str("搜索关键词不能为空")))
            } else {
                Ok(())
            }
        },
    }
}

pub open spec fn search_block(i: nat, r: SearchItem) -> Seq<char> {
    "### "@ + dec(i + 1) + ". "@ + r.title@ + "\n- URL: "@ + r.url@ + "\n- 相关度: "@ + r.relevance@
        + "%\n\n"@ + r.content@ + "\n\n"@
}

pub open spec fn search_blocks(items: Seq<SearchItem>) -> Seq<char>
    decreases items.len(),
{
    if items.len() == 0 {
        seq![]
    } else {
        search_blocks(items.drop_last()) + search_block((items.len() - 1) as nat, items.last())
    }
}

/// The search report: the query, the engine's answer when there is one,
/// then the results.
pub open spec fn search_report(query: Seq<char>, answer: Option<Seq<char>>, items: Seq<SearchItem>) -> Seq<char> {
    "搜索: \""@ + query + "\"\n\n"@ + (match answer {
        Some(a) => if a.len() > 0 {
            "## 摘要\n\n"@ + a + "\n\n"@
        } else {
            seq![]
        },
        None => seq![],
    }) + "## 搜索结果（共 "@ + dec(items.len()) + " 条）\n\n"@ + search_blocks(items) + (if items.len()
        == 0 {
        "未找到相关结果。"@
    } else {
        seq![]
    })
}

fn search_block_chars(i: usize, it: &SearchItem) -> (r: Vec<char>)
    requires
        i < usize::MAX,
    ensures
        r@ == search_block(i as nat, *it),
{
    let mut v: Vec<char> = Vec::new();
    push_str(&mut v, "### ");
    let d = dec_chars((i as u64) + 1);
    push_all(&mut v, &d);
    push_str(&mut v, ". ");
    push_str(&mut v, it.title.as_str());
    push_str(&mut v, "\n- URL: ");
    push_str(&mut v, it.url.as_str());
    push_str(&mut v, "\n- 相关度: ");
    push_str(&mut v, it.relevance.as_str());
    push_str(&mut v, "%\n\n");
    push_str(&mut v, it.content.as_str());
    push_str(&mut v, "\n\n");
    v
}

/// Formats the results of a search.
pub fn format_search(query: &str, answer: Option<&str>, items: &Vec<SearchItem>) -> (r: String)
    ensures
        r@ == search_report(
            query@,
            match answer {
                Some(a) => Some(a@),
                None => None,
            },
            items@,
        ),
{
    let mut v: Vec<char> = Vec::new();
    push_str(&mut v, "搜索: \"");
    push_str(&mut v, query);
    push_str(&mut v, "\"\n\n");
    match answer {
        Some(a) => {
            let ac = chars_of(a);
            if ac.len() > 0 {
                push_str(&mut v, "## 摘要\n\n");
                push_all(&mut v, &ac);
                push_str(&mut v, "\n\n");
            }
        },
        None => {},
    }
    push_str(&mut v, "## 搜索结果（共 ");
    let d = dec_chars(items.len() as u64);
    push_all(&mut v, &d);
    push_str(&mut v, " 条）\n\n");
    let ghost v0 = v@;
    let ghost iv = items@;
    let mut i: usize = 0;
    while i < items.len()
        invariant
            i <= items@.len(),
            iv == items@,
            v@ == v0 + search_blocks(iv.take(i as int)),
        decreases items@.len() - i,
    {
        assert(iv.take(i + 1).drop_last() =~= iv.take(i as int));
        let b = search_block_chars(i, &items[i]);
        push_all(&mut v, &b);
        i = i + 1;
        assert(v@ =~= v0 + search_blocks(iv.take(i as int)));
    }
    assert(iv.take(i as int) =~= iv);
    if items.len() == 0 {
        push_str(&mut v, "未找到相关结果。");
    }
    string_of(&v)
}

/// Fetches one page and extracts its text.
pub struct WebFetchTool;

/// Crawls a site breadth-first.
pub struct WebCrawlTool;

/// Searches the web.
pub struct WebSearchTool;

impl WebFetchTool {
    /// The description shown to the model.
    pub fn description(&self) -> (r: &'static str)
        ensures
            r@ == "抓取网页并提取正文文本内容（自动编码检测 + 噪音剔除）"@,
    {
        "抓取网页并提取正文文本内容（自动编码检测 + 噪音剔除）"
    }

    pub fn name(&self) -> (r: &'static str)
        ensures
            r@ == "web_fetch"@,
    {
        "web_fetch"
    }

    pub fn is_dangerous(&self) -> (r: bool)
        ensures
            !r,
    {
        false
    }
}

impl WebCrawlTool {
    /// The description shown to the model.
    pub fn description(&self) -> (r: &'static str)
        ensures
            r@ == "爬取网站，从种子 URL 出发按 BFS 抓取多个同域页面并提取正文（遵守 robots.txt）"@,
    {
        "爬取网站，从种子 URL 出发按 BFS 抓取多个同域页面并提取正文（遵守 robots.txt）"
    }

    pub fn name(&self) -> (r: &'static str)
        ensures
            r@ == "web_crawl"@,
    {
        "web_crawl"
    }

    pub fn is_dangerous(&self) -> (r: bool)
        ensures
            !r,
    {
        false
    }
}

impl WebSearchTool {
    /// The description shown to the model.
    pub fn description(&self) -> (r: &'static str)
        ensures
            r@ == "搜索互联网，返回带正文内容的结果列表（通过 Tavily API）"@,
    {
        "搜索互联网，返回带正文内容的结果列表（通过 Tavily API）"
    }

    pub fn name(&self) -> (r: &'static str)
        ensures
            r@ == "web_search"@,
    {
        "web_search"
    }

    pub fn is_dangerous(&self) -> (r: bool)
        ensures
            !r,
    {
        false
    }
}

} // verus!
