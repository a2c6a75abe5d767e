//! The breadth-first web crawler.
//!
//! From the seed URL, pages are taken from a queue in order: a page already
//! seen (after normalising its URL), beyond the depth limit, on another
//! host (when only the seed's host is crawled) or refused by the site's
//! robots.txt is skipped; otherwise it is fetched, its text extracted and
//! its links queued one level deeper. The crawl stops when the queue is
//! empty or enough pages were crawled. A failed page does not stop it.
//! The network is the caller's: the crawler says what to fetch next and is
//! told what came back.
use vstd::prelude::*;
use crate::text::{chars_of, eq_lit, push_all, push_str, starts_with, starts_with_chars, str_views, string_of, trim, trim_chars, to_lowercase, lowercase};
use crate::num::{dec, dec_chars};
use crate::extract::{DomNode, DomEvent, Ev, NodeV, node_views, parsed_dom, parse_document, ExtractMode, extract_content};
use crate::web::{CrawlConfig, CrawledPage, CrawlResult, WebPage};

verus! {

// ─── URLs ──────────────────────────────────────────────────────────────

/// A parsed URL: its serialization, scheme and host.
#[derive(Debug)]
pub struct UrlInfo {
    pub href: String,
    pub scheme: String,
    pub host: Option<String>,
}

pub type UrlV = (Seq<char>, Seq<char>, Option<Seq<char>>);

impl View for UrlInfo {
    type V = UrlV;

    open spec fn view(&self) -> UrlV {
        (self.href@, self.scheme@, match self.host {
            Some(h) => Some(h@),
            None => None,
        })
    }
}

/// What `url::Url::parse` makes of a string.
pub uninterp spec fn url_parse_result(s: Seq<char>) -> Option<UrlV>;

/// What `Url::join` makes of a relative reference against a base (the
/// base parsed first).
pub uninterp spec fn url_join_result(base: Seq<char>, reference: Seq<char>) -> Option<UrlV>;

/// A URL (parsed from its serialization) without its fragment
/// (`Url::set_fragment(None)`): the URL and its path.
pub uninterp spec fn url_unfragmented(s: Seq<char>) -> Option<(UrlV, Seq<char>)>;

/// A URL (parsed from its serialization) with another path
/// (`Url::set_path`): its serialization.
pub uninterp spec fn url_with_path(s: Seq<char>, path: Seq<char>) -> Option<Seq<char>>;

/// Whether robots.txt rules let a user agent fetch a URL
/// (`robotstxt::DefaultMatcher::one_agent_allowed_by_robots`).
pub uninterp spec fn robots_allowed(body: Seq<char>, agent: Seq<char>, url: Seq<char>) -> bool;

/// Parses a URL with `url::Url::parse`; the result is named, not described.
#[verifier::external_body]
fn parse_url(s: &str) -> (r: Option<UrlInfo>)
    ensures
        match r {
            Some(u) => url_parse_result(s@) == Some(u@),
            None => url_parse_result(s@) is None,
        },
{
    let u = url::Url::parse(s).ok()?;
    Some(UrlInfo { href: u.as_str().to_string(), scheme: u.scheme().to_string(), host: u.host_str().map(String::from) })
}

/// Resolves a reference against a base URL with `Url::join`.
#[verifier::external_body]
fn join_url(base: &str, reference: &str) -> (r: Option<UrlInfo>)
    ensures
        match r {
            Some(u) => url_join_result(base@, reference@) == Some(u@),
            None => url_join_result(base@, reference@) is None,
        },
{
    let u = url::Url::parse(base).ok()?.join(reference).ok()?;
    Some(UrlInfo { href: u.as_str().to_string(), scheme: u.scheme().to_string(), host: u.host_str().map(String::from) })
}

/// Drops the fragment of a URL with `Url::set_fragment(None)`.
#[verifier::external_body]
fn without_fragment(s: &str) -> (r: Option<(UrlInfo, String)>)
    ensures
        match r {
            Some((u, p)) => url_unfragmented(s@) == Some((u@, p@)),
            None => url_unfragmented(s@) is None,
        },
{
    let mut u = url::Url::parse(s).ok()?;
    u.set_fragment(None);
    Some((UrlInfo { href: u.as_str().to_string(), scheme: u.scheme().to_string(), host: u.host_str().map(String::from) }, u.path().to_string()))
}

/// Replaces the path of a URL with `Url::set_path`.
#[verifier::external_body]
fn replace_path(s: &str, path: &str) -> (r: Option<String>)
    ensures
        match r {
            Some(t) => url_with_path(s@, path@) == Some(t@),
            None => url_with_path(s@, path@) is None,
        },
{
    let mut u = url::Url::parse(s).ok()?;
    u.set_path(path);
    Some(u.as_str().to_string())
}

/// How many bytes of a line robotstxt's parser reads: it drops a line's
/// characters once this many bytes of it are read. It counts the dropped
/// characters but skips them as if each were one byte, so a body in which a
/// multi-byte character would be dropped can make it cut off a character
/// boundary and panic.
pub const ROBOTS_LINE_LIMIT: usize = 16663;

/// Bytes of UTF-8 since the last line break ('\n' or '\r') at the end of `s`.
pub open spec fn line_run(s: Seq<char>) -> nat
    decreases s.len(),
{
    if s.len() == 0 {
        0
    } else if s.last() == '\n' || s.last() == '\r' {
        0
    } else {
        line_run(s.drop_last()) + crate::extract::utf8_width(s.last())
    }
}

pub open spec fn line_break(c: char) -> bool {
    c == '\n' || c == '\r'
}

/// The parser drops no character of `s`: each character that is not a
/// line break comes before `ROBOTS_LINE_LIMIT` bytes of its line are read.
pub open spec fn robots_lines_fit(s: Seq<char>) -> bool {
    forall|k: int| 0 <= k < s.len() && !line_break(#[trigger] s[k]) ==> line_run(s.take(k)) < ROBOTS_LINE_LIMIT
}

/// A robots.txt body with each line cut where the parser stops reading it:
/// a character is kept when fewer than `ROBOTS_LINE_LIMIT` bytes of its
/// line come before it.
pub open spec fn robots_cut(s: Seq<char>) -> Seq<char>
    decreases s.len(),
{
    if s.len() == 0 {
        seq![]
    } else {
        let p = robots_cut(s.drop_last());
        if line_break(s.last()) || line_run(p) < ROBOTS_LINE_LIMIT {
            p.push(s.last())
        } else {
            p
        }
    }
}

/// A cut body is read whole by the parser.
proof fn lemma_robots_cut_fits(s: Seq<char>)
    ensures
        robots_lines_fit(robots_cut(s)),
    decreases s.len(),
{
    if s.len() > 0 {
        lemma_robots_cut_fits(s.drop_last());
        let p = robots_cut(s.drop_last());
        let r = robots_cut(s);
        if r != p {
            assert(r == p.push(s.last()));
            assert forall|k: int| 0 <= k < r.len() && !line_break(#[trigger] r[k]) implies line_run(r.take(k)) < ROBOTS_LINE_LIMIT by {
                if k < p.len() {
                    assert(r.take(k) =~= p.take(k));
                    assert(r[k] == p[k]);
                } else {
                    assert(r.take(k) =~= p);
                }
            }
        }
    }
}

/// Cuts each line of a robots.txt body where the parser stops reading it.
pub fn robots_cut_body(body: &str) -> (r: String)
    ensures
        r@ == robots_cut(body@),
        robots_lines_fit(r@),
{
    let c = chars_of(body);
    let mut out: Vec<char> = Vec::new();
    let mut run: usize = 0;
    let mut i: usize = 0;
    while i < c.len()
        invariant
            i <= c@.len(),
            c@ == body@,
            out@ == robots_cut(c@.take(i as int)),
            run == line_run(out@),
            run < ROBOTS_LINE_LIMIT + 4,
        decreases c@.len() - i,
    {
        assert(c@.take(i + 1).drop_last() =~= c@.take(i as int));
        let ch = c[i];
        if ch == '\n' || ch == '\r' {
            let ghost before = out@;
            out.push(ch);
            assert(out@.drop_last() =~= before);
            run = 0;
        } else if run < ROBOTS_LINE_LIMIT {
            let u = ch as u32;
            let w: usize = if u < 0x80 {
                1
            } else if u < 0x800 {
                2
            } else if u < 0x10000 {
                3
            } else {
                4
            };
            let ghost before = out@;
            out.push(ch);
            assert(out@.drop_last() =~= before);
            run = run + w;
        }
        i = i + 1;
    }
    assert(c@.take(c@.len() as int) =~= c@);
    proof {
        lemma_robots_cut_fits(body@);
    }
    string_of(&out)
}

/// Asks robots.txt rules whether `agent` may fetch `url`
/// (`DefaultMatcher::one_agent_allowed_by_robots`). The body must be one
/// the parser reads whole (see `robots_lines_fit`); the crawler cuts its
/// lines first, as the parser would.
#[verifier::external_body]
fn robots_allow(body: &str, agent: &str, url: &str) -> (r: bool)
    requires
        robots_lines_fit(body@),
    ensures
        r == robots_allowed(body@, agent@, url@),
{
    robotstxt::DefaultMatcher::default().one_agent_allowed_by_robots(body, agent, url)
}

/// The key under which a URL is remembered: without its fragment, without
/// a trailing '/' on a path longer than "/", all lowercase. (A string that
/// does not parse, which no URL's own serialization is, is only
/// lowercased.)
pub open spec fn url_key(href: Seq<char>) -> Seq<char> {
    match url_unfragmented(href) {
        None => lowercase(href),
        Some((u, path)) => if path.len() > 1 && path.last() == '/' {
            match url_with_path(u.0, path.drop_last()) {
                Some(t) => lowercase(t),
                None => lowercase(u.0),
            }
        } else {
            lowercase(u.0)
        },
    }
}

/// Normalises a URL for the seen-set.
pub fn normalize_url_str(url: &UrlInfo) -> (r: String)
    ensures
        r@ == url_key(url.href@),
{
    match without_fragment(url.href.as_str()) {
        None => to_lowercase(url.href.as_str()),
        Some((u, path)) => {
            let p = chars_of(path.as_str());
            if p.len() > 1 && p[p.len() - 1] == '/' {
                let shorter = crate::text::slice_of(&p, 0, p.len() - 1);
                assert(shorter@ =~= p@.drop_last());
                let s = string_of(&shorter);
                match replace_path(u.href.as_str(), s.as_str()) {
                    Some(t) => to_lowercase(t.as_str()),
                    None => to_lowercase(u.href.as_str()),
                }
            } else {
                to_lowercase(u.href.as_str())
            }
        },
    }
}

/// The lowercased host of a URL ("" without one).
pub open spec fn host_key(u: UrlV) -> Seq<char> {
    match u.2 {
        Some(h) => lowercase(h),
        None => lowercase(seq![]),
    }
}

fn host_lower(u: &UrlInfo) -> (r: String)
    ensures
        r@ == host_key(u@),
{
    match &u.host {
        Some(h) => to_lowercase(h.as_str()),
        None => {
            proof {
                reveal_strlit("");
            }
            assert(""@ =~= Seq::<char>::empty());
            to_lowercase("")
        },
    }
}

// ─── Links ─────────────────────────────────────────────────────────────

/// The `href` of each attached `<a>` element that has one, in the order of
/// `Html::select` (selector `a[href]`).
pub open spec fn link_hrefs(nodes: Seq<NodeV>) -> Seq<Seq<char>>
    decreases nodes.len(),
{
    if nodes.len() == 0 {
        seq![]
    } else {
        let prev = link_hrefs(nodes.drop_last());
        let n = nodes.last();
        if n.attached && n.events.len() > 0 {
            match n.events[0] {
                Ev::Open { name, href, .. } => if name == "a"@ {
                    match href {
                        Some(h) => prev.push(h),
                        None => prev,
                    }
                } else {
                    prev
                },
                _ => prev,
            }
        } else {
            prev
        }
    }
}

/// Links that are never followed: empty, fragment-only, script, mail and
/// telephone links.
pub open spec fn ignored_link(h: Seq<char>) -> bool {
    h.len() == 0 || starts_with(h, "#"@) || starts_with(h, "javascript:"@) || starts_with(
        h,
        "mailto:"@,
    ) || starts_with(h, "tel:"@)
}

/// What a link becomes: resolved against the base, an http(s) URL, on the
/// seed's host when required, without its fragment.
pub open spec fn followed_link(href: Seq<char>, base: Seq<char>, seed_host: Seq<char>, same_host: bool) -> Option<UrlV> {
    let h = trim(href);
    if ignored_link(h) {
        None
    } else {
        match url_join_result(base, h) {
            None => None,
            Some(u) => if u.1 != "http"@ && u.1 != "https"@ {
                None
            } else if same_host && host_key(u) != seed_host {
                None
            } else {
                match url_unfragmented(u.0) {
                    Some((c, _)) => Some(c),
                    None => None,
                }
            },
        }
    }
}

/// The links followed from a page, in order.
pub open spec fn followed_links(hrefs: Seq<Seq<char>>, base: Seq<char>, seed_host: Seq<char>, same_host: bool) -> Seq<UrlV>
    decreases hrefs.len(),
{
    if hrefs.len() == 0 {
        seq![]
    } else {
        let prev = followed_links(hrefs.drop_last(), base, seed_host, same_host);
        match followed_link(hrefs.last(), base, seed_host, same_host) {
            Some(u) => prev.push(u),
            None => prev,
        }
    }
}

pub open spec fn url_views(s: Seq<UrlInfo>) -> Seq<UrlV> {
    s.map_values(|u: UrlInfo| u@)
}

fn collect_hrefs(nodes: &Vec<DomNode>) -> (r: Vec<String>)
    ensures
        str_views(r@) == link_hrefs(node_views(nodes@)),
{
    let ghost nv = node_views(nodes@);
    let mut out: Vec<String> = Vec::new();
    let mut i: usize = 0;
    while i < nodes.len()
        invariant
            i <= nodes@.len(),
            nv == node_views(nodes@),
            str_views(out@) == link_hrefs(nv.take(i as int)),
        decreases nodes@.len() - i,
    {
        assert(nv.take(i + 1).drop_last() =~= nv.take(i as int));
        assert(nv.take(i + 1).last() == nodes@[i as int]@);
        let n = &nodes[i];
        if n.attached && n.events.len() > 0 {
            match &n.events[0] {
                DomEvent::Open { name, href, .. } => {
                    let nc = chars_of(name.as_str());
                    if eq_lit(&nc, "a") {
                        match href {
                            Some(h) => {
                                let ghost before = out@;
                                out.push(h.clone());
                                proof {
                                    crate::text::lemma_str_views_push(before, out@.last());
                                }
                            },
                            None => {},
                        }
                    }
                },
                _ => {},
            }
        }
        i = i + 1;
    }
    assert(nv.take(i as int) =~= nv);
    out
}

fn follow(href: &str, base: &str, seed_host: &str, same_host: bool) -> (r: Option<UrlInfo>)
    ensures
        match r {
            Some(u) => followed_link(href@, base@, seed_host@, same_host) == Some(u@),
            None => followed_link(href@, base@, seed_host@, same_host) is None,
        },
{
    let hc = chars_of(href);
    let h = trim_chars(&hc);
    let hs = chars_of("#");
    let js = chars_of("javascript:");
    let ms = chars_of("mailto:");
    let ts = chars_of("tel:");
    if h.len() == 0 || starts_with_chars(&h, &hs) || starts_with_chars(&h, &js) || starts_with_chars(&h, &ms)
        || starts_with_chars(&h, &ts) {
        return None;
    }
    let hstr = string_of(&h);
    let u = match join_url(base, hstr.as_str()) {
        None => return None,
        Some(u) => u,
    };
    let sc = chars_of(u.scheme.as_str());
    if !eq_lit(&sc, "http") && !eq_lit(&sc, "https") {
        return None;
    }
    if same_host {
        let hl = host_lower(&u);
        if hl != String::from_str(seed_host) {
            return None;
        }
    }
    match without_fragment(u.href.as_str()) {
        Some((c, _)) => Some(c),
        None => None,
    }
}

/// The links of a page to follow: each `<a href>` trimmed; empty,
/// fragment-only, javascript:, mailto: and tel: links left out; resolved
/// against `base`; only http and https; only on the seed's host when
/// `same_host`; without fragment.
pub fn extract_links(html: &str, base: &UrlInfo, seed_host: &str, same_host: bool) -> (r: Vec<UrlInfo>)
    ensures
        url_views(r@) == followed_links(link_hrefs(parsed_dom(html@)), base.href@, seed_host@, same_host),
{
    let nodes = parse_document(html);
    let hrefs = collect_hrefs(&nodes);
    let ghost hv = str_views(hrefs@);
    let mut out: Vec<UrlInfo> = Vec::new();
    let mut i: usize = 0;
    while i < hrefs.len()
        invariant
            i <= hrefs@.len(),
            hv == str_views(hrefs@),
            url_views(out@) == followed_links(hv.take(i as int), base.href@, seed_host@, same_host),
        decreases hrefs@.len() - i,
    {
        assert(hv.take(i + 1).drop_last() =~= hv.take(i as int));
        assert(hv.take(i + 1).last() == hrefs@[i as int]@);
        match follow(hrefs[i].as_str(), base.href.as_str(), seed_host, same_host) {
            Some(u) => {
                let ghost before = out@;
                out.push(u);
                assert(url_views(out@) =~= url_views(before).push(out@.last()@));
            },
            None => {},
        }
        i = i + 1;
    }
    assert(hv.take(i as int) =~= hv);
    out
}

// ─── The crawl ─────────────────────────────────────────────────────────

/// The crawler's user agent in robots.txt rules.
pub const CRAWLER_AGENT: &'static str = "Xuflow";

impl UrlInfo {
    /// A copy of the URL.
    /// Parses a URL (`url::Url::parse`): its serialization, scheme and host.
    pub fn parse(s: &str) -> (r: Option<UrlInfo>)
        ensures
            match r {
                Some(u) => url_parse_result(s@) == Some(u@),
                None => url_parse_result(s@) is None,
            },
    {
        parse_url(s)
    }

    pub fn duplicate(&self) -> (r: UrlInfo)
        ensures
            r@ == self@,
    {
        UrlInfo {
            href: self.href.clone(),
            scheme: self.scheme.clone(),
            host: match &self.host {
                Some(h) => Some(h.clone()),
                None => None,
            },
        }
    }
}

/// The crawl in progress.
pub struct Crawler {
    pub config: CrawlConfig,
    /// The seed's host, lowercased.
    pub seed_host: String,
    /// Normalised URLs of the pages fetched (and the targets of their
    /// redirects).
    pub visited: Vec<String>,
    /// URLs to look at, with their depth; those before `head` are done.
    pub queue: Vec<(UrlInfo, u32)>,
    pub head: usize,
    pub pages: Vec<CrawledPage>,
    pub logs: Vec<String>,
    pub skipped: u64,
    /// robots.txt bodies by host (`None`: none could be fetched).
    pub robots: Vec<(String, Option<String>)>,
    /// The entry handed out for fetching, until its page is reported.
    pub pending: Option<(UrlInfo, u32)>,
    pub finished: bool,
}

/// What the crawler needs next.
#[derive(Debug)]
pub enum CrawlAction {
    /// Fetch `robots_url`, the robots.txt of `domain`, and report it with
    /// `robots_fetched`.
    FetchRobots { domain: String, robots_url: String },
    /// Wait `wait_ms` milliseconds (when given), fetch the page and report
    /// it with `page_fetched`.
    Fetch { url: UrlInfo, depth: u32, wait_ms: Option<u64> },
    /// The crawl is over.
    Finished,
}

/// What to do with a queued URL.
pub enum StepV {
    /// Enough pages: stop.
    Stop,
    /// Seen already, or too deep: drop it silently.
    Pass,
    /// Drop it with this log line.
    Skip(Seq<char>),
    /// robots.txt of this host (with this scheme) is needed first.
    Robots(Seq<char>, Seq<char>),
    /// Fetch it.
    Fetch,
}

pub open spec fn robots_views(s: Seq<(String, Option<String>)>) -> Seq<(Seq<char>, Option<Seq<char>>)> {
    s.map_values(|p: (String, Option<String>)| (p.0@, match p.1 {
        Some(b) => Some(b@),
        None => None,
    }))
}

/// The host part used for robots.txt ("" without a host, not lowercased).
pub open spec fn robots_domain(u: UrlV) -> Seq<char> {
    match u.2 {
        Some(h) => h,
        None => seq![],
    }
}

/// What the crawler does with the queued URL `u` at `depth`.
pub open spec fn step_for(c: Crawler, u: UrlV, depth: u32) -> StepV {
    if c.pages@.len() >= c.config.max_pages {
        StepV::Stop
    } else if str_views(c.visited@).contains(url_key(u.0)) {
        StepV::Pass
    } else if depth > c.config.max_depth {
        StepV::Pass
    } else if c.config.same_domain_only && host_key(u) != c.seed_host@ {
        StepV::Skip("SKIP [跨域] "@ + u.0)
    } else if c.config.respect_robots_txt {
        match crate::mcp::key_index(robots_views(c.robots@), robots_domain(u)) {
            None => StepV::Robots(robots_domain(u), u.1),
            Some(i) => match robots_views(c.robots@)[i].1 {
                Some(body) => if robots_allowed(robots_cut(body), "Xuflow"@, u.0) {
                    StepV::Fetch
                } else {
                    StepV::Skip("SKIP [robots.txt] "@ + u.0)
                },
                None => StepV::Fetch,
            },
        }
    } else {
        StepV::Fetch
    }
}

/// The first entry from `i` on that is not passed over silently or
/// skipped, with the log lines the skipped ones leave.
pub open spec fn scan_queue(c: Crawler, i: int) -> (int, Seq<Seq<char>>)
    decreases c.queue@.len() - i,
{
    if i < 0 || i >= c.queue@.len() {
        (i, seq![])
    } else {
        match step_for(c, c.queue@[i].0@, c.queue@[i].1) {
            StepV::Pass => scan_queue(c, i + 1),
            StepV::Skip(msg) => {
                let r = scan_queue(c, i + 1);
                (r.0, seq![msg] + r.1)
            },
            _ => (i, seq![]),
        }
    }
}

pub open spec fn skips_in(c: Crawler, i: int) -> nat {
    scan_queue(c, i).1.len()
}

/// Where robots.txt of a host is.
pub open spec fn robots_url(domain: Seq<char>, scheme: Seq<char>) -> Seq<char> {
    scheme + "://"@ + domain + "/robots.txt"@
}

fn robots_url_of(domain: &String, scheme: &String) -> (r: String)
    ensures
        r@ == robots_url(domain@, scheme@),
{
    let mut v: Vec<char> = Vec::new();
    push_str(&mut v, scheme.as_str());
    push_str(&mut v, "://");
    push_str(&mut v, domain.as_str());
    push_str(&mut v, "/robots.txt");
    string_of(&v)
}

/// Where the scan from `head` stops.
pub open spec fn next_entry(c: Crawler) -> int {
    scan_queue(c, c.head as int).0
}

/// What is done with the entry where the scan stops (`None`: the queue ran
/// out).
pub open spec fn next_step(c: Crawler) -> Option<StepV> {
    let i = next_entry(c);
    if 0 <= i < c.queue@.len() {
        Some(step_for(c, c.queue@[i].0@, c.queue@[i].1))
    } else {
        None
    }
}

/// The log line left when the page limit stops the crawl.
pub open spec fn stop_note(c: Crawler) -> Seq<Seq<char>> {
    if next_step(c) == Some(StepV::Stop) {
        seq!["INFO 已达到最大页数限制("@ + dec(c.config.max_pages as nat) + ")，停止爬取"@]
    } else {
        seq![]
    }
}

pub open spec fn start_error(seed: Seq<char>) -> Option<Seq<char>> {
    match url_parse_result(seed) {
        None => Some("无法解析种子 URL: "@ + seed),
        Some(u) => if u.1 != "http"@ && u.1 != "https"@ {
            Some("种子 URL 必须以 http:// 或 https:// 开头，当前为: "@ + seed)
        } else {
            None
        },
    }
}

impl Crawler {
    /// Every queue entry before `head` was used at most once: for a page,
    /// or for a skip.
    pub open spec fn wf(&self) -> bool {
        &&& self.head <= self.queue@.len()
        &&& self.skipped + self.pages@.len() + (if self.pending is Some { 1int } else { 0 }) <= self.head
        &&& self.pages@.len() + (if self.pending is Some { 1int } else { 0 }) <= self.config.max_pages
        &&& str_views(self.visited@).no_duplicates()
        &&& crate::mcp::keys_unique(robots_views(self.robots@))
        &&& self.bfs_order()
        &&& self.pages_distinct()
    }

    /// Each page's URL is fetched once: the entry being fetched is not
    /// remembered yet; the key of every page whose final URL parses is
    /// remembered, and no two such pages share a key.
    pub open spec fn pages_distinct(&self) -> bool {
        &&& (self.pending matches Some(e) ==> !str_views(self.visited@).contains(url_key(e.0@.0)))
        &&& forall|a: int| 0 <= a < self.pages@.len() ==> (page_key(#[trigger] self.pages@[a].url@) matches Some(k)
            ==> str_views(self.visited@).contains(k))
        &&& forall|a: int, b: int| 0 <= a < b < self.pages@.len() ==> (page_key(#[trigger] self.pages@[a].url@) matches Some(x)
            ==> page_key(#[trigger] self.pages@[b].url@) != Some(x))
    }

    /// The depth of the last entry taken from the queue (0 before any).
    pub open spec fn level(&self) -> int {
        if 0 < self.head <= self.queue@.len() {
            self.queue@[self.head - 1].1 as int
        } else {
            0
        }
    }

    /// Breadth-first order: queue depths never decrease and reach at most
    /// one past the current level; the pending entry is the last one taken,
    /// within the depth limit; pages come in order of depth, none deeper
    /// than the current level or the depth limit.
    pub open spec fn bfs_order(&self) -> bool {
        &&& forall|a: int, b: int| 0 <= a < b < self.queue@.len() ==> self.queue@[a].1 <= self.queue@[b].1
        &&& forall|b: int| 0 <= b < self.queue@.len() ==> self.queue@[b].1 <= self.level() + 1
        &&& (self.pending matches Some(e) ==> self.head > 0 && e.1 == self.queue@[self.head - 1].1
            && e.1 <= self.config.max_depth)
        &&& forall|a: int, b: int| 0 <= a < b < self.pages@.len() ==> self.pages@[a].depth <= self.pages@[b].depth
        &&& forall|a: int| 0 <= a < self.pages@.len() ==> self.pages@[a].depth <= self.level()
        &&& forall|a: int| 0 <= a < self.pages@.len() ==> self.pages@[a].depth <= self.config.max_depth
    }

    /// Starts a crawl: the seed must parse and be an http(s) URL; it is
    /// the only entry of the queue, at depth 0.
    pub fn start(config: CrawlConfig) -> (r: Result<Crawler, String>)
        ensures
            match r {
                Err(e) => start_error(config.seed_url@) == Some(e@),
                Ok(c) => start_error(config.seed_url@) is None && (url_parse_result(config.seed_url@) matches Some(u)
                    && c.queue@.len() == 1 && c.queue@[0].0@ == u && c.queue@[0].1 == 0 && c.head == 0
                    && c.seed_host@ == host_key(u) && c.visited@.len() == 0 && c.pages@.len() == 0
                    && c.logs@.len() == 0 && c.skipped == 0 && c.robots@.len() == 0 && c.pending is None && !c.finished && c.wf()
                    && c.config == config),
            },
    {
        let u = match parse_url(config.seed_url.as_str()) {
            None => {
                let mut v: Vec<char> = Vec::new();
                push_str(&mut v, "无法解析种子 URL: ");
                push_str(&mut v, config.seed_url.as_str());
                return Err(string_of(&v));
            },
            Some(u) => u,
        };
        let sc = chars_of(u.scheme.as_str());
        if !eq_lit(&sc, "http") && !eq_lit(&sc, "https") {
            let mut v: Vec<char> = Vec::new();
            push_str(&mut v, "种子 URL 必须以 http:// 或 https:// 开头，当前为: ");
            push_str(&mut v, config.seed_url.as_str());
            return Err(string_of(&v));
        }
        let seed_host = host_lower(&u);
        let mut queue: Vec<(UrlInfo, u32)> = Vec::new();
        queue.push((u, 0));
        Ok(Crawler {
            config,
            seed_host,
            visited: Vec::new(),
            queue,
            head: 0,
            pages: Vec::new(),
            logs: Vec::new(),
            skipped: 0,
            robots: Vec::new(),
            pending: None,
            finished: false,
        })
    }

    fn step(&self, u: &UrlInfo, depth: u32) -> (r: (u8, Option<String>, Option<(String, String)>))
        ensures
            match step_for(*self, u@, depth) {
                StepV::Stop => r.0 == 0,
                StepV::Pass => r.0 == 1,
                StepV::Skip(m) => r.0 == 2 && (r.1 matches Some(s) && s@ == m),
                StepV::Robots(d, s) => r.0 == 3 && (r.2 matches Some(p) && p.0@ == d && p.1@ == s),
                StepV::Fetch => r.0 == 4,
            },
    {
        if self.pages.len() as u64 >= self.config.max_pages as u64 {
            return (0, None, None);
        }
        let key = normalize_url_str(u);
        if crate::mcp::contains_string(&self.visited, &key) {
            return (1, None, None);
        }
        if depth > self.config.max_depth {
            return (1, None, None);
        }
        if self.config.same_domain_only {
            let h = host_lower(u);
            if h != self.seed_host {
                let mut v: Vec<char> = Vec::new();
                push_str(&mut v, "SKIP [跨域] ");
                push_str(&mut v, u.href.as_str());
                return (2, Some(string_of(&v)), None);
            }
        }
        if self.config.respect_robots_txt {
            let domain: String = match &u.host {
                Some(h) => h.clone(),
                None => String::new(),
            };
            let ghost rv = robots_views(self.robots@);
            let ghost ks = self.robots@.map_values(|p: (String, Option<String>)| (p.0@, ()));
            proof {
                crate::mcp::lemma_key_index_keys(rv, ks, domain@);
            }
            match crate::mcp::index_of_key(&self.robots, &domain) {
                None => {
                    return (3, None, Some((domain, u.scheme.clone())));
                },
                Some(i) => {
                    match &self.robots[i].1 {
                        Some(body) => {
                            let cut = robots_cut_body(body.as_str());
                            if robots_allow(cut.as_str(), CRAWLER_AGENT, u.href.as_str()) {
                                return (4, None, None);
                            } else {
                                let mut v: Vec<char> = Vec::new();
                                push_str(&mut v, "SKIP [robots.txt] ");
                                push_str(&mut v, u.href.as_str());
                                return (2, Some(string_of(&v)), None);
                            }
                        },
                        None => {
                            return (4, None, None);
                        },
                    }
                },
            }
        }
        (4, None, None)
    }

    /// What to do next: skipped entries are logged and counted on the way;
    /// the crawl ends when enough pages are crawled (with a log line) or
    /// the queue runs out.
    pub fn next_action(&mut self) -> (r: CrawlAction)
        requires
            !old(self).finished,
            old(self).wf(),
        ensures
            final(self).wf(),
            final(self).queue@ == old(self).queue@,
            final(self).visited@ == old(self).visited@,
            final(self).pages@ == old(self).pages@,
            final(self).robots@ == old(self).robots@,
            final(self).config == old(self).config,
            final(self).seed_host@ == old(self).seed_host@,
            str_views(final(self).logs@) == str_views(old(self).logs@) + scan_queue(*old(self), old(self).head as int).1
                + stop_note(*old(self)),
            final(self).skipped == old(self).skipped + scan_queue(*old(self), old(self).head as int).1.len(),
            match next_step(*old(self)) {
                None => r is Finished && final(self).finished && final(self).head == next_entry(*old(self))
                    && final(self).pending is None,
                Some(StepV::Stop) => r is Finished && final(self).finished && final(self).pending is None,
                Some(StepV::Robots(d, sc)) => !final(self).finished && final(self).head == next_entry(*old(self))
                    && final(self).pending is None
                    && (r matches CrawlAction::FetchRobots { domain, robots_url: ru } && domain@ == d && ru@ == robots_url(d, sc)),
                Some(_) => !final(self).finished && final(self).head == next_entry(*old(self)) + 1
                    && (final(self).pending matches Some(p) && p.0@ == old(self).queue@[next_entry(*old(self))].0@
                        && p.1 == old(self).queue@[next_entry(*old(self))].1)
                    && (r matches CrawlAction::Fetch { url: target, depth, wait_ms }
                        && target@ == old(self).queue@[next_entry(*old(self))].0@
                        && depth == old(self).queue@[next_entry(*old(self))].1
                        && wait_ms == (if old(self).pages@.len() > 0 {
                            Some(old(self).config.request_delay_ms)
                        } else {
                            None
                        })),
            },
    {
        let ghost c0 = *self;
        let ghost start = self.head as int;
        let ghost l0 = str_views(self.logs@);
        let ghost k0 = self.skipped;
        proof {
            lemma_scan_bounds(c0, start);
        }
        self.pending = None;
        while self.head < self.queue.len()
            invariant
                c0 == *old(self),
                start == c0.head,
                l0 == str_views(c0.logs@),
                start <= self.head <= self.queue@.len(),
                self.queue@ == c0.queue@,
                self.visited@ == c0.visited@,
                self.pages@ == c0.pages@,
                self.robots@ == c0.robots@,
                self.config == c0.config,
                self.seed_host@ == c0.seed_host@,
                !self.finished,
                self.pending is None,
                scan_queue(c0, start) == ({
                    let rest = scan_queue(c0, self.head as int);
                    (rest.0, str_views(self.logs@).skip(l0.len() as int) + rest.1)
                }),
                str_views(self.logs@).len() >= l0.len(),
                str_views(self.logs@).take(l0.len() as int) == l0,
                self.skipped == k0 + (str_views(self.logs@).len() - l0.len()),
                k0 == c0.skipped,
                self.skipped <= k0 + (self.head - start),
                c0.wf(),
            decreases self.queue@.len() - self.head,
        {
            let h = self.head;
            let (kind, msg, robots) = self.step(&self.queue[h].0, self.queue[h].1);
            assert(step_for(*self, self.queue@[h as int].0@, self.queue@[h as int].1) == step_for(c0, c0.queue@[h as int].0@, c0.queue@[h as int].1));
            if kind == 0 {
                let mut v: Vec<char> = Vec::new();
                push_str(&mut v, "INFO 已达到最大页数限制(");
                let d = dec_chars(self.config.max_pages as u64);
                push_all(&mut v, &d);
                push_str(&mut v, ")，停止爬取");
                let ghost before = self.logs@;
                self.logs.push(string_of(&v));
                proof {
                    crate::text::lemma_str_views_push(before, self.logs@.last());
                    assert(scan_queue(c0, h as int) == (h as int, Seq::<Seq<char>>::empty()));
                    assert(scan_queue(c0, start).1 =~= str_views(before).skip(l0.len() as int));
                    assert(str_views(before) =~= l0 + str_views(before).skip(l0.len() as int));
                    assert(str_views(self.logs@) =~= str_views(before).push(str_views(self.logs@).last()));
                    assert(str_views(self.logs@) =~= l0 + scan_queue(c0, start).1 + seq!["INFO 已达到最大页数限制("@ + dec(c0.config.max_pages as nat) + ")，停止爬取"@]);
                }
                self.finished = true;
                return CrawlAction::Finished;
            } else if kind == 1 {
                self.head = self.head + 1;
            } else if kind == 2 {
                let m = msg.unwrap();
                let ghost before = self.logs@;
                self.logs.push(m);
                proof {
                    crate::text::lemma_str_views_push(before, self.logs@.last());
                    assert(str_views(self.logs@).skip(l0.len() as int) =~= str_views(before).skip(l0.len() as int).push(str_views(self.logs@).last()));
                    assert(str_views(self.logs@).take(l0.len() as int) =~= str_views(before).take(l0.len() as int));
                }
                self.skipped = self.skipped + 1;
                self.head = self.head + 1;
            } else if kind == 3 {
                let (domain, scheme) = robots.unwrap();
                let url = robots_url_of(&domain, &scheme);
                proof {
                    assert(str_views(self.logs@) =~= l0 + str_views(self.logs@).skip(l0.len() as int));
                }
                return CrawlAction::FetchRobots { domain, robots_url: url };
            } else {
                let target = self.queue[h].0.duplicate();
                let depth = self.queue[h].1;
                let wait_ms = if self.pages.len() > 0 {
                    Some(self.config.request_delay_ms)
                } else {
                    None
                };
                self.head = self.head + 1;
                self.pending = Some((self.queue[h].0.duplicate(), depth));
                proof {
                    assert(scan_queue(c0, h as int) == (h as int, Seq::<Seq<char>>::empty()));
                    assert(scan_queue(c0, start).1 =~= str_views(self.logs@).skip(l0.len() as int));
                    assert(str_views(self.logs@) =~= l0 + str_views(self.logs@).skip(l0.len() as int));
                }
                return CrawlAction::Fetch { url: target, depth, wait_ms };
            }
        }
        proof {
            assert(str_views(self.logs@) =~= l0 + str_views(self.logs@).skip(l0.len() as int));
        }
        self.finished = true;
        CrawlAction::Finished
    }
}

/// What is kept of a robots.txt reply: its body, when the request got a
/// success status (2xx) and the body could be read; `None` (everything
/// allowed) otherwise.
pub open spec fn robots_kept(status: Option<u16>, body: Option<Seq<char>>) -> Option<Seq<char>> {
    match status {
        Some(st) => if 200 <= st <= 299 {
            body
        } else {
            None
        },
        None => None,
    }
}

pub open spec fn opt_view(o: Option<String>) -> Option<Seq<char>> {
    match o {
        Some(b) => Some(b@),
        None => None,
    }
}

impl Crawler {
    /// Records the reply to a robots.txt request of `domain`: `status` is
    /// `None` when the request failed, `body` when it could not be read.
    pub fn robots_fetched(&mut self, domain: String, status: Option<u16>, body: Option<String>)
        requires
            old(self).wf(),
        ensures
            final(self).wf(),
            robots_views(final(self).robots@) == crate::mcp::put(
                robots_views(old(self).robots@),
                domain@,
                robots_kept(status, opt_view(body)),
            ),
            final(self).config == old(self).config,
            final(self).seed_host == old(self).seed_host,
            final(self).visited == old(self).visited,
            final(self).queue == old(self).queue,
            final(self).head == old(self).head,
            final(self).pages == old(self).pages,
            final(self).logs == old(self).logs,
            final(self).skipped == old(self).skipped,
            final(self).pending == old(self).pending,
            final(self).finished == old(self).finished,
    {
        let kept: Option<String> = match status {
            Some(st) => if 200 <= st && st <= 299 {
                body
            } else {
                None
            },
            None => None,
        };
        let ghost kv = opt_view(kept);
        assert(kv == robots_kept(status, opt_view(body)));
        let ghost rv = robots_views(self.robots@);
        let ghost ks = self.robots@.map_values(|p: (String, Option<String>)| (p.0@, ()));
        proof {
            crate::mcp::lemma_key_index_keys(rv, ks, domain@);
        }
        let ghost dv = domain@;
        match crate::mcp::index_of_key(&self.robots, &domain) {
            Some(i) => {
                self.robots.set(i, (domain, kept));
                assert(robots_views(self.robots@) =~= rv.update(i as int, (dv, kv)));
            },
            None => {
                self.robots.push((domain, kept));
                assert(robots_views(self.robots@) =~= rv.push((dv, kv)));
            },
        }
        proof {
            crate::mcp::lemma_put_unique(rv, dv, kv);
        }
    }
}

/// Adding a key keeps every key that was there.
proof fn lemma_add_key_keeps(v: Seq<Seq<char>>, k: Seq<char>, x: Seq<char>)
    ensures
        v.contains(x) ==> add_key(v, k).contains(x),
        add_key(v, k).contains(k),
{
    if !v.contains(k) {
        assert(v.push(k)[v.len() as int] == k);
        if v.contains(x) {
            let i = choose|i: int| 0 <= i < v.len() && v[i] == x;
            assert(v.push(k)[i] == x);
        }
    }
}

/// Adding a page whose key was not remembered, and remembering it, keeps
/// the keys of pages remembered and distinct.
proof fn lemma_pages_distinct_step(
    pages: Seq<CrawledPage>,
    page: CrawledPage,
    v_old: Seq<Seq<char>>,
    v_new: Seq<Seq<char>>,
)
    requires
        forall|a: int| 0 <= a < pages.len() ==> (page_key(#[trigger] pages[a].url@) matches Some(k) ==> v_old.contains(k)),
        forall|a: int, b: int| 0 <= a < b < pages.len() ==> (page_key(#[trigger] pages[a].url@) matches Some(x)
            ==> page_key(#[trigger] pages[b].url@) != Some(x)),
        forall|x: Seq<char>| v_old.contains(x) ==> v_new.contains(x),
        page_key(page.url@) matches Some(k) ==> v_new.contains(k) && !v_old.contains(k),
    ensures
        ({
            let ps = pages.push(page);
            &&& forall|a: int| 0 <= a < ps.len() ==> (page_key(#[trigger] ps[a].url@) matches Some(k) ==> v_new.contains(k))
            &&& forall|a: int, b: int| 0 <= a < b < ps.len() ==> (page_key(#[trigger] ps[a].url@) matches Some(x)
                ==> page_key(#[trigger] ps[b].url@) != Some(x))
        }),
{
    let ps = pages.push(page);
    assert forall|a: int| 0 <= a < ps.len() implies (page_key(#[trigger] ps[a].url@) matches Some(k) ==> v_new.contains(k)) by {
        if a < pages.len() {
            assert(ps[a] == pages[a]);
        }
    }
    assert forall|a: int, b: int| 0 <= a < b < ps.len() implies (page_key(#[trigger] ps[a].url@) matches Some(x)
        ==> page_key(#[trigger] ps[b].url@) != Some(x)) by {
        assert(ps[a] == pages[a]);
        if b < pages.len() {
            assert(ps[b] == pages[b]);
        } else {
            assert(ps[b] == page);
        }
    }
}

/// The normalised form of a page's final URL, when it parses.
pub open spec fn page_key(url: Seq<char>) -> Option<Seq<char>> {
    match url_parse_result(url) {
        Some(f) => Some(url_key(f.0)),
        None => None,
    }
}

/// The seen-set with one more key.
pub open spec fn add_key(v: Seq<Seq<char>>, k: Seq<char>) -> Seq<Seq<char>> {
    if v.contains(k) {
        v
    } else {
        v.push(k)
    }
}

/// The key of the address a page was finally served from, when it parses
/// and differs from the key of the address asked for.
pub open spec fn redirect_key(final_url: Seq<char>, key: Seq<char>) -> Option<Seq<char>> {
    match url_parse_result(final_url) {
        Some(f) => if url_key(f.0) != key {
            Some(url_key(f.0))
        } else {
            None
        },
        None => None,
    }
}

/// Relative links of a page resolve against the address it was served
/// from, when that parses.
pub open spec fn link_base(final_url: Seq<char>, asked: Seq<char>) -> Seq<char> {
    match url_parse_result(final_url) {
        Some(f) => f.0,
        None => asked,
    }
}

pub open spec fn fail_line(url: Seq<char>, err: Seq<char>) -> Seq<char> {
    "FAIL [抓取] "@ + url + " — "@ + err
}

pub open spec fn redirect_line(url: Seq<char>, final_url: Seq<char>) -> Seq<char> {
    "SKIP [重定向去重] "@ + url + " → "@ + final_url
}

pub open spec fn ok_line(depth: u32, title: Seq<char>, url: Seq<char>) -> Seq<char> {
    "OK [depth="@ + dec(depth as nat) + "] "@ + (if title.len() == 0 {
        "(无标题)"@
    } else {
        title
    }) + " — "@ + url
}

pub open spec fn queue_views(q: Seq<(UrlInfo, u32)>) -> Seq<(UrlV, u32)> {
    q.map_values(|e: (UrlInfo, u32)| (e.0@, e.1))
}

/// The links queued at `depth`: those whose key is not in the seen-set,
/// in order.
pub open spec fn enqueued(links: Seq<UrlV>, seen: Seq<Seq<char>>, depth: u32) -> Seq<(UrlV, u32)>
    decreases links.len(),
{
    if links.len() == 0 {
        seq![]
    } else {
        let prev = enqueued(links.drop_last(), seen, depth);
        if seen.contains(url_key(links.last().0)) {
            prev
        } else {
            prev.push((links.last(), depth))
        }
    }
}

fn enqueue_links(queue: &mut Vec<(UrlInfo, u32)>, seen: &Vec<String>, links: Vec<UrlInfo>, depth: u32)
    ensures
        queue_views(final(queue)@) == queue_views(old(queue)@) + enqueued(url_views(links@), str_views(seen@), depth),
        final(queue)@.len() >= old(queue)@.len(),
        forall|i: int| 0 <= i < old(queue)@.len() ==> #[trigger] final(queue)@[i] == old(queue)@[i],
        forall|i: int| old(queue)@.len() <= i < final(queue)@.len() ==> (#[trigger] final(queue)@[i]).1 == depth,
{
    let ghost qold = queue@;
    let ghost q0 = queue_views(queue@);
    let ghost lv = url_views(links@);
    let ghost sv = str_views(seen@);
    let mut i: usize = 0;
    let mut rest = links;
    let ghost all = rest@;
    while i < rest.len()
        invariant
            i <= rest@.len(),
            rest@ == all,
            lv == url_views(all),
            sv == str_views(seen@),
            queue_views(queue@) == q0 + enqueued(lv.take(i as int), sv, depth),
            queue@.len() >= qold.len(),
            forall|j: int| 0 <= j < qold.len() ==> #[trigger] queue@[j] == qold[j],
            forall|j: int| qold.len() <= j < queue@.len() ==> (#[trigger] queue@[j]).1 == depth,
        decreases rest@.len() - i,
    {
        assert(lv.take(i + 1).drop_last() =~= lv.take(i as int));
        assert(lv.take(i + 1).last() == rest@[i as int]@);
        let key = normalize_url_str(&rest[i]);
        if !crate::mcp::contains_string(seen, &key) {
            let ghost before = queue@;
            queue.push((rest[i].duplicate(), depth));
            assert(queue_views(queue@) =~= queue_views(before).push((rest@[i as int]@, depth)));
        }
        i = i + 1;
    }
    assert(lv.take(i as int) =~= lv);
}

fn add_seen(seen: &mut Vec<String>, k: String)
    ensures
        str_views(final(seen)@) == add_key(str_views(old(seen)@), k@),
{
    if !crate::mcp::contains_string(seen, &k) {
        let ghost before = seen@;
        seen.push(k);
        proof {
            crate::text::lemma_str_views_push(before, seen@.last());
        }
    }
}

fn line3(a: &str, b: &str, c: &str, d: &str) -> (r: String)
    ensures
        r@ == a@ + b@ + c@ + d@,
{
    let mut v: Vec<char> = Vec::new();
    push_str(&mut v, a);
    push_str(&mut v, b);
    push_str(&mut v, c);
    push_str(&mut v, d);
    string_of(&v)
}

impl Crawler {
    /// Records what came of fetching the page handed out last: a failure
    /// is logged and counted; a page is remembered as seen (under the key
    /// of the address asked for and of the one it was served from), unless
    /// that address was seen already, which is logged and counted; then its
    /// text is extracted and its links are queued one level deeper while
    /// the depth limit allows.
    pub fn page_fetched(&mut self, fetched: Result<WebPage, String>)
        requires
            old(self).wf(),
        ensures
            final(self).wf(),
            final(self).pending is None,
            final(self).config == old(self).config,
            final(self).seed_host == old(self).seed_host,
            final(self).head == old(self).head,
            final(self).robots == old(self).robots,
            final(self).finished == old(self).finished,
            match old(self).pending {
                None => final(self).visited == old(self).visited && final(self).queue == old(self).queue
                    && final(self).pages == old(self).pages && final(self).logs == old(self).logs
                    && final(self).skipped == old(self).skipped,
                Some((u, d)) => match fetched {
                    Err(e) => final(self).visited == old(self).visited && final(self).queue == old(self).queue
                        && final(self).pages == old(self).pages
                        && str_views(final(self).logs@) == str_views(old(self).logs@).push(fail_line(u.href@, e@))
                        && final(self).skipped == old(self).skipped + 1,
                    Ok(p) => {
                        let key = url_key(u.href@);
                        let v1 = add_key(str_views(old(self).visited@), key);
                        let rk = redirect_key(p.url@, key);
                        if rk matches Some(k) && v1.contains(k) {
                            &&& str_views(final(self).visited@) == v1
                            &&& final(self).queue == old(self).queue
                            &&& final(self).pages == old(self).pages
                            &&& str_views(final(self).logs@) == str_views(old(self).logs@).push(redirect_line(u.href@, p.url@))
                            &&& final(self).skipped == old(self).skipped + 1
                        } else {
                            let v2 = match rk {
                                Some(k) => v1.push(k),
                                None => v1,
                            };
                            &&& str_views(final(self).visited@) == v2
                            &&& final(self).pages@.len() == old(self).pages@.len() + 1
                            &&& final(self).pages@.drop_last() == old(self).pages@
                            &&& final(self).pages@.last().url@ == p.url@
                            &&& final(self).pages@.last().title@ == p.title@
                            &&& final(self).pages@.last().content@ == crate::extract::extracted(
                                parsed_dom(p.html_content@),
                                ExtractMode::Readability,
                                old(self).config.max_chars_per_page as int,
                            )
                            &&& final(self).pages@.last().depth == d
                            &&& str_views(final(self).logs@) == str_views(old(self).logs@).push(ok_line(d, p.title@, p.url@))
                            &&& final(self).skipped == old(self).skipped
                            &&& queue_views(final(self).queue@) == queue_views(old(self).queue@) + (if d < old(self).config.max_depth {
                                enqueued(
                                    followed_links(
                                        link_hrefs(parsed_dom(p.html_content@)),
                                        link_base(p.url@, u.href@),
                                        old(self).seed_host@,
                                        old(self).config.same_domain_only,
                                    ),
                                    v2,
                                    (d + 1) as u32,
                                )
                            } else {
                                seq![]
                            })
                        }
                    },
                },
            },
    {
        let (u, d) = match &self.pending {
            None => return,
            Some(p) => (p.0.duplicate(), p.1),
        };
        self.pending = None;
        match fetched {
            Err(e) => {
                let line = line3("FAIL [抓取] ", u.href.as_str(), " — ", e.as_str());
                let ghost before = self.logs@;
                self.logs.push(line);
                proof {
                    crate::text::lemma_str_views_push(before, self.logs@.last());
                }
                self.skipped = self.skipped + 1;
                assert(self.skipped + self.pages@.len() <= self.head);
                assert(self.wf());
            },
            Ok(page) => {
                let ghost lvl = self.level();
                let ghost q_old = self.queue@;
                let ghost p_old = self.pages@;
                let ghost v_old = str_views(self.visited@);
                assert(d == lvl);
                let key = normalize_url_str(&u);
                assert(!v_old.contains(key@));
                add_seen(&mut self.visited, key.clone());
                let ghost v1 = str_views(self.visited@);
                let ghost mut nk: Seq<char> = key@;
                proof {
                    assert forall|x: Seq<char>| v_old.contains(x) implies v1.contains(x) by {
                        lemma_add_key_keeps(v_old, key@, x);
                    }
                    lemma_add_key_keeps(v_old, key@, key@);
                }
                let fin = parse_url(page.url.as_str());
                match &fin {
                    Some(f) => {
                        let fkey = normalize_url_str(f);
                        if fkey != key {
                            if crate::mcp::contains_string(&self.visited, &fkey) {
                                let line = line3("SKIP [重定向去重] ", u.href.as_str(), " → ", page.url.as_str());
                                let ghost before = self.logs@;
                                self.logs.push(line);
                                proof {
                                    crate::text::lemma_str_views_push(before, self.logs@.last());
                                }
                                self.skipped = self.skipped + 1;
                                assert forall|a: int| 0 <= a < self.pages@.len() implies (page_key(#[trigger] self.pages@[a].url@) matches Some(k)
                                    ==> str_views(self.visited@).contains(k)) by {
                                    assert(self.pages@[a] == p_old[a]);
                                }
                                return;
                            }
                            let ghost before = self.visited@;
                            proof {
                                nk = fkey@;
                            }
                            self.visited.push(fkey);
                            proof {
                                crate::text::lemma_str_views_push(before, self.visited@.last());
                                let vn = str_views(self.visited@);
                                assert(vn == v1.push(nk));
                                assert(vn[v1.len() as int] == nk);
                                assert forall|x: Seq<char>| v1.contains(x) implies vn.contains(x) by {
                                    let i = choose|i: int| 0 <= i < v1.len() && v1[i] == x;
                                    assert(vn[i] == x);
                                }
                            }
                        }
                    },
                    None => {},
                }
                let content = extract_content(
                    page.html_content.as_str(),
                    ExtractMode::Readability,
                    self.config.max_chars_per_page,
                );
                let mut v: Vec<char> = Vec::new();
                push_str(&mut v, "OK [depth=");
                let dd = dec_chars(d as u64);
                push_all(&mut v, &dd);
                push_str(&mut v, "] ");
                let tc = chars_of(page.title.as_str());
                if tc.len() == 0 {
                    push_str(&mut v, "(无标题)");
                } else {
                    push_str(&mut v, page.title.as_str());
                }
                push_str(&mut v, " — ");
                push_str(&mut v, page.url.as_str());
                let line = string_of(&v);
                let ghost v_new = str_views(self.visited@);
                assert(v_new.contains(nk) && !v_old.contains(nk));
                assert(page_key(page.url@) matches Some(k) ==> k == nk);
                self.pages.push(CrawledPage { url: page.url.clone(), title: page.title.clone(), content, depth: d });
                proof {
                    lemma_pages_distinct_step(p_old, self.pages@.last(), v_old, v_new);
                    assert(self.pages@ == p_old.push(self.pages@.last()));
                }
                let ghost before = self.logs@;
                self.logs.push(line);
                proof {
                    crate::text::lemma_str_views_push(before, self.logs@.last());
                }
                if d < self.config.max_depth {
                    let base = match fin {
                        Some(f) => f,
                        None => u,
                    };
                    let links = extract_links(
                        page.html_content.as_str(),
                        &base,
                        self.seed_host.as_str(),
                        self.config.same_domain_only,
                    );
                    enqueue_links(&mut self.queue, &self.visited, links, d + 1);
                } else {
                    assert(queue_views(self.queue@) =~= queue_views(self.queue@) + Seq::<(UrlV, u32)>::empty());
                }
                assert(self.pages@.len() + 0 <= self.config.max_pages);
                assert(self.skipped + self.pages@.len() <= self.head);
                assert(queue_views(self.queue@).len() == self.queue@.len());
                assert(self.head <= self.queue@.len());
                assert(self.queue@[self.head - 1] == q_old[self.head - 1]);
                assert(self.level() == lvl);
                assert(self.pages@.drop_last() == p_old);
                assert forall|a: int| 0 <= a < self.pages@.len() implies #[trigger] self.pages@[a].depth <= lvl by {
                    if a < p_old.len() {
                        assert(self.pages@[a] == p_old[a]);
                    }
                }
                assert forall|a: int, b: int| 0 <= a < b < self.pages@.len() implies self.pages@[a].depth <= self.pages@[b].depth by {
                    assert(self.pages@[a] == p_old[a]);
                    if b < p_old.len() {
                        assert(self.pages@[b] == p_old[b]);
                    }
                }
                assert forall|b: int| 0 <= b < self.queue@.len() implies #[trigger] self.queue@[b].1 <= lvl + 1 by {
                    if b < q_old.len() {
                        assert(self.queue@[b] == q_old[b]);
                    }
                }
                assert forall|a: int, b: int| 0 <= a < b < self.queue@.len() implies self.queue@[a].1 <= self.queue@[b].1 by {
                    if b < q_old.len() {
                        assert(self.queue@[a] == q_old[a]);
                        assert(self.queue@[b] == q_old[b]);
                    } else if a < q_old.len() {
                        assert(self.queue@[a] == q_old[a]);
                    }
                }
                assert(self.wf());
            },
        }
    }
}

impl Crawler {
    /// The outcome of the crawl.
    pub fn finish(self) -> (r: CrawlResult)
        requires
            self.wf(),
            self.skipped <= u32::MAX,
        ensures
            r.seed_url@ == self.config.seed_url@,
            r.pages_crawled == self.pages@.len(),
            r.pages_skipped == self.skipped,
            r.pages == self.pages,
            r.logs == self.logs,
    {
        let n = self.pages.len() as u32;
        CrawlResult {
            seed_url: self.config.seed_url.clone(),
            pages_crawled: n,
            pages_skipped: self.skipped as u32,
            pages: self.pages,
            logs: self.logs,
        }
    }
}

/// A crawl never holds more pages than it may: every state the crawler's
/// operations produce satisfies `wf`, which bounds the pages crawled by
/// `max_pages` and counts each skip or page against one queue entry.
pub proof fn law_crawl_page_limit(c: Crawler)
    requires
        c.wf(),
    ensures
        c.pages@.len() <= c.config.max_pages,
        c.skipped + c.pages@.len() <= c.head <= c.queue@.len(),
{
}

/// A crawl goes breadth first: in every state the crawler's operations
/// produce, the pages are in order of depth, none deeper than the depth
/// limit, and the queue's depths never decrease; no normalised URL is
/// remembered twice, nor a host's robots.txt.
pub proof fn law_crawl_breadth_first(c: Crawler)
    requires
        c.wf(),
    ensures
        forall|a: int, b: int| 0 <= a < b < c.pages@.len() ==> c.pages@[a].depth <= c.pages@[b].depth,
        forall|a: int| 0 <= a < c.pages@.len() ==> c.pages@[a].depth <= c.config.max_depth,
        forall|a: int, b: int| 0 <= a < b < c.queue@.len() ==> c.queue@[a].1 <= c.queue@[b].1,
        str_views(c.visited@).no_duplicates(),
        crate::mcp::keys_unique(robots_views(c.robots@)),
{
}

/// No page is fetched twice: in every state the crawler's operations
/// produce, the normalised final URLs of the pages (those that parse) are
/// pairwise distinct and remembered, and the entry being fetched is not
/// one whose normalised URL was already fetched.
pub proof fn law_crawl_pages_distinct(c: Crawler)
    requires
        c.wf(),
    ensures
        forall|a: int, b: int| 0 <= a < b < c.pages@.len() ==> (page_key(#[trigger] c.pages@[a].url@) matches Some(x)
            ==> page_key(#[trigger] c.pages@[b].url@) != Some(x)),
        forall|a: int| 0 <= a < c.pages@.len() ==> (page_key(#[trigger] c.pages@[a].url@) matches Some(k)
            ==> str_views(c.visited@).contains(k)),
        c.pending matches Some(e) ==> !str_views(c.visited@).contains(url_key(e.0@.0)),
{
}

/// What a crawl's result holds, in any state the crawler's operations
/// produce (its `finish` hands out these pages, their count and the
/// skips): at most `max_pages` pages, in breadth-first order, none deeper
/// than `max_depth`, no two with the same normalised final URL.
pub proof fn law_crawl_result(c: Crawler)
    requires
        c.wf(),
    ensures
        c.pages@.len() <= c.config.max_pages,
        forall|a: int| 0 <= a < c.pages@.len() ==> (#[trigger] c.pages@[a]).depth <= c.config.max_depth,
        forall|a: int, b: int| 0 <= a < b < c.pages@.len() ==> (#[trigger] c.pages@[a]).depth <= (#[trigger] c.pages@[b]).depth,
        forall|a: int, b: int| 0 <= a < b < c.pages@.len() ==> (page_key(#[trigger] c.pages@[a].url@) matches Some(x)
            ==> page_key(#[trigger] c.pages@[b].url@) != Some(x)),
{
    law_crawl_page_limit(c);
    law_crawl_breadth_first(c);
    law_crawl_pages_distinct(c);
}

/// The entry the crawler hands out for fetching is one it has not seen,
/// within the depth limit, on the seed's host when only that host is
/// crawled, allowed by the host's robots.txt when that is respected, and
/// the page limit is not reached.
pub proof fn law_crawl_fetches_only_admitted(c: Crawler)
    requires
        next_step(c) == Some(StepV::Fetch),
    ensures
        ({
            let e = c.queue@[next_entry(c)];
            let u = e.0@;
            &&& 0 <= next_entry(c) < c.queue@.len()
            &&& c.pages@.len() < c.config.max_pages
            &&& !str_views(c.visited@).contains(url_key(u.0))
            &&& e.1 <= c.config.max_depth
            &&& c.config.same_domain_only ==> host_key(u) == c.seed_host@
            &&& c.config.respect_robots_txt ==> (crate::mcp::key_index(robots_views(c.robots@), robots_domain(u)) matches Some(i)
                && (robots_views(c.robots@)[i].1 matches Some(body) ==> robots_allowed(robots_cut(body), "Xuflow"@, u.0)))
        }),
{
}

proof fn lemma_scan_bounds(c: Crawler, i: int)
    ensures
        scan_queue(c, i).0 >= i,
        i >= 0 ==> scan_queue(c, i).1.len() <= (if scan_queue(c, i).0 > i { scan_queue(c, i).0 - i } else { 0 }),
    decreases c.queue@.len() - i,
{
    if i >= 0 && i < c.queue@.len() {
        lemma_scan_bounds(c, i + 1);
    }
}

} // verus!
