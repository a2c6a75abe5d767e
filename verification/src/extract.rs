//! Readable text from an HTML page.
//!
//! A page is parsed once into a list of plain nodes (see [`DomNode`]); the
//! text extraction, the choice of the main content container and the final
//! clean-up are all computed here from that list.
//!
//! * Text mode keeps every visible text node under `<body>`.
//! * Readability mode prefers the first `<article>`, `<main>` or
//!   `role="main"` element, then the container holding the most `<p>`
//!   elements (at least two), and falls back to `<body>`.
//!
//! Text inside script, style, noscript, iframe, svg, canvas, code and pre
//! elements is dropped; block elements put a line break before and after
//! their text. The result has its lines trimmed, runs of blank lines reduced
//! to one, and is cut to the limit when it has more characters than that,
//! with a marker appended.
use vstd::prelude::*;
use ego_tree::iter::Edge;
use scraper::{Html, Node};
use crate::text::{
    chars_of, eq_lit, join_chars, join_lines, lines, lines_chars, lowercase, push_all, string_of,
    to_lowercase, trim, trim_chars, views,
};

verus! {

// ─── The page model ────────────────────────────────────────────────────

/// One step of a depth-first walk over a node's subtree: a node is opened,
/// its children are walked, and it is closed.
pub enum DomEvent {
    /// An element, with its local name and its `role` and `href` attributes.
    Open { name: String, role: Option<String>, href: Option<String> },
    /// A text node.
    Text { text: String },
    /// Any other node (comment, doctype, document, ...).
    Other,
    /// The end of the node opened last and not yet closed.
    Close,
}

/// A node of the parsed tree, in the order in which the parser created it:
/// whether it still has a parent, and the walk over its own subtree (whose
/// first event opens the node itself).
pub struct DomNode {
    pub attached: bool,
    pub events: Vec<DomEvent>,
}

/// Mathematical view of a [`DomEvent`].
pub enum Ev {
    Open { name: Seq<char>, role: Option<Seq<char>>, href: Option<Seq<char>> },
    Text { text: Seq<char> },
    Other,
    Close,
}

/// Mathematical view of a [`DomNode`].
pub struct NodeV {
    pub attached: bool,
    pub events: Seq<Ev>,
}

pub open spec fn opt_view(o: Option<String>) -> Option<Seq<char>> {
    match o {
        Some(s) => Some(s@),
        None => None,
    }
}

impl View for DomEvent {
    type V = Ev;

    open spec fn view(&self) -> Ev {
        match self {
            DomEvent::Open { name, role, href } => Ev::Open {
                name: name@,
                role: opt_view(*role),
                href: opt_view(*href),
            },
            DomEvent::Text { text } => Ev::Text { text: text@ },
            DomEvent::Other => Ev::Other,
            DomEvent::Close => Ev::Close,
        }
    }
}

pub open spec fn event_views(s: Seq<DomEvent>) -> Seq<Ev> {
    s.map_values(|e: DomEvent| e@)
}

impl View for DomNode {
    type V = NodeV;

    open spec fn view(&self) -> NodeV {
        NodeV { attached: self.attached, events: event_views(self.events@) }
    }
}

pub open spec fn node_views(s: Seq<DomNode>) -> Seq<NodeV> {
    s.map_values(|n: DomNode| n@)
}

/// The node list that scraper's HTML5 parser builds for a document.
pub uninterp spec fn parsed_dom(html: Seq<char>) -> Seq<NodeV>;

/// Parses `html` with `scraper::Html::parse_document` and lists the nodes of
/// the tree in the parser's arena order (the order `Html::select` visits):
/// for each node, whether it has a parent and the walk that
/// `ego_tree::NodeRef::traverse` makes over its subtree. Only the name of the
/// result is claimed; how HTML5 builds the tree is left to the parser.
#[verifier::external_body]
pub(crate) fn parse_document(html: &str) -> (nodes: Vec<DomNode>)
    ensures
        node_views(nodes@) == parsed_dom(html@),
{
    let mut nodes = Vec::new();
    for node in Html::parse_document(html).tree.nodes() {
        let mut events = Vec::new();
        for edge in node.traverse() {
            events.push(match edge {
                Edge::Close(_) => DomEvent::Close,
                Edge::Open(n) => match n.value() {
                    Node::Element(e) => DomEvent::Open { name: e.name().into(), role: e.attr("role").map(Into::into), href: e.attr("href").map(Into::into) },
                    Node::Text(t) => DomEvent::Text { text: t.to_string() },
                    _ => DomEvent::Other,
                } });
        }
        nodes.push(DomNode { attached: node.parent().is_some(), events });
    }
    nodes
}

// ─── Tag classes ───────────────────────────────────────────────────────

/// Elements whose text is never shown.
pub open spec fn skip_tag(t: Seq<char>) -> bool {
    ||| t == "script"@
    ||| t == "style"@
    ||| t == "noscript"@
    ||| t == "iframe"@
    ||| t == "svg"@
    ||| t == "canvas"@
    ||| t == "code"@
    ||| t == "pre"@
}

/// Block-level elements: their text stands on lines of its own.
pub open spec fn block_tag(t: Seq<char>) -> bool {
    ||| t == "p"@
    ||| t == "div"@
    ||| t == "h1"@
    ||| t == "h2"@
    ||| t == "h3"@
    ||| t == "h4"@
    ||| t == "h5"@
    ||| t == "h6"@
    ||| t == "li"@
    ||| t == "tr"@
    ||| t == "br"@
    ||| t == "article"@
    ||| t == "section"@
    ||| t == "header"@
    ||| t == "footer"@
    ||| t == "main"@
    ||| t == "aside"@
    ||| t == "nav"@
    ||| t == "blockquote"@
    ||| t == "hr"@
    ||| t == "table"@
    ||| t == "ul"@
    ||| t == "ol"@
    ||| t == "dl"@
}

fn skip_tag_chars(t: &[char]) -> (r: bool)
    ensures
        r == skip_tag(t@),
{
    eq_lit(t, "script") || eq_lit(t, "style") || eq_lit(t, "noscript") || eq_lit(t, "iframe")
        || eq_lit(t, "svg") || eq_lit(t, "canvas") || eq_lit(t, "code") || eq_lit(t, "pre")
}

fn block_tag_chars(t: &[char]) -> (r: bool)
    ensures
        r == block_tag(t@),
{
    eq_lit(t, "p") || eq_lit(t, "div") || eq_lit(t, "h1") || eq_lit(t, "h2") || eq_lit(t, "h3")
        || eq_lit(t, "h4") || eq_lit(t, "h5") || eq_lit(t, "h6") || eq_lit(t, "li") || eq_lit(
        t,
        "tr",
    ) || eq_lit(t, "br") || eq_lit(t, "article") || eq_lit(t, "section") || eq_lit(t, "header")
        || eq_lit(t, "footer") || eq_lit(t, "main") || eq_lit(t, "aside") || eq_lit(t, "nav")
        || eq_lit(t, "blockquote") || eq_lit(t, "hr") || eq_lit(t, "table") || eq_lit(t, "ul")
        || eq_lit(t, "ol") || eq_lit(t, "dl")
}

/// Whether a (lowercase) tag name is a block-level element.
pub fn is_block_tag(tag: &str) -> (r: bool)
    ensures
        r == block_tag(tag@),
{
    let t = chars_of(tag);
    block_tag_chars(&t)
}

// ─── Text of a subtree ─────────────────────────────────────────────────

/// One step of the text walk. The state is the text so far and one frame
/// per open node (text nodes too: every node is opened and closed):
/// whether a line break follows it, and whether text inside it is dropped. The first event opens the subtree's own element, whose text is
/// dropped when its tag is a skipped one; below it, text is dropped under a
/// dropped node or any non-element node, a child element of a shown node is
/// dropped when its tag is skipped, and a block child gets a line break
/// before and after it.
pub open spec fn collect_step(st: (Seq<char>, Seq<(bool, bool)>), e: Ev) -> (
    Seq<char>,
    Seq<(bool, bool)>,
) {
    let out = st.0;
    let stack = st.1;
    match e {
        Ev::Open { name, .. } => {
            let l = lowercase(name);
            if stack.len() == 0 {
                (out, seq![(false, skip_tag(l))])
            } else if stack.last().1 {
                (out, stack.push((false, true)))
            } else {
                (
                    if block_tag(l) {
                        out + "\n"@
                    } else {
                        out
                    },
                    stack.push((block_tag(l), skip_tag(l))),
                )
            }
        },
        Ev::Text { text } => {
            if stack.len() > 0 && !stack.last().1 && trim(text).len() > 0 {
                (out + trim(text), stack.push((false, true)))
            } else {
                (out, stack.push((false, true)))
            }
        },
        Ev::Other => (out, stack.push((false, true))),
        Ev::Close => {
            if stack.len() == 0 {
                (out, stack)
            } else {
                (
                    if stack.last().0 {
                        out + "\n"@
                    } else {
                        out
                    },
                    stack.drop_last(),
                )
            }
        },
    }
}

pub open spec fn collect_fold(evs: Seq<Ev>) -> (Seq<char>, Seq<(bool, bool)>)
    decreases evs.len(),
{
    if evs.len() == 0 {
        (seq![], seq![])
    } else {
        collect_step(collect_fold(evs.drop_last()), evs.last())
    }
}

/// The visible text of the subtree walked by `evs`: trimmed non-empty text
/// nodes in order, with line breaks around block elements.
pub open spec fn collected(evs: Seq<Ev>) -> Seq<char> {
    collect_fold(evs).0
}

/// Collects the visible text of the subtree walked by `events`.
pub fn collect_text(events: &Vec<DomEvent>) -> (r: Vec<char>)
    ensures
        r@ == collected(event_views(events@)),
{
    let ghost ev = event_views(events@);
    let mut out: Vec<char> = Vec::new();
    let mut stack: Vec<(bool, bool)> = Vec::new();
    let mut i: usize = 0;
    while i < events.len()
        invariant
            i <= events@.len(),
            ev == event_views(events@),
            out@ == collect_fold(ev.take(i as int)).0,
            stack@ == collect_fold(ev.take(i as int)).1,
        decreases events@.len() - i,
    {
        assert(ev.take(i + 1).drop_last() =~= ev.take(i as int));
        assert(ev.take(i + 1).last() == events@[i as int]@);
        let ghost prev = collect_fold(ev.take(i as int));
        match &events[i] {
            DomEvent::Open { name, .. } => {
                let low = to_lowercase(name.as_str());
                let l = chars_of(low.as_str());
                if stack.len() == 0 {
                    let s = skip_tag_chars(&l);
                    stack.push((false, s));
                    assert(stack@ =~= seq![(false, s)]);
                } else if stack[stack.len() - 1].1 {
                    stack.push((false, true));
                } else {
                    let b = block_tag_chars(&l);
                    if b {
                        out.push('\n');
                        assert(out@ =~= prev.0 + "\n"@) by {
                            reveal_strlit("\n");
                        }
                    }
                    let s = skip_tag_chars(&l);
                    stack.push((b, s));
                }
            },
            DomEvent::Text { text } => {
                let tc = chars_of(text.as_str());
                let t = trim_chars(&tc);
                if stack.len() > 0 && !stack[stack.len() - 1].1 && t.len() > 0 {
                    push_all(&mut out, &t);
                }
                stack.push((false, true));
            },
            DomEvent::Other => {
                stack.push((false, true));
            },
            DomEvent::Close => {
                if stack.len() > 0 {
                    let top = stack.pop().unwrap();
                    if top.0 {
                        out.push('\n');
                        assert(out@ =~= prev.0 + "\n"@) by {
                            reveal_strlit("\n");
                        }
                    }
                    assert(stack@ =~= prev.1.drop_last());
                }
            },
        }
        i = i + 1;
    }
    assert(ev.take(i as int) =~= ev);
    out
}

// ─── Finding elements ──────────────────────────────────────────────────

/// The element a node opens, if the node is an element.
pub open spec fn elem_name(n: NodeV) -> Option<Seq<char>> {
    if n.events.len() > 0 {
        match n.events[0] {
            Ev::Open { name, .. } => Some(name),
            _ => None,
        }
    } else {
        None
    }
}

pub open spec fn elem_role(n: NodeV) -> Option<Seq<char>> {
    if n.events.len() > 0 {
        match n.events[0] {
            Ev::Open { role, .. } => role,
            _ => None,
        }
    } else {
        None
    }
}

/// Which elements a search looks for.
pub enum Pick {
    /// Elements with this local name.
    Named(Seq<char>),
    /// `article`, `main` and `[role="main"]`.
    Semantic,
}

/// Whether node `n` is found by `p`; like `Html::select`, only nodes that
/// have a parent count.
pub open spec fn picks(n: NodeV, p: Pick) -> bool {
    n.attached && match elem_name(n) {
        Some(name) => match p {
            Pick::Named(want) => name == want,
            Pick::Semantic => name == "article"@ || name == "main"@ || elem_role(n) == Some(
                "main"@,
            ),
        },
        None => false,
    }
}

/// The first node at or after `i` that `p` finds.
pub open spec fn first_pick(nodes: Seq<NodeV>, p: Pick, i: int) -> Option<int>
    decreases nodes.len() - i,
{
    if i < 0 || i >= nodes.len() {
        None
    } else if picks(nodes[i], p) {
        Some(i)
    } else {
        first_pick(nodes, p, i + 1)
    }
}

fn open_name(n: &DomNode) -> (r: Option<&String>)
    ensures
        match r {
            Some(s) => elem_name(n@) == Some(s@),
            None => elem_name(n@) is None,
        },
{
    if n.events.len() > 0 {
        match &n.events[0] {
            DomEvent::Open { name, .. } => Some(name),
            _ => None,
        }
    } else {
        None
    }
}

fn is_semantic(n: &DomNode) -> (r: bool)
    ensures
        r == picks(n@, Pick::Semantic),
{
    if !n.attached || n.events.len() == 0 {
        return false;
    }
    match &n.events[0] {
        DomEvent::Open { name, role, .. } => {
            let c = chars_of(name.as_str());
            if eq_lit(&c, "article") || eq_lit(&c, "main") {
                return true;
            }
            match role {
                Some(r) => {
                    let rc = chars_of(r.as_str());
                    let m = eq_lit(&rc, "main");
                    proof {
                        if !m {
                            assert(r@ != "main"@);
                            assert(elem_role(n@) == Some(r@));
                        }
                    }
                    m
                },
                None => false,
            }
        },
        _ => false,
    }
}

fn is_named(n: &DomNode, want: &str) -> (r: bool)
    ensures
        r == picks(n@, Pick::Named(want@)),
{
    if !n.attached {
        return false;
    }
    match open_name(n) {
        Some(name) => {
            let c = chars_of(name.as_str());
            eq_lit(&c, want)
        },
        None => false,
    }
}

/// The first attached element of `nodes` named `want`.
pub fn find_named(nodes: &Vec<DomNode>, want: &str) -> (r: Option<usize>)
    ensures
        match r {
            Some(i) => first_pick(node_views(nodes@), Pick::Named(want@), 0) == Some(i as int),
            None => first_pick(node_views(nodes@), Pick::Named(want@), 0) is None,
        },
        r matches Some(i) ==> i < nodes@.len(),
{
    let ghost nv = node_views(nodes@);
    let mut i: usize = 0;
    while i < nodes.len()
        invariant
            i <= nodes@.len(),
            nv == node_views(nodes@),
            first_pick(nv, Pick::Named(want@), 0) == first_pick(nv, Pick::Named(want@), i as int),
        decreases nodes@.len() - i,
    {
        if is_named(&nodes[i], want) {
            return Some(i);
        }
        i = i + 1;
    }
    None
}

fn find_semantic(nodes: &Vec<DomNode>) -> (r: Option<usize>)
    ensures
        match r {
            Some(i) => first_pick(node_views(nodes@), Pick::Semantic, 0) == Some(i as int),
            None => first_pick(node_views(nodes@), Pick::Semantic, 0) is None,
        },
        r matches Some(i) ==> i < nodes@.len(),
{
    let ghost nv = node_views(nodes@);
    let mut i: usize = 0;
    while i < nodes.len()
        invariant
            i <= nodes@.len(),
            nv == node_views(nodes@),
            first_pick(nv, Pick::Semantic, 0) == first_pick(nv, Pick::Semantic, i as int),
        decreases nodes@.len() - i,
    {
        if is_semantic(&nodes[i]) {
            return Some(i);
        }
        i = i + 1;
    }
    None
}

// ─── The densest container ─────────────────────────────────────────────

/// Elements that may hold the main content.
pub open spec fn container_name(name: Seq<char>) -> bool {
    name == "div"@ || name == "section"@ || name == "article"@ || name == "main"@
}

/// How many of the events open a `<p>` element.
pub open spec fn count_p(evs: Seq<Ev>) -> nat
    decreases evs.len(),
{
    if evs.len() == 0 {
        0
    } else {
        count_p(evs.drop_last()) + match evs.last() {
            Ev::Open { name, .. } => if name == "p"@ {
                1nat
            } else {
                0nat
            },
            _ => 0nat,
        }
    }
}

/// The `<p>` elements strictly inside node `n`.
pub open spec fn p_inside(n: NodeV) -> nat {
    if n.events.len() == 0 {
        0
    } else {
        count_p(n.events.subrange(1, n.events.len() as int))
    }
}

/// The best container among the first `k` nodes: an attached container
/// element with at least two `<p>` inside, the first one with the largest
/// count, as `(index, count)`.
pub open spec fn best_upto(nodes: Seq<NodeV>, k: int) -> Option<(int, nat)>
    decreases k,
{
    if k <= 0 {
        None
    } else {
        let prev = best_upto(nodes, k - 1);
        let n = nodes[k - 1];
        let c = p_inside(n);
        let candidate = n.attached && match elem_name(n) {
            Some(name) => container_name(name),
            None => false,
        } && c >= 2;
        if candidate {
            match prev {
                Some(b) => if c > b.1 {
                    Some((k - 1, c))
                } else {
                    prev
                },
                None => Some((k - 1, c)),
            }
        } else {
            prev
        }
    }
}

fn p_count(n: &DomNode) -> (r: usize)
    ensures
        r == p_inside(n@),
{
    let ghost ev = n@.events;
    if n.events.len() == 0 {
        return 0;
    }
    let ghost inner = ev.subrange(1, ev.len() as int);
    let mut c: usize = 0;
    let mut j: usize = 1;
    while j < n.events.len()
        invariant
            1 <= j <= n.events@.len(),
            ev == n@.events,
            ev.len() == n.events@.len(),
            inner == ev.subrange(1, ev.len() as int),
            c == count_p(inner.take(j - 1)),
            c < j,
        decreases n.events@.len() - j,
    {
        assert(inner.take(j as int).drop_last() =~= inner.take(j - 1));
        assert(inner.take(j as int).last() == n.events@[j as int]@);
        match &n.events[j] {
            DomEvent::Open { name, .. } => {
                let nc = chars_of(name.as_str());
                if eq_lit(&nc, "p") {
                    c = c + 1;
                }
            },
            _ => {},
        }
        j = j + 1;
    }
    assert(inner.take(j - 1) =~= inner);
    c
}

fn is_container(n: &DomNode) -> (r: bool)
    ensures
        r == (n@.attached && match elem_name(n@) {
            Some(name) => container_name(name),
            None => false,
        }),
{
    if !n.attached {
        return false;
    }
    match open_name(n) {
        Some(name) => {
            let c = chars_of(name.as_str());
            eq_lit(&c, "div") || eq_lit(&c, "section") || eq_lit(&c, "article") || eq_lit(
                &c,
                "main",
            )
        },
        None => false,
    }
}

fn densest_container(nodes: &Vec<DomNode>) -> (r: Option<usize>)
    ensures
        match r {
            Some(i) => best_upto(node_views(nodes@), nodes@.len() as int) matches Some(b) && b.0
                == i,
            None => best_upto(node_views(nodes@), nodes@.len() as int) is None,
        },
        r matches Some(i) ==> i < nodes@.len(),
{
    let ghost nv = node_views(nodes@);
    let mut best: Option<(usize, usize)> = None;
    let mut k: usize = 0;
    while k < nodes.len()
        invariant
            k <= nodes@.len(),
            nv == node_views(nodes@),
            match best {
                Some(b) => best_upto(nv, k as int) == Some((b.0 as int, b.1 as nat)),
                None => best_upto(nv, k as int) is None,
            },
            best matches Some(b) ==> b.0 < k,
        decreases nodes@.len() - k,
    {
        assert(nv[k as int] == nodes@[k as int]@);
        if is_container(&nodes[k]) {
            let c = p_count(&nodes[k]);
            if c >= 2 {
                match best {
                    Some(b) => {
                        if c > b.1 {
                            best = Some((k, c));
                        }
                    },
                    None => {
                        best = Some((k, c));
                    },
                }
            }
        }
        k = k + 1;
    }
    match best {
        Some(b) => Some(b.0),
        None => None,
    }
}

/// A container the fallback may choose: an attached container element
/// with at least two paragraphs inside.
pub open spec fn dense_container(n: NodeV) -> bool {
    &&& n.attached
    &&& elem_name(n) matches Some(name) && container_name(name)
    &&& p_inside(n) >= 2
}

proof fn lemma_best_upto(nodes: Seq<NodeV>, k: int)
    requires
        0 <= k <= nodes.len(),
    ensures
        match best_upto(nodes, k) {
            Some((i, c)) => 0 <= i < k && dense_container(nodes[i]) && c == p_inside(nodes[i])
                && forall|j: int| 0 <= j < k && dense_container(#[trigger] nodes[j]) ==> p_inside(nodes[j]) <= c
                    && (j < i ==> p_inside(nodes[j]) < c),
            None => forall|j: int| 0 <= j < k ==> !dense_container(#[trigger] nodes[j]),
        },
    decreases k,
{
    if k > 0 {
        lemma_best_upto(nodes, k - 1);
    }
}

/// Without a semantic element, the fallback chooses the container with the
/// most paragraphs (the first of several equal ones), and chooses nothing
/// only when no container has two paragraphs or more.
pub proof fn law_densest_container(nodes: Seq<NodeV>)
    requires
        first_pick(nodes, Pick::Semantic, 0) is None,
    ensures
        match main_content(nodes) {
            Some(i) => 0 <= i < nodes.len() && dense_container(nodes[i])
                && forall|j: int| 0 <= j < nodes.len() && dense_container(#[trigger] nodes[j])
                    ==> p_inside(nodes[j]) <= p_inside(nodes[i]) && (j < i ==> p_inside(nodes[j]) < p_inside(nodes[i])),
            None => forall|j: int| 0 <= j < nodes.len() ==> !dense_container(#[trigger] nodes[j]),
        },
{
    lemma_best_upto(nodes, nodes.len() as int);
}

/// The main content element: the first attached `article`, `main` or
/// `role="main"` element, else the densest container.
pub open spec fn main_content(nodes: Seq<NodeV>) -> Option<int> {
    match first_pick(nodes, Pick::Semantic, 0) {
        Some(i) => Some(i),
        None => match best_upto(nodes, nodes.len() as int) {
            Some(b) => Some(b.0),
            None => None,
        },
    }
}

/// Locates the main content element of a parsed page (its index in `nodes`).
pub fn find_main_content(nodes: &Vec<DomNode>) -> (r: Option<usize>)
    ensures
        match r {
            Some(i) => main_content(node_views(nodes@)) == Some(i as int),
            None => main_content(node_views(nodes@)) is None,
        },
        r matches Some(i) ==> i < nodes@.len(),
{
    match find_semantic(nodes) {
        Some(i) => Some(i),
        None => densest_container(nodes),
    }
}

// ─── Clean-up and length limit ─────────────────────────────────────────

/// Lines trimmed, each run of blank lines reduced to one empty line; the
/// flag says whether the last line kept was blank.
pub open spec fn tidy_fold(ls: Seq<Seq<char>>) -> (Seq<Seq<char>>, bool)
    decreases ls.len(),
{
    if ls.len() == 0 {
        (seq![], false)
    } else {
        let prev = tidy_fold(ls.drop_last());
        let t = trim(ls.last());
        if t.len() == 0 {
            if prev.1 {
                prev
            } else {
                (prev.0.push(seq![]), true)
            }
        } else {
            (prev.0.push(t), false)
        }
    }
}

/// Tidying leaves no two empty lines in a row, and no line that starts or
/// ends with white space.
pub proof fn law_tidy_no_double_blank(ls: Seq<Seq<char>>)
    ensures
        ({
            let out = tidy_fold(ls);
            &&& out.1 == (out.0.len() > 0 && out.0.last().len() == 0)
            &&& forall|i: int| 0 <= i < out.0.len() - 1 ==> !(#[trigger] out.0[i].len() == 0 && out.0[i + 1].len() == 0)
            &&& forall|i: int| 0 <= i < out.0.len() ==> #[trigger] trim(out.0[i]) == out.0[i]
        }),
    decreases ls.len(),
{
    if ls.len() > 0 {
        law_tidy_no_double_blank(ls.drop_last());
        let prev = tidy_fold(ls.drop_last());
        let t = trim(ls.last());
        crate::text::lemma_trim_idempotent(ls.last());
        let out = tidy_fold(ls);
        assert forall|i: int| 0 <= i < out.0.len() - 1 implies !(#[trigger] out.0[i].len() == 0 && out.0[i + 1].len() == 0) by {
            if i < prev.0.len() - 1 {
                assert(out.0[i] == prev.0[i]);
                assert(out.0[i + 1] == prev.0[i + 1]);
            }
        }
        assert forall|i: int| 0 <= i < out.0.len() implies #[trigger] trim(out.0[i]) == out.0[i] by {
            if i < prev.0.len() {
                assert(out.0[i] == prev.0[i]);
            } else if t.len() == 0 {
                assert(out.0[i] =~= seq![]);
                crate::text::lemma_trim_idempotent(seq![]);
            }
        }
    }
}

/// The text with its lines tidied and joined by "\n".
pub open spec fn tidy(text: Seq<char>) -> Seq<char> {
    join_lines(tidy_fold(lines(text)).0, "\n"@)
}

/// Bytes in the UTF-8 encoding of `c`.
pub open spec fn utf8_width(c: char) -> nat {
    let u = c as u32;
    if u < 0x80 {
        1
    } else if u < 0x800 {
        2
    } else if u < 0x10000 {
        3
    } else {
        4
    }
}

/// Bytes in the UTF-8 encoding of `s` (`str::len`).
pub open spec fn utf8_len(s: Seq<char>) -> nat
    decreases s.len(),
{
    if s.len() == 0 {
        0
    } else {
        utf8_len(s.drop_last()) + utf8_width(s.last())
    }
}

/// How many leading characters of `s` fit in `max` bytes.
pub open spec fn fit_count(s: Seq<char>, max: int) -> nat
    decreases s.len(),
{
    if s.len() == 0 || utf8_width(s[0]) > max {
        0
    } else {
        1 + fit_count(s.drop_first(), max - utf8_width(s[0]))
    }
}

/// `utf8_len` seen from the front.
pub proof fn lemma_utf8_len_front(s: Seq<char>)
    requires
        s.len() > 0,
    ensures
        utf8_len(s) == utf8_width(s[0]) + utf8_len(s.drop_first()),
    decreases s.len(),
{
    if s.len() > 1 {
        lemma_utf8_len_front(s.drop_last());
        assert(s.drop_last().drop_first() =~= s.drop_first().drop_last());
        assert(s.drop_first().last() == s.last());
        assert(s.drop_last()[0] == s[0]);
    } else {
        assert(s.drop_first() =~= seq![]);
        assert(s.drop_last() =~= seq![]);
    }
}

/// `utf8_len` is the length of vstd's UTF-8 encoding, that is `str::len`.
pub proof fn lemma_utf8_len_encoding(s: Seq<char>)
    ensures
        vstd::utf8::encode_utf8(s).len() == utf8_len(s),
    decreases s.len(),
{
    if s.len() > 0 {
        lemma_utf8_len_front(s);
        lemma_utf8_len_encoding(s.drop_first());
        vstd::utf8::char_is_scalar(s[0]);
    }
}

pub proof fn lemma_utf8_len_prefix(s: Seq<char>, k: int)
    requires
        0 <= k <= s.len(),
    ensures
        utf8_len(s.take(k)) <= utf8_len(s),
    decreases s.len() - k,
{
    if k < s.len() {
        lemma_utf8_len_prefix(s, k + 1);
        assert(s.take(k + 1).drop_last() =~= s.take(k));
    } else {
        assert(s.take(k) =~= s);
    }
}

pub proof fn lemma_fit_count_bound(s: Seq<char>, max: int)
    ensures
        fit_count(s, max) <= s.len(),
    decreases s.len(),
{
    if s.len() > 0 && utf8_width(s[0]) <= max {
        lemma_fit_count_bound(s.drop_first(), max - utf8_width(s[0]));
    }
}

/// Cutting keeps the first `max` characters: when `max` is not 0 and the
/// text has more than `max` characters, the result is its first `max`
/// characters followed by the marker; otherwise the text is left as it is.
pub proof fn law_limit_keeps_first_chars(text: Seq<char>, max: int)
    ensures
        max > 0 && text.len() > max ==> limit(text, max) == text.take(max) + cut_marker()
            && limit(text, max).len() == max + cut_marker().len(),
        !(max > 0 && text.len() > max) ==> limit(text, max) == text,
{
}

/// Counts the leading characters of `s` that fit in `max` bytes, and their
/// bytes; fewer than all fit exactly when `s` is longer than `max` bytes.
pub(crate) fn fit_prefix(s: &[char], max: usize) -> (r: (usize, usize))
    ensures
        r.0 == fit_count(s@, max as int),
        r.1 == utf8_len(s@.take(r.0 as int)),
        r.1 <= max,
        r.0 < s@.len() <==> utf8_len(s@) > max,
{
    let mut k: usize = 0;
    let mut bytes: usize = 0;
    assert(s@.skip(0) =~= s@);
    assert(s@.take(0) =~= seq![]);
    while k < s.len()
        invariant_except_break
            k <= s@.len(),
            bytes == utf8_len(s@.take(k as int)),
            bytes <= max,
            fit_count(s@, max as int) == k + fit_count(s@.skip(k as int), max - bytes),
        ensures
            k <= s@.len(),
            bytes == utf8_len(s@.take(k as int)),
            bytes <= max,
            fit_count(s@, max as int) == k,
            k < s@.len() ==> bytes + utf8_width(s@[k as int]) > max,
        decreases s@.len() - k,
    {
        let u = s[k] as u32;
        let w: usize = if u < 0x80 {
            1
        } else if u < 0x800 {
            2
        } else if u < 0x10000 {
            3
        } else {
            4
        };
        assert(s@.skip(k as int)[0] == s@[k as int]);
        if w > max - bytes {
            break;
        }
        assert(s@.skip(k as int).drop_first() =~= s@.skip(k + 1));
        assert(s@.take(k + 1).drop_last() =~= s@.take(k as int));
        bytes = bytes + w;
        k = k + 1;
    }
    proof {
        if k < s@.len() {
            lemma_utf8_len_prefix(s@, k + 1);
            assert(s@.take(k + 1).drop_last() =~= s@.take(k as int));
        } else {
            assert(s@.take(k as int) =~= s@);
        }
    }
    (k, bytes)
}

/// The byte index where a string longer than `max` bytes is cut: the largest
/// character boundary not beyond `max`.
pub fn find_char_boundary(s: &str, max: usize) -> (r: usize)
    ensures
        r == utf8_len(s@.take(fit_count(s@, max as int) as int)),
        r <= max,
{
    let c = chars_of(s);
    let (_, b) = fit_prefix(&c, max);
    b
}

/// Appended when text is cut.
pub open spec fn cut_marker() -> Seq<char> {
    "\n\n[内容已截断...]"@
}

/// `text` itself, or, when `max` is not 0 and `text` has more than `max`
/// characters, its first `max` characters followed by the marker.
pub open spec fn limit(text: Seq<char>, max: int) -> Seq<char> {
    if max > 0 && text.len() > max {
        text.take(max) + cut_marker()
    } else {
        text
    }
}

/// What the clean-up makes of collected text: tidied, then limited.
pub open spec fn finish(text: Seq<char>, max: int) -> Seq<char> {
    limit(tidy(text), max)
}

fn tidy_lines(ls: &Vec<Vec<char>>) -> (r: Vec<Vec<char>>)
    ensures
        views(r@) == tidy_fold(views(ls@)).0,
{
    let ghost lv = views(ls@);
    let mut cleaned: Vec<Vec<char>> = Vec::new();
    let mut prev_empty = false;
    let mut i: usize = 0;
    while i < ls.len()
        invariant
            i <= ls@.len(),
            lv == views(ls@),
            views(cleaned@) == tidy_fold(lv.take(i as int)).0,
            prev_empty == tidy_fold(lv.take(i as int)).1,
        decreases ls@.len() - i,
    {
        assert(lv.take(i + 1).drop_last() =~= lv.take(i as int));
        assert(lv.take(i + 1).last() == ls@[i as int]@);
        let t = trim_chars(&ls[i]);
        if t.len() == 0 {
            if !prev_empty {
                let ghost before = cleaned@;
                cleaned.push(Vec::new());
                assert(views(cleaned@) =~= views(before).push(seq![]));
                prev_empty = true;
            }
        } else {
            let ghost before = cleaned@;
            cleaned.push(t);
            assert(views(cleaned@) =~= views(before).push(trim(lv[i as int])));
            prev_empty = false;
        }
        i = i + 1;
    }
    assert(lv.take(i as int) =~= lv);
    cleaned
}

fn finish_chars(text: &[char], max_chars: usize) -> (r: Vec<char>)
    ensures
        r@ == finish(text@, max_chars as int),
{
    let ls = lines_chars(text);
    let cleaned = tidy_lines(&ls);
    let nl = chars_of("\n");
    let mut result = join_chars(&cleaned, &nl);
    if max_chars > 0 && result.len() > max_chars {
        result.truncate(max_chars);
        let marker = chars_of("\n\n[内容已截断...]");
        push_all(&mut result, &marker);
    }
    result
}

/// Tidies `text` and cuts it to `max_chars` characters (0: no limit).
pub fn truncate_and_normalize(text: &str, max_chars: usize) -> (r: String)
    ensures
        r@ == finish(text@, max_chars as int),
{
    let c = chars_of(text);
    let r = finish_chars(&c, max_chars);
    string_of(&r)
}

// ─── Extraction ────────────────────────────────────────────────────────

/// How a page's text is extracted.
#[derive(Clone, Copy, PartialEq, Eq, Debug)]
pub enum ExtractMode {
    /// Every visible text node under `<body>`.
    Text,
    /// Only the main content element, found as described above.
    Readability,
}

/// The result of extraction from a parsed page.
pub open spec fn extracted(nodes: Seq<NodeV>, mode: ExtractMode, max: int) -> Seq<char> {
    let body = first_pick(nodes, Pick::Named("body"@), 0);
    let source = match mode {
        ExtractMode::Text => body,
        ExtractMode::Readability => match main_content(nodes) {
            Some(i) => Some(i),
            None => body,
        },
    };
    match source {
        Some(i) => finish(collected(nodes[i].events), max),
        None => seq![],
    }
}

fn text_of_node(nodes: &Vec<DomNode>, i: usize, max_chars: usize) -> (r: String)
    requires
        i < nodes@.len(),
    ensures
        r@ == finish(collected(node_views(nodes@)[i as int].events), max_chars as int),
{
    let t = collect_text(&nodes[i].events);
    let f = finish_chars(&t, max_chars);
    string_of(&f)
}

/// Text mode on a parsed page.
pub fn extract_text(nodes: &Vec<DomNode>, max_chars: usize) -> (r: String)
    ensures
        r@ == extracted(node_views(nodes@), ExtractMode::Text, max_chars as int),
{
    match find_named(nodes, "body") {
        Some(b) => text_of_node(nodes, b, max_chars),
        None => String::new(),
    }
}

/// Readability mode on a parsed page.
pub fn extract_readability(nodes: &Vec<DomNode>, max_chars: usize) -> (r: String)
    ensures
        r@ == extracted(node_views(nodes@), ExtractMode::Readability, max_chars as int),
{
    match find_main_content(nodes) {
        Some(i) => text_of_node(nodes, i, max_chars),
        None => extract_text(nodes, max_chars),
    }
}

/// Extraction from an already parsed page.
pub fn extract_from_nodes(nodes: &Vec<DomNode>, mode: ExtractMode, max_chars: usize) -> (r:
    String)
    ensures
        r@ == extracted(node_views(nodes@), mode, max_chars as int),
{
    match mode {
        ExtractMode::Text => extract_text(nodes, max_chars),
        ExtractMode::Readability => extract_readability(nodes, max_chars),
    }
}

/// Extracts the text of an HTML page; `max_chars` limits the result in
/// characters (0: no limit).
pub fn extract_content(html: &str, mode: ExtractMode, max_chars: usize) -> (r: String)
    ensures
        r@ == extracted(parsed_dom(html@), mode, max_chars as int),
{
    let nodes = parse_document(html);
    extract_from_nodes(&nodes, mode, max_chars)
}

// ─── Page title ────────────────────────────────────────────────────────

/// All text nodes of a walk, concatenated (`ElementRef::text`).
pub open spec fn all_text(evs: Seq<Ev>) -> Seq<char>
    decreases evs.len(),
{
    if evs.len() == 0 {
        seq![]
    } else {
        all_text(evs.drop_last()) + match evs.last() {
            Ev::Text { text } => text,
            _ => seq![],
        }
    }
}

/// The page title: the trimmed text of the first attached `<title>`
/// element, or empty.
pub open spec fn title_of(nodes: Seq<NodeV>) -> Seq<char> {
    match first_pick(nodes, Pick::Named("title"@), 0) {
        Some(i) => trim(all_text(nodes[i].events)),
        None => seq![],
    }
}

/// The title of a parsed page.
pub fn title_from_nodes(nodes: &Vec<DomNode>) -> (r: String)
    ensures
        r@ == title_of(node_views(nodes@)),
{
    match find_named(nodes, "title") {
        Some(i) => {
            let evs = &nodes[i].events;
            let ghost ev = event_views(evs@);
            let mut acc: Vec<char> = Vec::new();
            let mut j: usize = 0;
            while j < evs.len()
                invariant
                    j <= evs@.len(),
                    ev == event_views(evs@),
                    acc@ == all_text(ev.take(j as int)),
                decreases evs@.len() - j,
            {
                assert(ev.take(j + 1).drop_last() =~= ev.take(j as int));
                assert(ev.take(j + 1).last() == evs@[j as int]@);
                match &evs[j] {
                    DomEvent::Text { text } => {
                        let tc = chars_of(text.as_str());
                        push_all(&mut acc, &tc);
                    },
                    _ => {
                        assert(acc@ =~= acc@ + seq![]);
                    },
                }
                j = j + 1;
            }
            assert(ev.take(j as int) =~= ev);
            let t = trim_chars(&acc);
            string_of(&t)
        },
        None => String::new(),
    }
}

/// The title of an HTML page.
pub fn page_title(html: &str) -> (r: String)
    ensures
        r@ == title_of(parsed_dom(html@)),
{
    let nodes = parse_document(html);
    title_from_nodes(&nodes)
}

} // verus!
