//! Picks the part of a document most likely to be its main content.
use vstd::prelude::*;
use crate::dom::{attr_value, eq_lit, get_attr, skipped, tag_kind, Node, TagKind};
use crate::filter::{resolve_url, resolved, should_render_image};
use crate::render::{
    entry_state, image_candidate, image_source, initial_state, lemma_kids_shape,
    lemma_node_shape, render_kids, render_node, HtmlRenderer, RenderState, rendered, blocks_view,
    MAX_IMAGES,
};
use crate::text::{matches_at, occurs_at, to_chars};

verus! {

/// A content root is accepted only when its markup is longer than this.
pub const MIN_CONTENT_CHARS: usize = 500;

/// What one simple selector tests.
#[derive(PartialEq, Eq, Structural, Clone, Copy, Debug)]
pub enum StepKind {
    /// The tag name equals `name`.
    Tag,
    /// The `id` attribute equals `name`.
    Id,
    /// The `class` attribute lists `name` among its words.
    Class,
    /// The attribute `name` equals `value`.
    Attr,
}

/// One simple selector.
pub struct Step {
    pub kind: StepKind,
    pub name: String,
    pub value: String,
}

/// A structural pattern: an element matching `inner`, below an element
/// matching `outer` when there is one.
pub struct Pattern {
    pub outer: Option<Step>,
    pub inner: Step,
}

pub type StepView = (StepKind, Seq<char>, Seq<char>);

impl Step {
    pub open spec fn view(&self) -> StepView {
        (self.kind, self.name@, self.value@)
    }
}

impl Pattern {
    pub open spec fn outer_view(&self) -> Option<StepView> {
        match self.outer {
            Some(s) => Some(s.view()),
            None => None,
        }
    }
}

pub open spec fn is_ascii_ws(c: char) -> bool {
    c == ' ' || c == '\t' || c == '\n' || c == '\x0c' || c == '\r'
}

/// `w` is one of the whitespace-separated words of `c`.
pub open spec fn has_word(c: Seq<char>, w: Seq<char>) -> bool {
    exists|i: int|
        occurs_at(c, w, i) && (i == 0 || is_ascii_ws(c[i - 1])) && (i + w.len() == c.len()
            || is_ascii_ws(c[i + w.len()]))
}

pub open spec fn step_holds(tag: Seq<char>, attrs: Seq<(String, String)>, s: StepView) -> bool {
    match s.0 {
        StepKind::Tag => tag == s.1,
        StepKind::Id => attr_value(attrs, "id"@) == Some(s.1),
        StepKind::Class => match attr_value(attrs, "class"@) {
            Some(c) => s.1.len() > 0 && has_word(c, s.1),
            None => false,
        },
        StepKind::Attr => attr_value(attrs, s.1) == Some(s.2),
    }
}

pub fn contains_word(c: &Vec<char>, w: &Vec<char>) -> (r: bool)
    ensures
        r == has_word(c@, w@),
{
    if w.len() > c.len() {
        return false;
    }
    let last = c.len() - w.len();
    let n = c.len();
    let mut i: usize = 0;
    while i <= last
        invariant
            n == c@.len(),
            last == c@.len() - w@.len(),
            i <= last + 1,
            forall|j: int|
                0 <= j < i ==> !(occurs_at(c@, w@, j) && (j == 0 || is_ascii_ws(c@[j - 1])) && (j
                    + w@.len() == c@.len() || is_ascii_ws(c@[j + w@.len()]))),
        decreases last + 1 - i,
    {
        if matches_at(c, w, i) {
            let before_ok = i == 0 || {
                let p = c[i - 1];
                p == ' ' || p == '\t' || p == '\n' || p == '\x0c' || p == '\r'
            };
            let after_ok = i == last || {
                let q = c[i + w.len()];
                q == ' ' || q == '\t' || q == '\n' || q == '\x0c' || q == '\r'
            };
            if before_ok && after_ok {
                return true;
            }
        }
        if i == last {
            assert forall|j: int|
                #![auto]
                occurs_at(c@, w@, j) && (j == 0 || is_ascii_ws(c@[j - 1])) && (j + w@.len()
                    == c@.len() || is_ascii_ws(c@[j + w@.len()])) implies false by {
                assert(j <= last);
            }
            return false;
        }
        i = i + 1;
    }
    false
}

pub fn step_matches(tag: &String, attrs: &Vec<(String, String)>, s: &Step) -> (r: bool)
    ensures
        r == step_holds(tag@, attrs@, s.view()),
{
    match s.kind {
        StepKind::Tag => eq_lit(&to_chars(tag.as_str()), s.name.as_str()),
        StepKind::Id => match get_attr(attrs, "id") {
            Some(v) => eq_lit(&to_chars(v.as_str()), s.name.as_str()),
            None => false,
        },
        StepKind::Class => match get_attr(attrs, "class") {
            Some(c) => {
                let w = to_chars(s.name.as_str());
                w.len() > 0 && contains_word(&to_chars(c.as_str()), &w)
            },
            None => false,
        },
        StepKind::Attr => match get_attr(attrs, s.name.as_str()) {
            Some(v) => eq_lit(&to_chars(v.as_str()), s.value.as_str()),
            None => false,
        },
    }
}

/// Whether the element `n` matches `s`; a text node matches nothing.
pub open spec fn node_holds(n: Node, s: StepView) -> bool {
    match n {
        Node::Element { tag, attrs, .. } => step_holds(tag@, attrs@, s),
        Node::Text { .. } => false,
    }
}

/// The first node, in document order, at or below `n` that matches `inner`
/// and, when `outer` is given and `seen` is false, lies strictly below a
/// node matching `outer`.
pub open spec fn first_match(
    n: Node,
    outer: Option<StepView>,
    inner: StepView,
    seen: bool,
) -> Option<Node>
    decreases n, 1nat, 0nat,
{
    let ready = seen || outer is None;
    if ready && node_holds(n, inner) {
        Some(n)
    } else {
        let seen2 = ready || node_holds(n, outer->0);
        first_match_kids(n, 0, outer, inner, seen2)
    }
}

pub open spec fn first_match_kids(
    n: Node,
    i: nat,
    outer: Option<StepView>,
    inner: StepView,
    seen: bool,
) -> Option<Node>
    decreases n, 0nat, n.kids().len() - i,
{
    if i >= n.kids().len() {
        None
    } else {
        match first_match(n.kids()[i as int], outer, inner, seen) {
            Some(m) => Some(m),
            None => first_match_kids(n, i + 1, outer, inner, seen),
        }
    }
}

pub fn find_first<'a>(n: &'a Node, p: &Pattern, seen: bool) -> (r: Option<&'a Node>)
    ensures
        match r {
            Some(m) => first_match(*n, p.outer_view(), p.inner.view(), seen) == Some(*m),
            None => first_match(*n, p.outer_view(), p.inner.view(), seen) is None,
        },
    decreases *n,
{
    match n {
        Node::Text { .. } => None,
        Node::Element { tag, attrs, children, .. } => {
            let ready = seen || p.outer.is_none();
            if ready && step_matches(tag, attrs, &p.inner) {
                return Some(n);
            }
            let seen2 = ready || match &p.outer {
                Some(o) => step_matches(tag, attrs, o),
                None => false,
            };
            let mut i: usize = 0;
            while i < children.len()
                invariant
                    i <= children@.len(),
                    n.kids() == children@,
                    first_match(*n, p.outer_view(), p.inner.view(), seen) == first_match_kids(
                        *n,
                        i as nat,
                        p.outer_view(),
                        p.inner.view(),
                        seen2,
                    ),
                decreases children@.len() - i,
            {
                match find_first(&children[i], p, seen2) {
                    Some(m) => {
                        return Some(m);
                    },
                    None => {},
                }
                i = i + 1;
            }
            None
        },
    }
}

/// Number of content patterns, tried in order.
pub const NUM_PATTERNS: usize = 25;

/// The `i`-th content pattern: site-specific containers first, then generic
/// article, main and documentation containers, then the body.
pub open spec fn pattern_spec(i: nat) -> (Option<StepView>, StepView) {
    if i == 0 {
        (Some((StepKind::Id, "mw-content-text"@, ""@)), (StepKind::Class, "mw-parser-output"@, ""@))
    } else if i == 1 {
        (None, (StepKind::Id, "mw-content-text"@, ""@))
    } else if i == 2 {
        (None, (StepKind::Id, "bodyContent"@, ""@))
    } else if i == 3 {
        (Some((StepKind::Class, "question"@, ""@)), (StepKind::Class, "s-prose"@, ""@))
    } else if i == 4 {
        (Some((StepKind::Class, "answercell"@, ""@)), (StepKind::Class, "s-prose"@, ""@))
    } else if i == 5 {
        (None, (StepKind::Id, "mainbar"@, ""@))
    } else if i == 6 {
        (Some((StepKind::Tag, "article"@, ""@)), (StepKind::Class, "post-content"@, ""@))
    } else if i == 7 {
        (Some((StepKind::Tag, "article"@, ""@)), (StepKind::Class, "entry-content"@, ""@))
    } else if i == 8 {
        (Some((StepKind::Tag, "article"@, ""@)), (StepKind::Class, "content"@, ""@))
    } else if i == 9 {
        (None, (StepKind::Tag, "article"@, ""@))
    } else if i == 10 {
        (Some((StepKind::Tag, "main"@, ""@)), (StepKind::Class, "content"@, ""@))
    } else if i == 11 {
        (Some((StepKind::Tag, "main"@, ""@)), (StepKind::Tag, "article"@, ""@))
    } else if i == 12 {
        (None, (StepKind::Id, "main-content"@, ""@))
    } else if i == 13 {
        (None, (StepKind::Class, "main-content"@, ""@))
    } else if i == 14 {
        (None, (StepKind::Attr, "role"@, "main"@))
    } else if i == 15 {
        (None, (StepKind::Tag, "main"@, ""@))
    } else if i == 16 {
        (None, (StepKind::Class, "post-body"@, ""@))
    } else if i == 17 {
        (None, (StepKind::Class, "article-body"@, ""@))
    } else if i == 18 {
        (None, (StepKind::Class, "story-body"@, ""@))
    } else if i == 19 {
        (None, (StepKind::Class, "markdown-body"@, ""@))
    } else if i == 20 {
        (None, (StepKind::Class, "documentation"@, ""@))
    } else if i == 21 {
        (None, (StepKind::Class, "doc-content"@, ""@))
    } else if i == 22 {
        (None, (StepKind::Id, "readme"@, ""@))
    } else if i == 23 {
        (None, (StepKind::Id, "content"@, ""@))
    } else {
        (None, (StepKind::Tag, "body"@, ""@))
    }
}

pub fn step(kind: StepKind, name: &str, value: &str) -> (r: Step)
    ensures
        r.view() == (kind, name@, value@),
{
    Step { kind, name: name.to_owned(), value: value.to_owned() }
}

pub fn content_pattern(i: usize) -> (r: Pattern)
    ensures
        (r.outer_view(), r.inner.view()) == pattern_spec(i as nat),
{
    if i == 0 {
        Pattern { outer: Some(step(StepKind::Id, "mw-content-text", "")), inner: step(StepKind::Class, "mw-parser-output", "") }
    } else if i == 1 {
        Pattern { outer: None, inner: step(StepKind::Id, "mw-content-text", "") }
    } else if i == 2 {
        Pattern { outer: None, inner: step(StepKind::Id, "bodyContent", "") }
    } else if i == 3 {
        Pattern { outer: Some(step(StepKind::Class, "question", "")), inner: step(StepKind::Class, "s-prose", "") }
    } else if i == 4 {
        Pattern { outer: Some(step(StepKind::Class, "answercell", "")), inner: step(StepKind::Class, "s-prose", "") }
    } else if i == 5 {
        Pattern { outer: None, inner: step(StepKind::Id, "mainbar", "") }
    } else if i == 6 {
        Pattern { outer: Some(step(StepKind::Tag, "article", "")), inner: step(StepKind::Class, "post-content", "") }
    } else if i == 7 {
        Pattern { outer: Some(step(StepKind::Tag, "article", "")), inner: step(StepKind::Class, "entry-content", "") }
    } else if i == 8 {
        Pattern { outer: Some(step(StepKind::Tag, "article", "")), inner: step(StepKind::Class, "content", "") }
    } else if i == 9 {
        Pattern { outer: None, inner: step(StepKind::Tag, "article", "") }
    } else if i == 10 {
        Pattern { outer: Some(step(StepKind::Tag, "main", "")), inner: step(StepKind::Class, "content", "") }
    } else if i == 11 {
        Pattern { outer: Some(step(StepKind::Tag, "main", "")), inner: step(StepKind::Tag, "article", "") }
    } else if i == 12 {
        Pattern { outer: None, inner: step(StepKind::Id, "main-content", "") }
    } else if i == 13 {
        Pattern { outer: None, inner: step(StepKind::Class, "main-content", "") }
    } else if i == 14 {
        Pattern { outer: None, inner: step(StepKind::Attr, "role", "main") }
    } else if i == 15 {
        Pattern { outer: None, inner: step(StepKind::Tag, "main", "") }
    } else if i == 16 {
        Pattern { outer: None, inner: step(StepKind::Class, "post-body", "") }
    } else if i == 17 {
        Pattern { outer: None, inner: step(StepKind::Class, "article-body", "") }
    } else if i == 18 {
        Pattern { outer: None, inner: step(StepKind::Class, "story-body", "") }
    } else if i == 19 {
        Pattern { outer: None, inner: step(StepKind::Class, "markdown-body", "") }
    } else if i == 20 {
        Pattern { outer: None, inner: step(StepKind::Class, "documentation", "") }
    } else if i == 21 {
        Pattern { outer: None, inner: step(StepKind::Class, "doc-content", "") }
    } else if i == 22 {
        Pattern { outer: None, inner: step(StepKind::Id, "readme", "") }
    } else if i == 23 {
        Pattern { outer: None, inner: step(StepKind::Id, "content", "") }
    } else {
        Pattern { outer: None, inner: step(StepKind::Tag, "body", "") }
    }
}

/// Length of an element's serialised markup, as the parser gave it; a text
/// node has none.
pub open spec fn markup_len(n: Node) -> nat {
    match n {
        Node::Element { html_len, .. } => html_len as nat,
        Node::Text { .. } => 0,
    }
}

/// The first pattern, from the `i`-th on, whose first match is longer than
/// `MIN_CONTENT_CHARS`, and that match.
pub open spec fn accepted_from(doc: Node, i: nat) -> Option<Node>
    decreases NUM_PATTERNS - i,
{
    if i >= NUM_PATTERNS {
        None
    } else {
        match first_match(doc, pattern_spec(i).0, pattern_spec(i).1, false) {
            Some(m) => if markup_len(m) > MIN_CONTENT_CHARS {
                Some(m)
            } else {
                accepted_from(doc, i + 1)
            },
            None => accepted_from(doc, i + 1),
        }
    }
}

/// The body pattern used when no content pattern is accepted.
pub open spec fn body_step() -> StepView {
    (StepKind::Tag, "body"@, ""@)
}

/// The subtree rendered for a document: the first accepted pattern match,
/// else the first `body` element, else the whole document.
pub open spec fn content_root(doc: Node) -> Node {
    match accepted_from(doc, 0) {
        Some(m) => m,
        None => match first_match(doc, None, body_step(), false) {
            Some(b) => b,
            None => doc,
        },
    }
}

/// When no content pattern is accepted, the document is still rendered: from
/// its first `body` element, or from the whole document when it has none.
pub proof fn lemma_content_root_fallback(doc: Node)
    requires
        accepted_from(doc, 0) is None,
    ensures
        content_root(doc) == match first_match(doc, None, body_step(), false) {
            Some(b) => b,
            None => doc,
        },
        first_match(doc, None, body_step(), false) is None ==> content_root(doc) == doc,
{
}

pub fn select_content_root<'a>(doc: &'a Node) -> (r: &'a Node)
    ensures
        *r == content_root(*doc),
{
    let mut i: usize = 0;
    while i < NUM_PATTERNS
        invariant
            i <= NUM_PATTERNS,
            accepted_from(*doc, 0) == accepted_from(*doc, i as nat),
        decreases NUM_PATTERNS - i,
    {
        let p = content_pattern(i);
        match find_first(doc, &p, false) {
            Some(m) => {
                let long = match m {
                    Node::Element { html_len, .. } => *html_len > MIN_CONTENT_CHARS,
                    Node::Text { .. } => false,
                };
                if long {
                    return m;
                }
            },
            None => {},
        }
        i = i + 1;
    }
    let body = Pattern { outer: None, inner: step(StepKind::Tag, "body", "") };
    match find_first(doc, &body, false) {
        Some(b) => b,
        None => doc,
    }
}

/// Renders the main content of `document`. `images` holds one entry per
/// image fetch, in the order `page_image_sources` lists the addresses.
pub fn extract_content_with_images(
    document: &Node,
    base_url: &str,
    images: Vec<Option<String>>,
) -> (r: String)
    ensures
        r@ == rendered(content_root(*document), base_url@, blocks_view(images@)),
{
    let root = select_content_root(document);
    let mut renderer = HtmlRenderer::new(base_url, images);
    renderer.render_element(root);
    renderer.finish()
}

/// The image addresses rendering `n` asks for, in document order, when no
/// cap applies.
pub open spec fn image_sources(n: Node, base: Seq<char>) -> Seq<Seq<char>>
    decreases n, 1nat, 0nat,
{
    match n {
        Node::Text { .. } => seq![],
        Node::Element { tag, attrs, .. } => {
            let k = tag_kind(tag@);
            if skipped(tag@, attrs@) || k == TagKind::LineBreak || k == TagKind::Rule {
                seq![]
            } else if k == TagKind::Image {
                if image_candidate(attrs@, base) {
                    seq![resolved(image_source(attrs@)->0, base)->0]
                } else {
                    seq![]
                }
            } else {
                kids_sources(n, 0, base)
            }
        },
    }
}

pub open spec fn kids_sources(n: Node, i: nat, base: Seq<char>) -> Seq<Seq<char>>
    decreases n, 0nat, n.kids().len() - i,
{
    if i >= n.kids().len() {
        seq![]
    } else {
        image_sources(n.kids()[i as int], base) + kids_sources(n, i + 1, base)
    }
}

pub open spec fn strings_view(v: Seq<String>) -> Seq<Seq<char>> {
    v.map_values(|s: String| s@)
}

fn collect_sources(n: &Node, base: &str, out: &mut Vec<String>)
    ensures
        strings_view(final(out)@) == strings_view(old(out)@) + image_sources(*n, base@),
    decreases *n,
{
    let (tag, attrs, children, html_len) = match n {
        Node::Text { .. } => {
            assert(strings_view(out@) =~= strings_view(out@) + Seq::<Seq<char>>::empty());
            return;
        },
        Node::Element { tag, attrs, children, html_len } => (tag, attrs, children, html_len),
    };
    let k = crate::dom::classify(tag.as_str());
    if matches!(k, TagKind::Excluded) || crate::dom::has_denied_class(attrs) || matches!(
        k,
        TagKind::LineBreak,
    ) || matches!(k, TagKind::Rule) {
        assert(strings_view(out@) =~= strings_view(out@) + Seq::<Seq<char>>::empty());
        return;
    }
    if matches!(k, TagKind::Image) {
        let src = match get_attr(attrs, "src") {
            Some(s) => Some(s),
            None => match get_attr(attrs, "data-src") {
                Some(s) => Some(s),
                None => get_attr(attrs, "data-lazy-src"),
            },
        };
        match src {
            Some(s) => {
                if should_render_image(s.as_str()) {
                    match resolve_url(s.as_str(), base) {
                        Some(u) => {
                            out.push(u);
                            assert(strings_view(out@) =~= strings_view(old(out)@) + image_sources(
                                *n,
                                base@,
                            ));
                            return;
                        },
                        None => {},
                    }
                }
            },
            None => {},
        }
        assert(strings_view(out@) =~= strings_view(out@) + Seq::<Seq<char>>::empty());
        return;
    }
    let mut i: usize = 0;
    while i < children.len()
        invariant
            i <= children@.len(),
            n.kids() == children@,
            !skipped(tag@, attrs@),
            tag_kind(tag@) != TagKind::LineBreak && tag_kind(tag@) != TagKind::Rule
                && tag_kind(tag@) != TagKind::Image,
            *n == (Node::Element {
                tag: *tag,
                attrs: *attrs,
                children: *children,
                html_len: *html_len,
            }),
            strings_view(old(out)@) + image_sources(*n, base@) == strings_view(out@)
                + kids_sources(*n, i as nat, base@),
        decreases children@.len() - i,
    {
        let ghost before = strings_view(out@);
        collect_sources(&children[i], base, out);
        assert(before + kids_sources(*n, i as nat, base@) =~= strings_view(out@) + kids_sources(
            *n,
            (i + 1) as nat,
            base@,
        ));
        i = i + 1;
    }
    assert(strings_view(out@) + kids_sources(*n, i as nat, base@) =~= strings_view(out@));
}

/// The addresses of the images that rendering `document` against
/// `base_url` fetches, in order, before any cap applies.
pub fn page_image_sources(document: &Node, base_url: &str) -> (r: Vec<String>)
    ensures
        strings_view(r@) == image_sources(content_root(*document), base_url@),
{
    let root = select_content_root(document);
    let mut out: Vec<String> = Vec::new();
    collect_sources(root, base_url, &mut out);
    assert(strings_view(Seq::<String>::empty()) =~= Seq::<Seq<char>>::empty());
    assert(Seq::<Seq<char>>::empty() + image_sources(*root, base_url@) =~= image_sources(
        *root,
        base_url@,
    ));
    out
}

pub open spec fn is_prefix(a: Seq<Seq<char>>, b: Seq<Seq<char>>) -> bool {
    a.len() <= b.len() && a == b.take(a.len() as int)
}

/// What rendering `n` from `st` asks for: it extends the addresses asked
/// for by a prefix of `image_sources(n, base)`, all of it unless the image
/// cap is reached, and nothing once the cap has been reached.
pub open spec fn asks_in_order(
    st: RenderState,
    r: RenderState,
    sources: Seq<Seq<char>>,
) -> bool {
    let new = r.requested.skip(st.requested.len() as int);
    &&& r.requested.len() >= st.requested.len()
    &&& r.requested == st.requested + new
    &&& is_prefix(new, sources)
    &&& (new.len() < sources.len() ==> r.image_count >= MAX_IMAGES)
    &&& (st.image_count >= MAX_IMAGES ==> r.requested == st.requested)
}

proof fn lemma_asks_unchanged(st: RenderState, r: RenderState, sources: Seq<Seq<char>>)
    requires
        r.requested == st.requested,
        sources.len() == 0 || r.image_count >= MAX_IMAGES,
    ensures
        asks_in_order(st, r, sources),
{
    assert(r.requested.skip(st.requested.len() as int) =~= Seq::<Seq<char>>::empty());
    assert(st.requested + Seq::<Seq<char>>::empty() =~= st.requested);
    assert(sources.take(0) =~= Seq::<Seq<char>>::empty());
}

proof fn lemma_asks_node(st: RenderState, n: Node, base: Seq<char>, images: Seq<Option<Seq<char>>>)
    requires
        st.image_count <= MAX_IMAGES,
    ensures
        asks_in_order(st, render_node(st, n, base, images), image_sources(n, base)),
    decreases n, 1nat, 0nat,
{
    let r = render_node(st, n, base, images);
    let srcs = image_sources(n, base);
    match n {
        Node::Text { .. } => lemma_asks_unchanged(st, r, srcs),
        Node::Element { tag, attrs, .. } => {
            let k = tag_kind(tag@);
            if skipped(tag@, attrs@) || k == TagKind::LineBreak || k == TagKind::Rule {
                lemma_asks_unchanged(st, r, srcs);
            } else if k == TagKind::Image {
                if st.image_count >= MAX_IMAGES || !image_candidate(attrs@, base) {
                    lemma_asks_unchanged(st, r, srcs);
                } else {
                    assert(r.requested.skip(st.requested.len() as int) =~= srcs);
                    assert(srcs.take(srcs.len() as int) =~= srcs);
                    assert(r.requested =~= st.requested + srcs);
                }
            } else {
                let a = entry_state(st, k);
                assert(a.requested == st.requested && a.image_count == st.image_count);
                lemma_asks_kids(a, n, 0, base, images);
                let b = render_kids(a, n, 0, base, images);
                assert(r.requested == b.requested && r.image_count == b.image_count);
            }
        },
    }
}

proof fn lemma_asks_kids(
    st: RenderState,
    n: Node,
    i: nat,
    base: Seq<char>,
    images: Seq<Option<Seq<char>>>,
)
    requires
        st.image_count <= MAX_IMAGES,
    ensures
        asks_in_order(st, render_kids(st, n, i, base, images), kids_sources(n, i, base)),
    decreases n, 0nat, n.kids().len() - i,
{
    let r = render_kids(st, n, i, base, images);
    if i >= n.kids().len() {
        lemma_asks_unchanged(st, r, kids_sources(n, i, base));
    } else {
        let c = n.kids()[i as int];
        let r1 = render_node(st, c, base, images);
        lemma_asks_node(st, c, base, images);
        lemma_node_shape(st, c, base, images);
        lemma_asks_kids(r1, n, i + 1, base, images);
        lemma_kids_shape(r1, n, i + 1, base, images);
        let s1 = image_sources(c, base);
        let s2 = kids_sources(n, i + 1, base);
        let new1 = r1.requested.skip(st.requested.len() as int);
        let new2 = r.requested.skip(r1.requested.len() as int);
        let new = r.requested.skip(st.requested.len() as int);
        assert(r == render_kids(r1, n, i + 1, base, images));
        assert(kids_sources(n, i, base) == s1 + s2);
        assert(r.requested =~= st.requested + (new1 + new2));
        assert(new =~= new1 + new2);
        assert(r.requested == st.requested + new);
        if new1.len() == s1.len() {
            assert(new1 =~= s1);
            assert((s1 + s2).take(new.len() as int) =~= s1 + s2.take(new2.len() as int));
        } else {
            assert(r1.image_count >= MAX_IMAGES);
            assert(new2 =~= Seq::<Seq<char>>::empty());
            assert((s1 + s2).take(new.len() as int) =~= s1.take(new1.len() as int));
        }
    }
}

/// The renderer asks for images in the order `image_sources` lists them:
/// the addresses it asks for are a prefix of that list, all of it unless
/// the image cap is reached, and the `k`-th address asked for is drawn from
/// the `k`-th supplied block (`image_step`). So fetching the addresses of
/// `page_image_sources` in order supplies each block to its own image.
pub proof fn lemma_requests_follow_sources(
    root: Node,
    base: Seq<char>,
    images: Seq<Option<Seq<char>>>,
)
    ensures
        is_prefix(
            render_node(initial_state(), root, base, images).requested,
            image_sources(root, base),
        ),
        render_node(initial_state(), root, base, images).image_count < MAX_IMAGES
            ==> render_node(initial_state(), root, base, images).requested == image_sources(
            root,
            base,
        ),
{
    lemma_asks_node(initial_state(), root, base, images);
    let r = render_node(initial_state(), root, base, images);
    assert(r.requested.skip(0) =~= r.requested);
    assert(Seq::<Seq<char>>::empty() + r.requested =~= r.requested);
    let srcs = image_sources(root, base);
    if r.requested.len() == srcs.len() {
        assert(srcs.take(srcs.len() as int) =~= srcs);
    }
}

/// How many of the supplied blocks are present.
pub open spec fn present_blocks(v: Seq<Option<String>>) -> nat
    decreases v.len(),
{
    if v.len() == 0 {
        0
    } else {
        present_blocks(v.drop_last()) + if v.last() is Some {
            1nat
        } else {
            0nat
        }
    }
}

/// Whether another image is worth fetching: fewer than `MAX_IMAGES` of the
/// blocks gathered so far are present, so the renderer would still draw one.
pub fn more_images_wanted(blocks: &Vec<Option<String>>) -> (r: bool)
    ensures
        r == (present_blocks(blocks@) < MAX_IMAGES),
{
    let mut count: usize = 0;
    let mut i: usize = 0;
    while i < blocks.len()
        invariant
            i <= blocks@.len(),
            count == if present_blocks(blocks@.take(i as int)) < MAX_IMAGES {
                present_blocks(blocks@.take(i as int))
            } else {
                MAX_IMAGES as nat
            },
        decreases blocks@.len() - i,
    {
        assert(blocks@.take(i + 1 as int).drop_last() =~= blocks@.take(i as int));
        if blocks[i].is_some() && count < MAX_IMAGES {
            count = count + 1;
        }
        i = i + 1;
    }
    assert(blocks@.take(i as int) =~= blocks@);
    count < MAX_IMAGES
}

} // verus!
