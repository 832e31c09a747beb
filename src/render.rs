//! The tree renderer: walks a document tree and lays it out as plain text.
use vstd::prelude::*;
use crate::dom::{
    attr_value, classify, get_attr, has_denied_class, skipped, tag_kind, Node, TagKind,
};
use crate::filter::{decorative_image, lower_of, resolve_url, resolved, should_render_image};
use crate::glyphs::{border_run, push_border};
use crate::text::{
    contains_lit, is_whitespace, is_ws, push_chars, push_str, seq_contains, seq_starts_with,
    starts_with_lit, string_of, to_chars, truncate_string, truncated,
};

verus! {

/// Most images drawn in one render.
pub const MAX_IMAGES: usize = 3;

/// Longest link address shown before it is cut.
pub const MAX_LINK_CHARS: usize = 40;

/// Alternative texts this long or longer get no caption line.
pub const MAX_CAPTION_CHARS: usize = 100;

/// The renderer's state as the specification sees it.
pub struct RenderState {
    pub out: Seq<char>,
    pub image_count: nat,
    /// Addresses of the images asked for so far, in order: the `k`-th of
    /// them is drawn from the `k`-th supplied block.
    pub requested: Seq<Seq<char>>,
    pub list_depth: nat,
    pub in_pre: bool,
    pub last_block: bool,
}

impl RenderState {
    pub open spec fn with_out(self, out: Seq<char>) -> RenderState {
        RenderState { out, ..self }
    }

    /// Marks the state as sitting on a block boundary.
    pub open spec fn at_block(self) -> RenderState {
        RenderState { last_block: true, ..self }
    }
}

/// The state a render starts from.
pub open spec fn initial_state() -> RenderState {
    RenderState {
        out: seq![],
        image_count: 0,
        requested: seq![],
        list_depth: 0,
        in_pre: false,
        last_block: true,
    }
}

/// `o` ending in a newline, adding one unless it is empty or already does.
pub open spec fn nl(o: Seq<char>) -> Seq<char> {
    if o.len() > 0 && o.last() != '\n' {
        o.push('\n')
    } else {
        o
    }
}

pub open spec fn ends_blank(o: Seq<char>) -> bool {
    o.len() >= 2 && o[o.len() - 1] == '\n' && o[o.len() - 2] == '\n'
}

/// `o` ending in an empty line.
pub open spec fn blank(o: Seq<char>) -> Seq<char> {
    let n = nl(o);
    if ends_blank(n) {
        n
    } else {
        n.push('\n')
    }
}

/// `s` with whitespace runs collapsed into single spaces and none at either
/// end, continuing from `acc`; `pending` records a run not yet emitted.
pub open spec fn collapse_from(s: Seq<char>, acc: Seq<char>, pending: bool) -> Seq<char>
    decreases s.len(),
{
    if s.len() == 0 {
        acc
    } else if is_ws(s[0]) {
        collapse_from(s.drop_first(), acc, acc.len() > 0)
    } else {
        let a = if pending {
            acc.push(' ')
        } else {
            acc
        };
        collapse_from(s.drop_first(), a.push(s[0]), false)
    }
}

pub open spec fn collapse(s: Seq<char>) -> Seq<char> {
    collapse_from(s, seq![], false)
}

/// A text node's effect: verbatim inside preformatted blocks, otherwise
/// whitespace-collapsed and separated by a space from inline text before it.
pub open spec fn text_step(st: RenderState, content: Seq<char>) -> RenderState {
    if st.in_pre {
        st.with_out(st.out + content)
    } else {
        let w = collapse(content);
        if w.len() == 0 {
            st
        } else {
            let o = if !st.last_block && st.out.len() > 0 && st.out.last() != ' ' && st.out.last()
                != '\n' {
                st.out.push(' ')
            } else {
                st.out
            };
            RenderState { out: o + w, last_block: false, ..st }
        }
    }
}

/// `n` spaces.
pub open spec fn spaces(n: nat) -> Seq<char> {
    Seq::new(n, |i: int| ' ')
}

/// Indentation of a list item at nesting level `depth`.
pub open spec fn indent(depth: nat) -> Seq<char> {
    if depth == 0 {
        seq![]
    } else {
        spaces(2 * (depth - 1) as nat)
    }
}

/// Index of the first newline of `s`, or its length.
pub open spec fn line_len(s: Seq<char>) -> nat
    decreases s.len(),
{
    if s.len() == 0 || s[0] == '\n' {
        0
    } else {
        1 + line_len(s.drop_first())
    }
}

/// Each line of `s` prefixed with a quote marker and ended by a newline; a
/// carriage return before a line's newline is dropped, and a final newline
/// opens no further line.
pub open spec fn quoted(s: Seq<char>) -> Seq<char>
    decreases s.len(),
{
    if s.len() == 0 {
        seq![]
    } else {
        let k = line_len(s);
        if k < s.len() {
            let line = if k > 0 && s[k - 1] == '\r' {
                s.take(k - 1)
            } else {
                s.take(k as int)
            };
            "│ "@ + line + seq!['\n'] + quoted(s.skip((k + 1) as int))
        } else {
            "│ "@ + s + seq!['\n']
        }
    }
}

/// The address an image element names: `src`, else a lazy-loading attribute.
pub open spec fn image_source(attrs: Seq<(String, String)>) -> Option<Seq<char>> {
    match attr_value(attrs, "src"@) {
        Some(s) => Some(s),
        None => match attr_value(attrs, "data-src"@) {
            Some(s) => Some(s),
            None => attr_value(attrs, "data-lazy-src"@),
        },
    }
}

/// Whether an image element leads to a fetch: it names an address that is
/// not decorative and resolves against `base`.
pub open spec fn image_candidate(attrs: Seq<(String, String)>, base: Seq<char>) -> bool {
    match image_source(attrs) {
        Some(src) => !decorative_image(lower_of(src)) && resolved(src, base) is Some,
        None => false,
    }
}

/// The caption line drawn above an image, from its alternative text.
pub open spec fn caption(attrs: Seq<(String, String)>) -> Seq<char> {
    match attr_value(attrs, "alt"@) {
        Some(a) => if a.len() > 0 && a.len() < MAX_CAPTION_CHARS {
            "[Image: "@ + a + "]\n"@
        } else {
            seq![]
        },
        None => seq![],
    }
}

/// The block supplied for the `i`-th fetch, if any.
pub open spec fn block_at(images: Seq<Option<Seq<char>>>, i: nat) -> Option<Seq<char>> {
    if i < images.len() {
        images[i as int]
    } else {
        None
    }
}

/// An image element's effect. Below the cap, a candidate's address is asked
/// for and consumes the supplied block of the same position; a present block
/// is drawn after its caption, between empty lines, and counted.
pub open spec fn image_step(
    st: RenderState,
    attrs: Seq<(String, String)>,
    base: Seq<char>,
    images: Seq<Option<Seq<char>>>,
) -> RenderState {
    if st.image_count >= MAX_IMAGES || !image_candidate(attrs, base) {
        st
    } else {
        let asked = st.requested.push(resolved(image_source(attrs)->0, base)->0);
        match block_at(images, st.requested.len()) {
            None => RenderState { requested: asked, ..st },
            Some(b) => RenderState {
                out: blank(blank(st.out) + caption(attrs) + b),
                image_count: st.image_count + 1,
                requested: asked,
                last_block: true,
                ..st
            },
        }
    }
}

/// The link annotation shown after a link's text.
pub open spec fn link_note(attrs: Seq<(String, String)>) -> Seq<char> {
    match attr_value(attrs, "href"@) {
        Some(h) => if seq_starts_with(h, "http"@) && !seq_contains(h, "javascript:"@) {
            " [→ "@ + truncated(h, MAX_LINK_CHARS as nat) + "]"@
        } else {
            seq![]
        },
        None => seq![],
    }
}

/// The state an element's children are rendered from.
pub open spec fn entry_state(st: RenderState, k: TagKind) -> RenderState {
    match k {
        TagKind::Paragraph | TagKind::Blockquote | TagKind::Table => st.with_out(blank(st.out)),
        TagKind::Block | TagKind::Figure => st.with_out(nl(st.out)),
        TagKind::Heading1 => st.with_out(blank(st.out) + "═══ "@),
        TagKind::Heading2 => st.with_out(blank(st.out) + "━━ "@),
        TagKind::Heading3 => st.with_out(blank(st.out) + "── "@),
        TagKind::MinorHeading => st.with_out(blank(st.out) + "▸ "@),
        TagKind::List => RenderState {
            out: nl(st.out),
            list_depth: if st.list_depth < usize::MAX {
                st.list_depth + 1
            } else {
                st.list_depth
            },
            ..st
        },
        TagKind::ListItem => st.with_out(nl(st.out) + indent(st.list_depth) + "• "@),
        TagKind::Preformatted => RenderState {
            out: blank(st.out) + seq!['┌'] + border_run(41) + seq!['┐', '\n'],
            in_pre: true,
            ..st
        },
        TagKind::Code => if st.in_pre {
            st
        } else {
            st.with_out(st.out.push('`'))
        },
        TagKind::Bold => st.with_out(st.out + "**"@),
        TagKind::Italic => st.with_out(st.out.push('_')),
        TagKind::Figcaption => st.with_out(st.out + "  ↳ "@),
        TagKind::TableRow => st.with_out(nl(st.out) + "│ "@),
        _ => st,
    }
}

/// The state an element leaves, from the state `st` before it and the
/// state `b` its children left.
pub open spec fn exit_state(
    st: RenderState,
    k: TagKind,
    attrs: Seq<(String, String)>,
    b: RenderState,
) -> RenderState {
    match k {
        TagKind::Paragraph | TagKind::Block | TagKind::Figure => b.with_out(nl(b.out)).at_block(),
        TagKind::MinorHeading => b.with_out(blank(b.out)).at_block(),
        TagKind::Heading1 => b.with_out(blank(b.out + " ═══"@)).at_block(),
        TagKind::Heading2 => b.with_out(blank(b.out + " ━━"@)).at_block(),
        TagKind::Heading3 => b.with_out(blank(b.out + " ──"@)).at_block(),
        TagKind::List => RenderState {
            out: nl(b.out),
            list_depth: if st.list_depth < usize::MAX {
                (b.list_depth - 1) as nat
            } else {
                b.list_depth
            },
            last_block: true,
            ..b
        },
        TagKind::ListItem | TagKind::TableRow => b.at_block(),
        TagKind::Preformatted => RenderState {
            out: blank(nl(b.out) + seq!['└'] + border_run(41) + seq!['┘']),
            in_pre: st.in_pre,
            last_block: true,
            ..b
        },
        TagKind::Code => if st.in_pre {
            b
        } else {
            b.with_out(b.out.push('`'))
        },
        TagKind::Bold => b.with_out(b.out + "**"@),
        TagKind::Italic => b.with_out(b.out.push('_')),
        TagKind::Link => b.with_out(b.out + link_note(attrs)),
        TagKind::Figcaption => b.with_out(nl(b.out)),
        TagKind::Blockquote => {
            let start = blank(st.out).len() as int;
            b.with_out(b.out.take(start) + quoted(b.out.skip(start))).at_block()
        },
        TagKind::Table => b.with_out(blank(b.out)).at_block(),
        TagKind::TableCell => b.with_out(b.out + " │ "@),
        _ => b,
    }
}

/// The text a node adds, and the state it leaves, rendered from `st`.
pub open spec fn render_node(
    st: RenderState,
    n: Node,
    base: Seq<char>,
    images: Seq<Option<Seq<char>>>,
) -> RenderState
    decreases n, 1nat, 0nat,
{
    match n {
        Node::Text { content } => text_step(st, content@),
        Node::Element { tag, attrs, children, .. } => {
            let k = tag_kind(tag@);
            if skipped(tag@, attrs@) {
                st
            } else if k == TagKind::LineBreak {
                st.with_out(st.out.push('\n')).at_block()
            } else if k == TagKind::Rule {
                st.with_out(blank(blank(st.out) + border_run(40))).at_block()
            } else if k == TagKind::Image {
                image_step(st, attrs@, base, images)
            } else {
                exit_state(st, k, attrs@, render_kids(entry_state(st, k), n, 0, base, images))
            }
        },
    }
}

/// The children of `n` from the `i`-th on, rendered in order from `st`.
pub open spec fn render_kids(
    st: RenderState,
    n: Node,
    i: nat,
    base: Seq<char>,
    images: Seq<Option<Seq<char>>>,
) -> RenderState
    decreases n, 0nat, n.kids().len() - i,
{
    if i >= n.kids().len() {
        st
    } else {
        render_kids(render_node(st, n.kids()[i as int], base, images), n, i + 1, base, images)
    }
}

/// The text of a whole document tree rendered from the start.
pub open spec fn rendered(root: Node, base: Seq<char>, images: Seq<Option<Seq<char>>>) -> Seq<
    char,
> {
    render_node(initial_state(), root, base, images).out
}

/// What rendering a node keeps: nesting depth and preformatted mode come
/// back as they were, the output only grows, and the image cap holds.
#[verifier::rlimit(60)]
pub proof fn lemma_node_shape(
    st: RenderState,
    n: Node,
    base: Seq<char>,
    images: Seq<Option<Seq<char>>>,
)
    requires
        st.image_count <= MAX_IMAGES,
    ensures
        render_node(st, n, base, images).list_depth == st.list_depth,
        render_node(st, n, base, images).in_pre == st.in_pre,
        render_node(st, n, base, images).out.len() >= st.out.len(),
        render_node(st, n, base, images).image_count <= MAX_IMAGES,
        render_node(st, n, base, images).image_count >= st.image_count,
    decreases n, 1nat, 0nat,
{
    match n {
        Node::Element { tag, attrs, children, .. } => {
            if !skipped(tag@, attrs@) {
                lemma_kids_shape(entry_state(st, tag_kind(tag@)), n, 0, base, images);
            }
        },
        Node::Text { .. } => {},
    }
}

pub proof fn lemma_kids_shape(
    st: RenderState,
    n: Node,
    i: nat,
    base: Seq<char>,
    images: Seq<Option<Seq<char>>>,
)
    requires
        st.image_count <= MAX_IMAGES,
    ensures
        render_kids(st, n, i, base, images).list_depth == st.list_depth,
        render_kids(st, n, i, base, images).in_pre == st.in_pre,
        render_kids(st, n, i, base, images).out.len() >= st.out.len(),
        render_kids(st, n, i, base, images).image_count <= MAX_IMAGES,
        render_kids(st, n, i, base, images).image_count >= st.image_count,
    decreases n, 0nat, n.kids().len() - i,
{
    if i < n.kids().len() {
        let c = n.kids()[i as int];
        lemma_node_shape(st, c, base, images);
        lemma_kids_shape(render_node(st, c, base, images), n, i + 1, base, images);
    }
}

/// Ending a line is idempotent: doing it twice in a row leaves the same
/// text as doing it once.
pub proof fn lemma_newline_idempotent(o: Seq<char>)
    ensures
        nl(nl(o)) == nl(o),
{
}

/// Ending with an empty line is idempotent on non-empty text. (On empty
/// text the first call writes one newline and the second a second one.)
pub proof fn lemma_blank_line_idempotent(o: Seq<char>)
    requires
        o.len() > 0,
    ensures
        blank(blank(o)) == blank(o),
{
}

/// Rendering a whole tree leaves the list depth where it started.
pub proof fn lemma_list_depth_balanced(
    st: RenderState,
    root: Node,
    base: Seq<char>,
    images: Seq<Option<Seq<char>>>,
)
    requires
        st.image_count <= MAX_IMAGES,
    ensures
        render_node(st, root, base, images).list_depth == st.list_depth,
        render_node(initial_state(), root, base, images).list_depth == 0,
{
    lemma_node_shape(st, root, base, images);
    lemma_node_shape(initial_state(), root, base, images);
}

/// However many images a tree holds, one render draws at most `MAX_IMAGES`
/// of them.
pub proof fn lemma_image_cap(root: Node, base: Seq<char>, images: Seq<Option<Seq<char>>>)
    ensures
        render_node(initial_state(), root, base, images).image_count <= MAX_IMAGES,
{
    lemma_node_shape(initial_state(), root, base, images);
}

/// An excluded element, such as `nav`, adds nothing to the output and leaves
/// the state as it was, whatever it contains.
pub proof fn lemma_excluded_subtree(
    st: RenderState,
    n: Node,
    base: Seq<char>,
    images: Seq<Option<Seq<char>>>,
)
    requires
        n matches Node::Element { tag, .. } && tag_kind(tag@) == TagKind::Excluded,
    ensures
        render_node(st, n, base, images) == st,
{
}

/// Whether `n` is an element that rendering drops with all it contains.
pub open spec fn skipped_node(n: Node) -> bool {
    n matches Node::Element { tag, attrs, .. } && skipped(tag@, attrs@)
}

/// `t2` is `t1` with one skipped subtree (a `nav`, say) added as a child of
/// some element, at any depth; markup lengths may differ.
pub open spec fn one_extra_skipped(t1: Node, t2: Node) -> bool
    decreases t2,
{
    match t1 {
        Node::Element { tag: tag1, attrs: attrs1, children: c1, .. } => match t2 {
            Node::Element { tag: tag2, attrs: attrs2, children: c2, .. } => {
                &&& tag1@ == tag2@
                &&& attrs1@ == attrs2@
                &&& {
                    ||| exists|j: int|
                        0 <= j <= c1@.len() && skipped_node(#[trigger] c2@[j]) && c2@ == c1@.insert(
                            j,
                            c2@[j],
                        )
                    ||| (c1@.len() == c2@.len() && exists|j: int|
                        0 <= j < c1@.len() && one_extra_skipped(c1@[j], #[trigger] c2@[j]) && (
                        forall|k: int| 0 <= k < c1@.len() && k != j ==> c1@[k] == c2@[k]))
                }
            },
            Node::Text { .. } => false,
        },
        Node::Text { .. } => false,
    }
}

proof fn lemma_same_tail(
    st: RenderState,
    n1: Node,
    i1: nat,
    n2: Node,
    i2: nat,
    base: Seq<char>,
    images: Seq<Option<Seq<char>>>,
)
    requires
        i1 <= n1.kids().len(),
        i2 <= n2.kids().len(),
        n1.kids().skip(i1 as int) == n2.kids().skip(i2 as int),
    ensures
        render_kids(st, n1, i1, base, images) == render_kids(st, n2, i2, base, images),
    decreases n1.kids().len() - i1,
{
    if i1 < n1.kids().len() {
        assert(n1.kids()[i1 as int] == n1.kids().skip(i1 as int)[0]);
        assert(n1.kids().skip(i1 as int).len() == n1.kids().len() - i1);
        assert(n2.kids().skip(i2 as int).len() == n2.kids().len() - i2);
        assert(i2 < n2.kids().len());
        assert(n2.kids()[i2 as int] == n2.kids().skip(i2 as int)[0]);
        assert(n1.kids().skip(i1 + 1 as int) =~= n1.kids().skip(i1 as int).drop_first());
        assert(n2.kids().skip(i2 + 1 as int) =~= n2.kids().skip(i2 as int).drop_first());
        let next = render_node(st, n1.kids()[i1 as int], base, images);
        lemma_same_tail(next, n1, i1 + 1, n2, i2 + 1, base, images);
    } else {
        assert(n2.kids().skip(i2 as int).len() == 0);
    }
}

proof fn lemma_inserted_kids(
    st: RenderState,
    t1: Node,
    t2: Node,
    j: int,
    i: nat,
    base: Seq<char>,
    images: Seq<Option<Seq<char>>>,
)
    requires
        0 <= i <= j <= t1.kids().len(),
        skipped_node(t2.kids()[j]),
        t2.kids() == t1.kids().insert(j, t2.kids()[j]),
    ensures
        render_kids(st, t1, i, base, images) == render_kids(st, t2, i, base, images),
    decreases j - i,
{
    if i < j {
        let next = render_node(st, t1.kids()[i as int], base, images);
        assert(t2.kids()[i as int] == t1.kids()[i as int]);
        lemma_inserted_kids(next, t1, t2, j, i + 1, base, images);
    } else {
        assert(render_node(st, t2.kids()[j], base, images) == st);
        assert(t2.kids().skip(j + 1) =~= t1.kids().skip(j));
        lemma_same_tail(st, t1, i, t2, (j + 1) as nat, base, images);
    }
}

proof fn lemma_replaced_kids(
    st: RenderState,
    t1: Node,
    t2: Node,
    j: int,
    i: nat,
    base: Seq<char>,
    images: Seq<Option<Seq<char>>>,
)
    requires
        i <= t1.kids().len(),
        t1.kids().len() == t2.kids().len(),
        0 <= j < t1.kids().len(),
        one_extra_skipped(t1.kids()[j], t2.kids()[j]),
        forall|k: int| 0 <= k < t1.kids().len() && k != j ==> t1.kids()[k] == t2.kids()[k],
        decreases_to!(t2 => t2.kids()[j]),
    ensures
        render_kids(st, t1, i, base, images) == render_kids(st, t2, i, base, images),
    decreases t2, 0nat, t1.kids().len() - i,
{
    if i < t1.kids().len() {
        let c1 = t1.kids()[i as int];
        let c2 = t2.kids()[i as int];
        if i == j {
            lemma_extra_skipped(st, c1, c2, base, images);
        }
        let next = render_node(st, c1, base, images);
        lemma_replaced_kids(next, t1, t2, j, i + 1, base, images);
    }
}

/// Adding a skipped subtree, such as a `nav` with anything inside it,
/// anywhere in a tree changes nothing in the rendering: the output and every
/// other part of the state come out the same.
pub proof fn lemma_extra_skipped(
    st: RenderState,
    t1: Node,
    t2: Node,
    base: Seq<char>,
    images: Seq<Option<Seq<char>>>,
)
    requires
        one_extra_skipped(t1, t2),
    ensures
        render_node(st, t1, base, images) == render_node(st, t2, base, images),
    decreases t2, 1nat, 0nat,
{
    match t1 {
        Node::Element { tag: tag1, attrs: attrs1, children: c1, .. } => match t2 {
            Node::Element { tag: tag2, attrs: attrs2, children: c2, .. } => {
                let k = tag_kind(tag1@);
                let a = entry_state(st, k);
                if exists|j: int|
                    0 <= j <= c1@.len() && skipped_node(#[trigger] c2@[j]) && c2@ == c1@.insert(
                        j,
                        c2@[j],
                    ) {
                    let j = choose|j: int|
                        0 <= j <= c1@.len() && skipped_node(#[trigger] c2@[j]) && c2@
                            == c1@.insert(j, c2@[j]);
                    lemma_inserted_kids(a, t1, t2, j, 0, base, images);
                } else {
                    let j = choose|j: int|
                        0 <= j < c1@.len() && one_extra_skipped(c1@[j], #[trigger] c2@[j]) && (
                        forall|k: int| 0 <= k < c1@.len() && k != j ==> c1@[k] == c2@[k]);
                    assert(decreases_to!(t2 => t2.kids()[j]));
                    lemma_replaced_kids(a, t1, t2, j, 0, base, images);
                }
            },
            Node::Text { .. } => {},
        },
        Node::Text { .. } => {},
    }
}

/// The blocks supplied for fetched images, as character sequences.
pub open spec fn blocks_view(v: Seq<Option<String>>) -> Seq<Option<Seq<char>>> {
    v.map_values(
        |o: Option<String>|
            match o {
                Some(s) => Some(s@),
                None => None,
            },
    )
}

/// Renders one document tree. Image blocks are supplied up front, one for
/// each image fetch in document order (`None` where the fetch or the
/// conversion failed), so the walk itself does no I/O.
pub struct HtmlRenderer {
    output: Vec<char>,
    base_url: String,
    images: Vec<Option<String>>,
    image_count: usize,
    attempts: usize,
    requested: Ghost<Seq<Seq<char>>>,
    list_depth: usize,
    in_pre: bool,
    last_was_block: bool,
}

impl HtmlRenderer {
    pub closed spec fn state(&self) -> RenderState {
        RenderState {
            out: self.output@,
            image_count: self.image_count as nat,
            requested: self.requested@,
            list_depth: self.list_depth as nat,
            in_pre: self.in_pre,
            last_block: self.last_was_block,
        }
    }

    /// The address relative references are resolved against.
    pub closed spec fn base(&self) -> Seq<char> {
        self.base_url@
    }

    /// The supplied image blocks.
    pub closed spec fn blocks(&self) -> Seq<Option<Seq<char>>> {
        blocks_view(self.images@)
    }

    pub closed spec fn wf(&self) -> bool {
        &&& self.image_count <= MAX_IMAGES
        &&& self.attempts == if self.requested@.len() < self.images@.len() {
            self.requested@.len()
        } else {
            self.images@.len()
        }
    }

    pub open spec fn same_inputs(&self, other: &HtmlRenderer) -> bool {
        self.base() == other.base() && self.blocks() == other.blocks()
    }

    pub fn new(base_url: &str, images: Vec<Option<String>>) -> (r: HtmlRenderer)
        ensures
            r.wf(),
            r.state() == initial_state(),
            r.base() == base_url@,
            r.blocks() == blocks_view(images@),
    {
        HtmlRenderer {
            output: Vec::new(),
            base_url: base_url.to_owned(),
            images,
            image_count: 0,
            attempts: 0,
            requested: Ghost(Seq::empty()),
            list_depth: 0,
            in_pre: false,
            last_was_block: true,
        }
    }

    /// Number of image blocks drawn so far.
    pub fn image_count(&self) -> (r: usize)
        ensures
            r == self.state().image_count,
    {
        self.image_count
    }

    /// Current list nesting level.
    pub fn list_depth(&self) -> (r: usize)
        ensures
            r == self.state().list_depth,
    {
        self.list_depth
    }

    /// Ends the current line unless the output is empty or already does.
    pub fn ensure_newline(&mut self)
        requires
            old(self).wf(),
        ensures
            final(self).wf(),
            final(self).same_inputs(old(self)),
            final(self).state() == old(self).state().with_out(nl(old(self).state().out)),
    {
        let n = self.output.len();
        if n > 0 && self.output[n - 1] != '\n' {
            self.output.push('\n');
        }
    }

    /// Ends the output with an empty line.
    pub fn ensure_blank_line(&mut self)
        requires
            old(self).wf(),
        ensures
            final(self).wf(),
            final(self).same_inputs(old(self)),
            final(self).state() == old(self).state().with_out(blank(old(self).state().out)),
    {
        self.ensure_newline();
        let n = self.output.len();
        if !(n >= 2 && self.output[n - 1] == '\n' && self.output[n - 2] == '\n') {
            self.output.push('\n');
        }
    }

    fn push_lit(&mut self, lit: &str)
        requires
            old(self).wf(),
        ensures
            final(self).wf(),
            final(self).same_inputs(old(self)),
            final(self).state() == old(self).state().with_out(old(self).state().out + lit@),
    {
        push_str(&mut self.output, lit);
    }

    fn push_char(&mut self, c: char)
        requires
            old(self).wf(),
        ensures
            final(self).wf(),
            final(self).same_inputs(old(self)),
            final(self).state() == old(self).state().with_out(old(self).state().out.push(c)),
    {
        self.output.push(c);
    }

    fn mark_block(&mut self)
        requires
            old(self).wf(),
        ensures
            final(self).wf(),
            final(self).same_inputs(old(self)),
            final(self).state() == old(self).state().at_block(),
    {
        self.last_was_block = true;
    }

    /// Emits a text node.
    pub fn push_text(&mut self, content: &String)
        requires
            old(self).wf(),
        ensures
            final(self).wf(),
            final(self).same_inputs(old(self)),
            final(self).state() == text_step(old(self).state(), content@),
    {
        let cs = to_chars(content.as_str());
        if self.in_pre {
            push_chars(&mut self.output, &cs);
            return;
        }
        let w = collapse_ws(&cs);
        if w.len() == 0 {
            return;
        }
        let n = self.output.len();
        if !self.last_was_block && n > 0 && self.output[n - 1] != ' ' && self.output[n - 1]
            != '\n' {
            self.output.push(' ');
        }
        push_chars(&mut self.output, &w);
        self.last_was_block = false;
    }

    fn render_image(&mut self, attrs: &Vec<(String, String)>)
        requires
            old(self).wf(),
        ensures
            final(self).wf(),
            final(self).same_inputs(old(self)),
            final(self).state() == image_step(
                old(self).state(),
                attrs@,
                old(self).base(),
                old(self).blocks(),
            ),
    {
        if self.image_count >= MAX_IMAGES {
            return;
        }
        let src = match get_attr(attrs, "src") {
            Some(s) => s,
            None => match get_attr(attrs, "data-src") {
                Some(s) => s,
                None => match get_attr(attrs, "data-lazy-src") {
                    Some(s) => s,
                    None => {
                        return;
                    },
                },
            },
        };
        if !should_render_image(src.as_str()) {
            return;
        }
        let url = match resolve_url(src.as_str(), self.base_url.as_str()) {
            Some(u) => u,
            None => {
                return;
            },
        };
        let idx = self.attempts;
        let block: Option<String> = if idx < self.images.len() {
            match &self.images[idx] {
                Some(b) => Some(b.clone()),
                None => None,
            }
        } else {
            None
        };
        assert(block_at(self.blocks(), self.requested@.len()) == match block {
            Some(b) => Some(b@),
            None => None::<Seq<char>>,
        });
        if idx < self.images.len() {
            self.attempts = idx + 1;
        }
        self.requested = Ghost(self.requested@.push(url@));
        match block {
            Some(b) => {
                self.ensure_blank_line();
                match get_attr(attrs, "alt") {
                    Some(a) => {
                        let av = to_chars(a.as_str());
                        if av.len() > 0 && av.len() < MAX_CAPTION_CHARS {
                            self.push_lit("[Image: ");
                            push_chars(&mut self.output, &av);
                            self.push_lit("]\n");
                        }
                    },
                    None => {},
                }
                let ghost mid = self.state().out;
                assert(mid =~= blank(old(self).state().out) + caption(attrs@));
                self.push_lit(b.as_str());
                assert(self.state().out =~= blank(old(self).state().out) + caption(attrs@) + b@);
                self.ensure_blank_line();
                self.image_count = self.image_count + 1;
                self.last_was_block = true;
            },
            None => {},
        }
    }

    fn push_link_note(&mut self, attrs: &Vec<(String, String)>)
        requires
            old(self).wf(),
        ensures
            final(self).wf(),
            final(self).same_inputs(old(self)),
            final(self).state() == old(self).state().with_out(
                old(self).state().out + link_note(attrs@),
            ),
    {
        match get_attr(attrs, "href") {
            Some(h) => {
                let hv = to_chars(h.as_str());
                if starts_with_lit(&hv, "http") && !contains_lit(&hv, "javascript:") {
                    self.push_lit(" [→ ");
                    let t = truncate_string(h.as_str(), MAX_LINK_CHARS);
                    self.push_lit(t.as_str());
                    self.push_lit("]");
                    assert(self.state().out =~= old(self).state().out + link_note(attrs@));
                } else {
                    assert(old(self).state().out + link_note(attrs@) =~= old(self).state().out);
                }
            },
            None => {
                assert(old(self).state().out + link_note(attrs@) =~= old(self).state().out);
            },
        }
    }

    /// Emits what precedes an element's children. Returns whether the list
    /// depth went up, the preformatted mode before, and the output length
    /// after the opening.
    #[verifier::rlimit(40)]
    fn enter(&mut self, k: TagKind) -> (e: (bool, bool, usize))
        requires
            old(self).wf(),
        ensures
            final(self).wf(),
            final(self).same_inputs(old(self)),
            final(self).state() == entry_state(old(self).state(), k),
            e.0 == (old(self).state().list_depth < usize::MAX),
            e.1 == old(self).state().in_pre,
            k == TagKind::Blockquote ==> e.2 == final(self).state().out.len(),
    {
        let bumped = self.list_depth < usize::MAX;
        let was_pre = self.in_pre;
        let ghost st = self.state();
        match k {
            TagKind::Paragraph | TagKind::Blockquote | TagKind::Table => {
                self.ensure_blank_line();
            },
            TagKind::Block | TagKind::Figure => {
                self.ensure_newline();
            },
            TagKind::Heading1 => {
                self.ensure_blank_line();
                self.push_lit("═══ ");
            },
            TagKind::Heading2 => {
                self.ensure_blank_line();
                self.push_lit("━━ ");
            },
            TagKind::Heading3 => {
                self.ensure_blank_line();
                self.push_lit("── ");
            },
            TagKind::MinorHeading => {
                self.ensure_blank_line();
                self.push_lit("▸ ");
            },
            TagKind::List => {
                self.ensure_newline();
                if bumped {
                    self.list_depth = self.list_depth + 1;
                }
            },
            TagKind::ListItem => {
                self.ensure_newline();
                self.push_indent();
                self.push_lit("• ");
            },
            TagKind::Preformatted => {
                self.ensure_blank_line();
                self.push_char('┌');
                push_border(&mut self.output, 41);
                self.push_char('┐');
                self.push_char('\n');
                self.in_pre = true;
                assert(self.state().out =~= blank(st.out) + seq!['┌'] + border_run(41) + seq![
                    '┐',
                    '\n',
                ]);
            },
            TagKind::Code => {
                if !self.in_pre {
                    self.push_char('`');
                }
            },
            TagKind::Bold => {
                self.push_lit("**");
            },
            TagKind::Italic => {
                self.push_char('_');
            },
            TagKind::Figcaption => {
                self.push_lit("  ↳ ");
            },
            TagKind::TableRow => {
                self.ensure_newline();
                self.push_lit("│ ");
            },
            _ => {},
        }
        (bumped, was_pre, self.output.len())
    }

    /// Emits the indentation of a list item.
    fn push_indent(&mut self)
        requires
            old(self).wf(),
        ensures
            final(self).wf(),
            final(self).same_inputs(old(self)),
            final(self).state() == old(self).state().with_out(
                old(self).state().out + indent(old(self).state().list_depth),
            ),
    {
        let k: usize = if self.list_depth > 0 {
            self.list_depth - 1
        } else {
            0
        };
        let mut j: usize = 0;
        let ghost o = self.output@;
        let ghost pre = self.state();
        while j < k
            invariant
                j <= k,
                k == if pre.list_depth > 0 {
                    pre.list_depth - 1
                } else {
                    0
                },
                pre == old(self).state(),
                pre.out == o,
                self.state() == pre.with_out(o + spaces(2 * j as nat)),
                self.wf(),
                self.same_inputs(old(self)),
            decreases k - j,
        {
            self.output.push(' ');
            self.output.push(' ');
            j = j + 1;
            assert(self.output@ =~= o + spaces(2 * j as nat));
        }
        assert(spaces(2 * k as nat) =~= indent(pre.list_depth));
    }

    /// Emits what follows an element's children; `st` is the state before
    /// the element and `e` what `enter` returned.
    #[verifier::rlimit(40)]
    fn leave(
        &mut self,
        k: TagKind,
        attrs: &Vec<(String, String)>,
        e: (bool, bool, usize),
        Ghost(st): Ghost<RenderState>,
    )
        requires
            old(self).wf(),
            e.0 == (st.list_depth < usize::MAX),
            e.1 == st.in_pre,
            k == TagKind::Blockquote ==> e.2 == blank(st.out).len(),
            old(self).state().list_depth == entry_state(st, k).list_depth,
            old(self).state().out.len() >= entry_state(st, k).out.len(),
        ensures
            final(self).wf(),
            final(self).same_inputs(old(self)),
            final(self).state() == exit_state(st, k, attrs@, old(self).state()),
    {
        let ghost b = self.state();
        match k {
            TagKind::Paragraph | TagKind::Block | TagKind::Figure => {
                self.ensure_newline();
                self.mark_block();
            },
            TagKind::MinorHeading => {
                self.ensure_blank_line();
                self.mark_block();
            },
            TagKind::Heading1 => {
                self.push_lit(" ═══");
                self.ensure_blank_line();
                self.mark_block();
            },
            TagKind::Heading2 => {
                self.push_lit(" ━━");
                self.ensure_blank_line();
                self.mark_block();
            },
            TagKind::Heading3 => {
                self.push_lit(" ──");
                self.ensure_blank_line();
                self.mark_block();
            },
            TagKind::List => {
                if e.0 {
                    self.list_depth = self.list_depth - 1;
                }
                self.ensure_newline();
                self.mark_block();
            },
            TagKind::ListItem | TagKind::TableRow => {
                self.mark_block();
            },
            TagKind::Preformatted => {
                self.in_pre = e.1;
                self.ensure_newline();
                self.push_char('└');
                push_border(&mut self.output, 41);
                self.push_char('┘');
                assert(self.state().out =~= nl(b.out) + seq!['└'] + border_run(41) + seq!['┘']);
                self.ensure_blank_line();
                self.mark_block();
            },
            TagKind::Code => {
                if !e.1 {
                    self.push_char('`');
                }
            },
            TagKind::Bold => {
                self.push_lit("**");
            },
            TagKind::Italic => {
                self.push_char('_');
            },
            TagKind::Link => {
                self.push_link_note(attrs);
            },
            TagKind::Figcaption => {
                self.ensure_newline();
            },
            TagKind::Blockquote => {
                self.quote_since(e.2);
                self.mark_block();
            },
            TagKind::Table => {
                self.ensure_blank_line();
                self.mark_block();
            },
            TagKind::TableCell => {
                self.push_lit(" │ ");
            },
            _ => {},
        }
    }

    /// Re-emits the output from `start` on as quoted lines.
    fn quote_since(&mut self, start: usize)
        requires
            old(self).wf(),
            start <= old(self).state().out.len(),
        ensures
            final(self).wf(),
            final(self).same_inputs(old(self)),
            final(self).state() == old(self).state().with_out(
                old(self).state().out.take(start as int) + quoted(
                    old(self).state().out.skip(start as int),
                ),
            ),
    {
        let mut content: Vec<char> = Vec::new();
        let mut k: usize = start;
        while k < self.output.len()
            invariant
                start <= k <= self.output@.len(),
                self.output@ == old(self).output@,
                content@ == self.output@.subrange(start as int, k as int),
            decreases self.output@.len() - k,
        {
            content.push(self.output[k]);
            k = k + 1;
            assert(content@ =~= self.output@.subrange(start as int, k as int));
        }
        assert(content@ =~= self.output@.skip(start as int));
        self.output.truncate(start);
        assert(self.output@ =~= old(self).output@.take(start as int));
        push_quoted(&mut self.output, &content);
    }

    /// Renders `n` and everything below it.
    pub fn render_element(&mut self, n: &Node)
        requires
            old(self).wf(),
        ensures
            final(self).wf(),
            final(self).same_inputs(old(self)),
            final(self).state() == render_node(
                old(self).state(),
                *n,
                old(self).base(),
                old(self).blocks(),
            ),
        decreases *n, 1nat,
    {
        let (tag, attrs) = match n {
            Node::Text { content } => {
                self.push_text(content);
                return;
            },
            Node::Element { tag, attrs, .. } => (tag, attrs),
        };
        let kind = classify(tag.as_str());
        if matches!(kind, TagKind::Excluded) || has_denied_class(attrs) {
            return;
        }
        match kind {
            TagKind::LineBreak => {
                self.push_char('\n');
                self.mark_block();
            },
            TagKind::Rule => {
                self.ensure_blank_line();
                push_border(&mut self.output, 40);
                self.ensure_blank_line();
                self.mark_block();
            },
            TagKind::Image => {
                self.render_image(attrs);
            },
            _ => {
                let ghost st = self.state();
                let e = self.enter(kind);
                proof {
                    lemma_kids_shape(entry_state(st, kind), *n, 0, self.base(), self.blocks());
                }
                self.render_children(n);
                self.leave(kind, attrs, e, Ghost(st));
            },
        }
    }

    /// Renders the children of `n` in order.
    pub fn render_children(&mut self, n: &Node)
        requires
            old(self).wf(),
        ensures
            final(self).wf(),
            final(self).same_inputs(old(self)),
            final(self).state() == render_kids(
                old(self).state(),
                *n,
                0,
                old(self).base(),
                old(self).blocks(),
            ),
        decreases *n, 0nat,
    {
        match n {
            Node::Text { .. } => {},
            Node::Element { children, .. } => {
                let mut i: usize = 0;
                while i < children.len()
                    invariant
                        i <= children@.len(),
                        n.kids() == children@,
                        self.wf(),
                        self.same_inputs(old(self)),
                        render_kids(old(self).state(), *n, 0, old(self).base(), old(self).blocks())
                            == render_kids(self.state(), *n, i as nat, self.base(), self.blocks()),
                    decreases children@.len() - i,
                {
                    self.render_element(&children[i]);
                    i = i + 1;
                }
            },
        }
    }

    /// The rendered text.
    pub fn finish(self) -> (r: String)
        ensures
            r@ == self.state().out,
    {
        string_of(&self.output)
    }
}

/// `collapse` on a character vector.
pub fn collapse_ws(s: &Vec<char>) -> (r: Vec<char>)
    ensures
        r@ == collapse(s@),
{
    let mut acc: Vec<char> = Vec::new();
    let mut pending = false;
    let mut i: usize = 0;
    assert(s@.skip(0) =~= s@);
    while i < s.len()
        invariant
            i <= s@.len(),
            collapse(s@) == collapse_from(s@.skip(i as int), acc@, pending),
        decreases s@.len() - i,
    {
        let c = s[i];
        assert(s@.skip(i + 1 as int) =~= s@.skip(i as int).drop_first());
        if is_whitespace(c) {
            pending = acc.len() > 0;
        } else {
            if pending {
                acc.push(' ');
            }
            acc.push(c);
            pending = false;
        }
        i = i + 1;
    }
    acc
}

/// Appends `quoted(s)` to `out`.
#[verifier::rlimit(50)]
pub fn push_quoted(out: &mut Vec<char>, s: &Vec<char>)
    ensures
        final(out)@ == old(out)@ + quoted(s@),
{
    let mut i: usize = 0;
    assert(s@.skip(0) =~= s@);
    while i < s.len()
        invariant
            i <= s@.len(),
            old(out)@ + quoted(s@) == out@ + quoted(s@.skip(i as int)),
        decreases s@.len() - i,
    {
        let mut j: usize = i;
        while j < s.len() && s[j] != '\n'
            invariant
                i <= j <= s@.len(),
                line_len(s@.skip(i as int)) == (j - i) + line_len(s@.skip(j as int)),
            decreases s@.len() - j,
        {
            assert(s@.skip(j + 1 as int) =~= s@.skip(j as int).drop_first());
            j = j + 1;
        }
        let ghost rest = s@.skip(i as int);
        assert(line_len(rest) == j - i);
        let e: usize = if j < s.len() && j > i && s[j - 1] == '\r' {
            j - 1
        } else {
            j
        };
        let ghost before = out@;
        push_str(out, "│ ");
        let mut k: usize = i;
        while k < e
            invariant
                i <= k <= e <= s@.len(),
                out@ == before + "│ "@ + s@.subrange(i as int, k as int),
            decreases e - k,
        {
            out.push(s[k]);
            k = k + 1;
            assert(out@ =~= before + "│ "@ + s@.subrange(i as int, k as int));
        }
        out.push('\n');
        let ghost line = s@.subrange(i as int, e as int);
        assert(out@ =~= before + ("│ "@ + line + seq!['\n']));
        if j < s.len() {
            assert(rest.take(e - i) =~= line);
            assert(rest.skip(j - i + 1) =~= s@.skip(j + 1 as int));
            assert(quoted(rest) == "│ "@ + line + seq!['\n'] + quoted(s@.skip(j + 1 as int)));
            i = j + 1;
        } else {
            assert(rest =~= line);
            assert(s@.skip(s@.len() as int) =~= Seq::<char>::empty());
            assert(quoted(rest) == "│ "@ + line + seq!['\n']);
            i = j;
        }
        assert(old(out)@ + quoted(s@) =~= out@ + quoted(s@.skip(i as int)));
    }
    assert(s@.skip(i as int) =~= Seq::<char>::empty());
}

} // verus!
