//! Facts about the shape of rendered text: the blank-line bound, and when
//! the output is sure to be non-empty.
use vstd::prelude::*;
use crate::dom::{attr_value, skipped, tag_kind, Node, TagKind};
use crate::glyphs::{block_text, border_run, framed_rows, glyph_of, glyph_row, ramp_index};
use crate::render::{
    blank, collapse, collapse_from, entry_state, exit_state, indent, initial_state, lemma_kids_shape,
    lemma_node_shape, line_len, link_note, nl, quoted, render_kids, render_node, rendered,
    caption, image_step, block_at,
    text_step, RenderState, MAX_IMAGES, MAX_LINK_CHARS,
};
use crate::text::{is_ws, truncated};
use crate::root::{accepted_from, body_step, content_root, first_match};

verus! {

pub open spec fn no_triple_newline(o: Seq<char>) -> bool {
    forall|i: int|
        0 <= i && i + 2 < o.len() ==> !(#[trigger] o[i] == '\n' && o[i + 1] == '\n' && o[i + 2]
            == '\n')
}

pub open spec fn no_double_newline(o: Seq<char>) -> bool {
    forall|i: int| 0 <= i && i + 1 < o.len() ==> !(#[trigger] o[i] == '\n' && o[i + 1] == '\n')
}

pub open spec fn newline_free(s: Seq<char>) -> bool {
    forall|i: int| 0 <= i < s.len() ==> #[trigger] s[i] != '\n'
}

/// Trees the bound covers: every element that is rendered is neither a line
/// break nor a preformatted block, and every rendered link's address and
/// image's alternative text hold no newline.
pub open spec fn calm(n: Node) -> bool
    decreases n,
{
    match n {
        Node::Text { .. } => true,
        Node::Element { tag, attrs, children, .. } => skipped(tag@, attrs@) || ({
            let k = tag_kind(tag@);
            &&& k != TagKind::LineBreak
            &&& k != TagKind::Preformatted
            &&& (k == TagKind::Image ==> match attr_value(attrs@, "alt"@) {
                Some(a) => newline_free(a),
                None => true,
            })
            &&& (k == TagKind::Link ==> match attr_value(attrs@, "href"@) {
                Some(h) => newline_free(h),
                None => true,
            })
            &&& forall|i: int| 0 <= i < children@.len() ==> calm(#[trigger] children@[i])
        }),
    }
}

proof fn lemma_append_free(o: Seq<char>, w: Seq<char>)
    requires
        no_triple_newline(o),
        newline_free(w),
    ensures
        no_triple_newline(o + w),
{
    let r = o + w;
    assert forall|i: int| 0 <= i && i + 2 < r.len() implies !(#[trigger] r[i] == '\n' && r[i + 1]
        == '\n' && r[i + 2] == '\n') by {
        if i + 2 < o.len() {
            assert(r[i] == o[i] && r[i + 1] == o[i + 1] && r[i + 2] == o[i + 2]);
        } else {
            assert(r[i + 2] == w[i + 2 - o.len()]);
        }
    }
}

proof fn lemma_nl(o: Seq<char>)
    requires
        no_triple_newline(o),
    ensures
        no_triple_newline(nl(o)),
{
    let r = nl(o);
    assert forall|i: int| 0 <= i && i + 2 < r.len() implies !(#[trigger] r[i] == '\n' && r[i + 1]
        == '\n' && r[i + 2] == '\n') by {
        if i + 2 >= o.len() {
            assert(r[i + 1] == o[o.len() - 1]);
        } else {
            assert(r[i] == o[i] && r[i + 1] == o[i + 1] && r[i + 2] == o[i + 2]);
        }
    }
}

proof fn lemma_blank(o: Seq<char>)
    requires
        no_triple_newline(o),
    ensures
        no_triple_newline(blank(o)),
        blank(o).len() > 0 && blank(o).last() == '\n',
{
    lemma_nl(o);
    let n = nl(o);
    let r = blank(o);
    assert forall|i: int| 0 <= i && i + 2 < r.len() implies !(#[trigger] r[i] == '\n' && r[i + 1]
        == '\n' && r[i + 2] == '\n') by {
        if i + 2 >= n.len() {
            assert(r[i] == n[n.len() - 2] && r[i + 1] == n[n.len() - 1]);
        } else {
            assert(r[i] == n[i] && r[i + 1] == n[i + 1] && r[i + 2] == n[i + 2]);
        }
    }
}

proof fn lemma_take(o: Seq<char>, k: int)
    requires
        no_triple_newline(o),
        0 <= k <= o.len(),
    ensures
        no_triple_newline(o.take(k)),
{
    let r = o.take(k);
    assert forall|i: int| 0 <= i && i + 2 < r.len() implies !(#[trigger] r[i] == '\n' && r[i + 1]
        == '\n' && r[i + 2] == '\n') by {
        assert(r[i] == o[i] && r[i + 1] == o[i + 1] && r[i + 2] == o[i + 2]);
    }
}

proof fn lemma_join_quoted(a: Seq<char>, q: Seq<char>)
    requires
        no_triple_newline(a),
        no_double_newline(q),
        q.len() > 0 ==> q[0] != '\n',
    ensures
        no_triple_newline(a + q),
{
    let r = a + q;
    assert forall|i: int| 0 <= i && i + 2 < r.len() implies !(#[trigger] r[i] == '\n' && r[i + 1]
        == '\n' && r[i + 2] == '\n') by {
        if i + 2 < a.len() {
            assert(r[i] == a[i] && r[i + 1] == a[i + 1] && r[i + 2] == a[i + 2]);
        } else if i + 2 == a.len() {
            assert(r[i + 2] == q[0]);
        } else if i + 1 == a.len() {
            assert(r[i + 1] == q[0]);
        } else {
            assert(r[i + 1] == q[i + 1 - a.len()] && r[i + 2] == q[i + 2 - a.len()]);
        }
    }
}

proof fn lemma_line_len(s: Seq<char>)
    ensures
        line_len(s) <= s.len(),
        newline_free(s.take(line_len(s) as int)),
        line_len(s) < s.len() ==> s[line_len(s) as int] == '\n',
    decreases s.len(),
{
    if s.len() > 0 && s[0] != '\n' {
        lemma_line_len(s.drop_first());
        let t = s.take(line_len(s) as int);
        assert forall|i: int| 0 <= i < t.len() implies #[trigger] t[i] != '\n' by {
            if i > 0 {
                assert(t[i] == s.drop_first().take(line_len(s.drop_first()) as int)[i - 1]);
            }
        }
    }
}

proof fn lemma_quoted(s: Seq<char>)
    ensures
        no_double_newline(quoted(s)),
        quoted(s).len() > 0 ==> quoted(s)[0] == '│',
    decreases s.len(),
{
    reveal_strlit("│ ");
    if s.len() > 0 {
        let k = line_len(s);
        lemma_line_len(s);
        if k < s.len() {
            let line = if k > 0 && s[k - 1] == '\r' {
                s.take(k - 1)
            } else {
                s.take(k as int)
            };
            assert(newline_free(line)) by {
                assert forall|i: int| 0 <= i < line.len() implies #[trigger] line[i] != '\n' by {
                    assert(line[i] == s.take(k as int)[i]);
                }
            }
            let rest = s.skip((k + 1) as int);
            lemma_quoted(rest);
            let p = "│ "@ + line + seq!['\n'];
            let q = quoted(rest);
            assert(quoted(s) == p + q);
            let r = p + q;
            assert forall|i: int| 0 <= i && i + 1 < r.len() implies !(#[trigger] r[i] == '\n'
                && r[i + 1] == '\n') by {
                if i + 1 < p.len() {
                    assert(r[i] == p[i]);
                    if i >= 2 {
                        assert(p[i] == line[i - 2]);
                    }
                } else if i + 1 == p.len() {
                    assert(r[i + 1] == q[0]);
                } else {
                    assert(r[i] == q[i - p.len()] && r[i + 1] == q[i + 1 - p.len()]);
                }
            }
            assert(r[0] == '│');
        } else {
            assert(newline_free(s)) by {
                assert(s.take(k as int) =~= s);
            }
            let r = "│ "@ + s + seq!['\n'];
            assert forall|i: int| 0 <= i && i + 1 < r.len() implies !(#[trigger] r[i] == '\n'
                && r[i + 1] == '\n') by {
                if i >= 2 {
                    assert(r[i] == s[i - 2]);
                }
            }
        }
    }
}

proof fn lemma_collapse_from(s: Seq<char>, acc: Seq<char>, pending: bool)
    requires
        newline_free(acc),
    ensures
        newline_free(collapse_from(s, acc, pending)),
    decreases s.len(),
{
    if s.len() > 0 {
        if is_ws(s[0]) {
            lemma_collapse_from(s.drop_first(), acc, acc.len() > 0);
        } else {
            let a = if pending {
                acc.push(' ')
            } else {
                acc
            };
            assert(s[0] != '\n');
            assert(newline_free(a.push(s[0]))) by {
                assert forall|i: int| 0 <= i < a.push(s[0]).len() implies #[trigger] a.push(
                    s[0],
                )[i] != '\n' by {
                    if i < acc.len() {
                        assert(a.push(s[0])[i] == acc[i]);
                    }
                }
            }
            lemma_collapse_from(s.drop_first(), a.push(s[0]), false);
        }
    }
}

proof fn lemma_text_step(st: RenderState, content: Seq<char>)
    requires
        no_triple_newline(st.out),
        !st.in_pre,
    ensures
        no_triple_newline(text_step(st, content).out),
{
    lemma_collapse_from(content, seq![], false);
    let w = collapse(content);
    if w.len() > 0 {
        if !st.last_block && st.out.len() > 0 && st.out.last() != ' ' && st.out.last() != '\n' {
            lemma_append_free(st.out, seq![' ']);
            assert(st.out + seq![' '] == st.out.push(' '));
            lemma_append_free(st.out.push(' '), w);
        } else {
            lemma_append_free(st.out, w);
        }
    }
}

proof fn lemma_entry(st: RenderState, k: TagKind)
    requires
        no_triple_newline(st.out),
        !st.in_pre,
        k != TagKind::Preformatted,
    ensures
        no_triple_newline(entry_state(st, k).out),
        !entry_state(st, k).in_pre,
        entry_state(st, k).image_count == st.image_count,
{
    reveal_strlit("═══ ");
    reveal_strlit("━━ ");
    reveal_strlit("── ");
    reveal_strlit("▸ ");
    reveal_strlit("• ");
    reveal_strlit("**");
    reveal_strlit("  ↳ ");
    reveal_strlit("│ ");
    lemma_nl(st.out);
    lemma_blank(st.out);
    let b = blank(st.out);
    let n = nl(st.out);
    match k {
        TagKind::Heading1 => lemma_append_free(b, "═══ "@),
        TagKind::Heading2 => lemma_append_free(b, "━━ "@),
        TagKind::Heading3 => lemma_append_free(b, "── "@),
        TagKind::MinorHeading => lemma_append_free(b, "▸ "@),
        TagKind::ListItem => {
            lemma_append_free(n, indent(st.list_depth));
            lemma_append_free(n + indent(st.list_depth), "• "@);
        },
        TagKind::Code => {
            lemma_append_free(st.out, seq!['`']);
            assert(st.out + seq!['`'] == st.out.push('`'));
        },
        TagKind::Bold => lemma_append_free(st.out, "**"@),
        TagKind::Italic => {
            lemma_append_free(st.out, seq!['_']);
            assert(st.out + seq!['_'] == st.out.push('_'));
        },
        TagKind::Figcaption => lemma_append_free(st.out, "  ↳ "@),
        TagKind::TableRow => lemma_append_free(n, "│ "@),
        _ => {},
    }
}

proof fn lemma_exit(st: RenderState, k: TagKind, attrs: Seq<(String, String)>, b: RenderState)
    requires
        no_triple_newline(b.out),
        !st.in_pre,
        k != TagKind::Preformatted,
        k == TagKind::Link ==> match attr_value(attrs, "href"@) {
            Some(h) => newline_free(h),
            None => true,
        },
        k == TagKind::Blockquote ==> b.out.len() >= blank(st.out).len(),
    ensures
        no_triple_newline(exit_state(st, k, attrs, b).out),
{
    reveal_strlit(" ═══");
    reveal_strlit(" ━━");
    reveal_strlit(" ──");
    reveal_strlit("**");
    reveal_strlit(" │ ");
    reveal_strlit(" [→ ");
    reveal_strlit("]");
    lemma_nl(b.out);
    lemma_blank(b.out);
    match k {
        TagKind::Heading1 => {
            lemma_append_free(b.out, " ═══"@);
            lemma_blank(b.out + " ═══"@);
        },
        TagKind::Heading2 => {
            lemma_append_free(b.out, " ━━"@);
            lemma_blank(b.out + " ━━"@);
        },
        TagKind::Heading3 => {
            lemma_append_free(b.out, " ──"@);
            lemma_blank(b.out + " ──"@);
        },
        TagKind::Code => {
            lemma_append_free(b.out, seq!['`']);
            assert(b.out + seq!['`'] == b.out.push('`'));
        },
        TagKind::Bold => lemma_append_free(b.out, "**"@),
        TagKind::Italic => {
            lemma_append_free(b.out, seq!['_']);
            assert(b.out + seq!['_'] == b.out.push('_'));
        },
        TagKind::Link => {
            let note = link_note(attrs);
            assert(newline_free(note)) by {
                match attr_value(attrs, "href"@) {
                    Some(h) => {
                        let t = truncated(h, MAX_LINK_CHARS as nat);
                        assert(newline_free(t)) by {
                            assert forall|i: int| 0 <= i < t.len() implies #[trigger] t[i]
                                != '\n' by {
                                if i < h.len() && i < MAX_LINK_CHARS {
                                    assert(t[i] == h[i]);
                                }
                            }
                        }
                        let full = " [→ "@ + t + "]"@;
                        assert forall|i: int| 0 <= i < full.len() implies #[trigger] full[i]
                            != '\n' by {
                            if 4 <= i < 4 + t.len() {
                                assert(full[i] == t[i - 4]);
                            }
                        }
                    },
                    None => {},
                }
            }
            lemma_append_free(b.out, note);
        },
        TagKind::Blockquote => {
            let start = blank(st.out).len() as int;
            lemma_take(b.out, start);
            lemma_quoted(b.out.skip(start));
            lemma_join_quoted(b.out.take(start), quoted(b.out.skip(start)));
        },
        TagKind::TableCell => lemma_append_free(b.out, " │ "@),
        _ => {},
    }
}

/// Every newline of `s` follows a character that is not a newline; so `s`
/// neither starts with a newline nor holds two in a row.
pub open spec fn newline_after_text(s: Seq<char>) -> bool {
    forall|i: int| 0 <= i < s.len() && #[trigger] s[i] == '\n' ==> i > 0 && s[i - 1] != '\n'
}

/// Every supplied image block satisfies `newline_after_text`.
pub open spec fn blocks_shaped(images: Seq<Option<Seq<char>>>) -> bool {
    forall|i: int| 0 <= i < images.len() ==> match #[trigger] images[i] {
        Some(b) => newline_after_text(b),
        None => true,
    }
}

proof fn lemma_concat_shaped(a: Seq<char>, b: Seq<char>)
    requires
        newline_after_text(a),
        newline_after_text(b),
    ensures
        newline_after_text(a + b),
{
    let r = a + b;
    assert forall|i: int| 0 <= i < r.len() && #[trigger] r[i] == '\n' implies i > 0 && r[i - 1]
        != '\n' by {
        if i < a.len() {
            assert(r[i] == a[i]);
            assert(r[i - 1] == a[i - 1]);
        } else {
            assert(r[i] == b[i - a.len()]);
            if i > a.len() {
                assert(r[i - 1] == b[i - 1 - a.len()]);
            }
        }
    }
}

proof fn lemma_free_shaped(s: Seq<char>)
    requires
        newline_free(s),
    ensures
        newline_after_text(s),
{
}

proof fn lemma_join_shaped(a: Seq<char>, q: Seq<char>)
    requires
        no_triple_newline(a),
        newline_after_text(q),
    ensures
        no_triple_newline(a + q),
{
    let r = a + q;
    assert forall|i: int| 0 <= i && i + 2 < r.len() implies !(#[trigger] r[i] == '\n' && r[i + 1]
        == '\n' && r[i + 2] == '\n') by {
        if i + 2 < a.len() {
            assert(r[i] == a[i] && r[i + 1] == a[i + 1] && r[i + 2] == a[i + 2]);
        } else {
            let j = i + 2 - a.len();
            assert(r[i + 2] == q[j]);
            if j > 0 {
                assert(r[i + 1] == q[j - 1]);
            }
        }
    }
}

proof fn lemma_glyph_row_free(px: Seq<u8>)
    ensures
        newline_free(glyph_row(px)),
{
    assert forall|i: int| 0 <= i < glyph_row(px).len() implies #[trigger] glyph_row(px)[i]
        != '\n' by {
        let b = px[i];
        assert(0 <= ramp_index(b) <= 9) by (nonlinear_arith)
            requires
                ramp_index(b) == (b as int * 9) / 255,
                0 <= b as int <= 255,
        ;
        assert(glyph_row(px)[i] == glyph_of(b));
    }
}

proof fn lemma_framed_rows_shaped(w: nat, h: nat, px: Seq<u8>)
    ensures
        newline_after_text(framed_rows(w, h, px)),
    decreases h,
{
    if h > 0 {
        lemma_framed_rows_shaped(w, (h - 1) as nat, px);
        let row = glyph_row(px.subrange((h - 1) * w, (h * w) as int));
        lemma_glyph_row_free(px.subrange((h - 1) * w, (h * w) as int));
        let head = framed_rows(w, (h - 1) as nat, px);
        lemma_concat_shaped(head, seq!['│']);
        lemma_concat_shaped(head + seq!['│'], row);
        lemma_concat_shaped(head + seq!['│'] + row, seq!['│', '\n']);
    }
}

/// A glyph block never starts with a newline nor holds two in a row.
pub proof fn lemma_block_text_shaped(w: nat, h: nat, px: Seq<u8>)
    ensures
        newline_after_text(block_text(w, h, px)),
{
    lemma_framed_rows_shaped(w, h, px);
    let run = border_run(w);
    let a = seq!['┌'] + run + seq!['┐', '\n'];
    lemma_concat_shaped(seq!['┌'], run);
    lemma_concat_shaped(seq!['┌'] + run, seq!['┐', '\n']);
    lemma_concat_shaped(a, framed_rows(w, h, px));
    lemma_concat_shaped(a + framed_rows(w, h, px), seq!['└']);
    lemma_concat_shaped(a + framed_rows(w, h, px) + seq!['└'], run);
    lemma_concat_shaped(a + framed_rows(w, h, px) + seq!['└'] + run, seq!['┘', '\n']);
}

proof fn lemma_image_step(
    st: RenderState,
    attrs: Seq<(String, String)>,
    base: Seq<char>,
    images: Seq<Option<Seq<char>>>,
)
    requires
        no_triple_newline(st.out),
        blocks_shaped(images),
        match attr_value(attrs, "alt"@) {
            Some(a) => newline_free(a),
            None => true,
        },
    ensures
        no_triple_newline(image_step(st, attrs, base, images).out),
{
    reveal_strlit("[Image: ");
    reveal_strlit("]\n");
    lemma_blank(st.out);
    let c = caption(attrs);
    assert(newline_after_text(c)) by {
        match attr_value(attrs, "alt"@) {
            Some(a) => {
                if a.len() > 0 && a.len() < crate::render::MAX_CAPTION_CHARS {
                    lemma_free_shaped("[Image: "@);
                    lemma_free_shaped(a);
                    lemma_concat_shaped("[Image: "@, a);
                    lemma_concat_shaped("[Image: "@ + a, "]\n"@);
                }
            },
            None => {},
        }
    }
    lemma_join_shaped(blank(st.out), c);
    let i = st.requested.len();
    match block_at(images, i) {
        Some(b) => {
            assert(images[i as int] == Some(b));
            lemma_join_shaped(blank(st.out) + c, b);
            lemma_blank(blank(st.out) + c + b);
        },
        None => {},
    }
}

proof fn lemma_calm_node(st: RenderState, n: Node, base: Seq<char>, images: Seq<Option<Seq<char>>>)
    requires
        no_triple_newline(st.out),
        !st.in_pre,
        st.image_count <= MAX_IMAGES,
        calm(n),
        blocks_shaped(images),
    ensures
        no_triple_newline(render_node(st, n, base, images).out),
    decreases n, 1nat, 0nat,
{
    match n {
        Node::Text { content } => lemma_text_step(st, content@),
        Node::Element { tag, attrs, children, .. } => {
            if !skipped(tag@, attrs@) {
                let k = tag_kind(tag@);
                if k == TagKind::Image {
                    lemma_image_step(st, attrs@, base, images);
                } else if k == TagKind::Rule {
                    lemma_blank(st.out);
                    lemma_append_free(blank(st.out), border_run(40));
                    lemma_blank(blank(st.out) + border_run(40));
                } else {
                    let a = entry_state(st, k);
                    lemma_entry(st, k);
                    lemma_calm_kids(a, n, 0, base, images);
                    lemma_kids_shape(a, n, 0, base, images);
                    let b = render_kids(a, n, 0, base, images);
                    lemma_exit(st, k, attrs@, b);
                }
            }
        },
    }
}

proof fn lemma_calm_kids(
    st: RenderState,
    n: Node,
    i: nat,
    base: Seq<char>,
    images: Seq<Option<Seq<char>>>,
)
    requires
        no_triple_newline(st.out),
        !st.in_pre,
        st.image_count <= MAX_IMAGES,
        calm(n),
        blocks_shaped(images),
        !(n matches Node::Element { tag, attrs, .. } && skipped(tag@, attrs@)),
    ensures
        no_triple_newline(render_kids(st, n, i, base, images).out),
    decreases n, 0nat, n.kids().len() - i,
{
    if i < n.kids().len() {
        let c = n.kids()[i as int];
        assert(calm(c));
        lemma_calm_node(st, c, base, images);
        lemma_node_shape(st, c, base, images);
        lemma_calm_kids(render_node(st, c, base, images), n, i + 1, base, images);
    }
}

/// Rendering a tree without line breaks or preformatted blocks, whose link
/// addresses and image alternative texts hold no newline, never writes three
/// newlines in a row, when every supplied image block is shaped like a
/// glyph block (see `lemma_block_text_shaped`).
pub proof fn lemma_blank_line_bound(root: Node, base: Seq<char>, images: Seq<Option<Seq<char>>>)
    requires
        calm(root),
        blocks_shaped(images),
    ensures
        no_triple_newline(rendered(root, base, images)),
{
    lemma_calm_node(initial_state(), root, base, images);
}

/// Whether rendering `n` is sure to show some text: a text node with a
/// non-whitespace character, or a rendered element, other than a line break,
/// a rule or an image, with such a child.
pub open spec fn shows_text(n: Node) -> bool
    decreases n,
{
    match n {
        Node::Text { content } => exists|k: int|
            0 <= k < content@.len() && !is_ws(#[trigger] content@[k]),
        Node::Element { tag, attrs, children, .. } => {
            let k = tag_kind(tag@);
            &&& !skipped(tag@, attrs@)
            &&& k != TagKind::LineBreak
            &&& k != TagKind::Rule
            &&& k != TagKind::Image
            &&& exists|i: int| 0 <= i < children@.len() && shows_text(#[trigger] children@[i])
        },
    }
}

proof fn lemma_collapse_grows(s: Seq<char>, acc: Seq<char>, pending: bool)
    ensures
        collapse_from(s, acc, pending).len() >= acc.len(),
        (exists|k: int| 0 <= k < s.len() && !is_ws(#[trigger] s[k])) ==> collapse_from(
            s,
            acc,
            pending,
        ).len() > 0,
    decreases s.len(),
{
    if s.len() > 0 {
        let t = s.drop_first();
        if is_ws(s[0]) {
            lemma_collapse_grows(t, acc, acc.len() > 0);
            if exists|k: int| 0 <= k < s.len() && !is_ws(#[trigger] s[k]) {
                let k = choose|k: int| 0 <= k < s.len() && !is_ws(#[trigger] s[k]);
                assert(t[k - 1] == s[k]);
            }
        } else {
            let a = if pending {
                acc.push(' ')
            } else {
                acc
            };
            lemma_collapse_grows(t, a.push(s[0]), false);
        }
    }
}

proof fn lemma_exit_keeps_text(
    st: RenderState,
    k: TagKind,
    attrs: Seq<(String, String)>,
    b: RenderState,
)
    requires
        b.out.len() > 0,
        k == TagKind::Blockquote ==> b.out.len() >= blank(st.out).len(),
    ensures
        exit_state(st, k, attrs, b).out.len() > 0,
{
    if k == TagKind::Blockquote {
        lemma_blank_len(st.out);
    }
}

proof fn lemma_blank_len(o: Seq<char>)
    ensures
        blank(o).len() > 0,
        blank(o).len() >= o.len(),
{
}

/// Rendering a node that `shows_text` leaves a non-empty output.
pub proof fn lemma_visible_text_renders(
    st: RenderState,
    n: Node,
    base: Seq<char>,
    images: Seq<Option<Seq<char>>>,
)
    requires
        st.image_count <= MAX_IMAGES,
        shows_text(n),
    ensures
        render_node(st, n, base, images).out.len() > 0,
    decreases n, 1nat, 0nat,
{
    match n {
        Node::Text { content } => {
            lemma_collapse_grows(content@, seq![], false);
            if st.in_pre {
                assert((st.out + content@).len() >= content@.len());
            }
        },
        Node::Element { tag, attrs, children, .. } => {
            let k = tag_kind(tag@);
            let a = entry_state(st, k);
            let j = choose|j: int| 0 <= j < children@.len() && shows_text(#[trigger] children@[j]);
            assert(n.kids()[j] == children@[j]);
            assert(a.image_count == st.image_count);
            lemma_visible_kids(a, n, 0, base, images);
            lemma_kids_shape(a, n, 0, base, images);
            lemma_blank_len(st.out);
            lemma_exit_keeps_text(st, k, attrs@, render_kids(a, n, 0, base, images));
        },
    }
}

proof fn lemma_visible_kids(
    st: RenderState,
    n: Node,
    i: nat,
    base: Seq<char>,
    images: Seq<Option<Seq<char>>>,
)
    requires
        st.image_count <= MAX_IMAGES,
        exists|j: int| i <= j < n.kids().len() && shows_text(#[trigger] n.kids()[j]),
    ensures
        render_kids(st, n, i, base, images).out.len() > 0,
    decreases n, 0nat, n.kids().len() - i,
{
    let c = n.kids()[i as int];
    let next = render_node(st, c, base, images);
    lemma_node_shape(st, c, base, images);
    if shows_text(c) {
        lemma_visible_text_renders(st, c, base, images);
        lemma_kids_shape(next, n, i + 1, base, images);
    } else {
        let j = choose|j: int| i <= j < n.kids().len() && shows_text(#[trigger] n.kids()[j]);
        assert(j != i);
        lemma_visible_kids(next, n, i + 1, base, images);
    }
}

/// A document where no content pattern is accepted still renders non-empty
/// text, as long as the part it falls back to (its first `body` element, or
/// the whole document) holds some visible text.
pub proof fn lemma_fallback_not_empty(doc: Node, base: Seq<char>, images: Seq<Option<Seq<char>>>)
    requires
        accepted_from(doc, 0) is None,
        shows_text(
            match first_match(doc, None, body_step(), false) {
                Some(b) => b,
                None => doc,
            },
        ),
    ensures
        rendered(content_root(doc), base, images).len() > 0,
{
    lemma_visible_text_renders(initial_state(), content_root(doc), base, images);
}

} // verus!
