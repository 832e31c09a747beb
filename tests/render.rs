use navim::dom::Node;
use navim::render::HtmlRenderer;
use navim::root::{extract_content_with_images, more_images_wanted, page_image_sources};

fn sized(tag: &str, attrs: &[(&str, &str)], children: Vec<Node>, html_len: usize) -> Node {
    Node::element(
        tag,
        attrs.iter().map(|(k, v)| (k.to_string(), v.to_string())).collect(),
        children,
        html_len,
    )
}

fn el(tag: &str, attrs: &[(&str, &str)], children: Vec<Node>) -> Node {
    sized(tag, attrs, children, 0)
}

fn txt(s: &str) -> Node {
    Node::text(s)
}

fn render(n: &Node) -> String {
    let mut r = HtmlRenderer::new("https://x.com/page", Vec::new());
    r.render_element(n);
    r.finish()
}

#[test]
fn paragraph_with_bold() {
    let n = el("p", &[], vec![txt("Hello  "), el("b", &[], vec![txt("world")])]);
    assert_eq!(render(&n), "\nHello** world**\n");
}

#[test]
fn whitespace_collapses_between_words() {
    let n = el("div", &[], vec![txt("  a \n\t b  "), el("span", &[], vec![txt("c")])]);
    assert_eq!(render(&n), "a b c\n");
}

#[test]
fn heading_one_uses_heaviest_border() {
    let n = el("h1", &[], vec![txt("A")]);
    assert_eq!(render(&n), "\n═══ A ═══\n\n");
}

#[test]
fn heading_three_is_lighter() {
    let h3 = render(&el("h3", &[], vec![txt("A")]));
    assert_eq!(h3, "\n── A ──\n\n");
    let h2 = render(&el("h2", &[], vec![txt("A")]));
    assert_eq!(h2, "\n━━ A ━━\n\n");
    let h5 = render(&el("h5", &[], vec![txt("A")]));
    assert_eq!(h5, "\n▸ A\n\n");
}

#[test]
fn heading_blank_lines_around() {
    let n = el("div", &[], vec![el("p", &[], vec![txt("x")]), el("h1", &[], vec![txt("A")]), el("p", &[], vec![txt("y")])]);
    assert_eq!(render(&n), "\nx\n\n═══ A ═══\n\ny\n");
}

#[test]
fn nav_contributes_nothing() {
    let n = el(
        "div",
        &[],
        vec![
            el("nav", &[], vec![el("p", &[], vec![txt("menu item")])]),
            el("p", &[], vec![txt("body")]),
        ],
    );
    let out = render(&n);
    assert!(!out.contains("menu"));
    assert_eq!(out, "\nbody\n");
}

#[test]
fn denied_class_is_skipped() {
    let n = el(
        "div",
        &[],
        vec![
            el("div", &[("class", "Main SIDEBAR")], vec![txt("side")]),
            el("div", &[("class", "ad-slot")], vec![txt("buy")]),
            txt("kept"),
        ],
    );
    assert_eq!(render(&n), "kept\n");
}

#[test]
fn lists_and_depth() {
    let n = el(
        "ul",
        &[],
        vec![
            el("li", &[], vec![txt("a")]),
            el("li", &[], vec![txt("b"), el("ol", &[], vec![el("li", &[], vec![txt("c")])])]),
        ],
    );
    let mut r = HtmlRenderer::new("https://x.com/", Vec::new());
    r.render_element(&n);
    assert_eq!(r.list_depth(), 0);
    assert_eq!(r.finish(), "• a\n• b\n  • c\n");
}

#[test]
fn line_break_and_rule() {
    let n = el("div", &[], vec![txt("a"), el("br", &[], vec![]), txt("b"), el("hr", &[], vec![])]);
    assert_eq!(render(&n), format!("a\nb\n\n{}\n\n", "─".repeat(40)));
}

#[test]
fn preformatted_is_verbatim() {
    let n = el("pre", &[], vec![el("code", &[], vec![txt("  x = 1\n  y")])]);
    let top = format!("┌{}┐", "─".repeat(41));
    let bottom = format!("└{}┘", "─".repeat(41));
    assert_eq!(render(&n), format!("\n{}\n  x = 1\n  y\n{}\n\n", top, bottom));
}

#[test]
fn inline_code_and_emphasis() {
    let n = el("p", &[], vec![el("code", &[], vec![txt("f()")]), el("em", &[], vec![txt("x")])]);
    assert_eq!(render(&n), "\n`f()`_ x_\n");
}

#[test]
fn link_annotation_truncated() {
    let href = "https://example.com/a/very/long/path/that/goes/on";
    let n = el("a", &[("href", href)], vec![txt("site")]);
    assert_eq!(render(&n), "site [→ https://example.com/a/very/long/path/tha...]");
}

#[test]
fn script_links_not_annotated() {
    let n = el("a", &[("href", "javascript:void(0)")], vec![txt("x")]);
    assert_eq!(render(&n), "x");
    let m = el("a", &[("href", "/relative")], vec![txt("y")]);
    assert_eq!(render(&m), "y");
}

#[test]
fn blockquote_prefixes_lines() {
    let n = el("blockquote", &[], vec![el("p", &[], vec![txt("one")]), el("p", &[], vec![txt("two")])]);
    assert_eq!(render(&n), "\n│ \n│ one\n│ \n│ two\n");
}

#[test]
fn table_rows_and_cells() {
    let n = el(
        "table",
        &[],
        vec![el("tr", &[], vec![el("td", &[], vec![txt("a")]), el("td", &[], vec![txt("b")])])],
    );
    assert_eq!(render(&n), "\n│ a │ b │ \n\n");
}

#[test]
fn figure_caption() {
    let n = el("figure", &[], vec![el("figcaption", &[], vec![txt("cap")])]);
    assert_eq!(render(&n), "  ↳ cap\n");
}

#[test]
fn no_triple_newlines() {
    let n = el(
        "div",
        &[],
        vec![
            el("p", &[], vec![txt("a")]),
            el("p", &[], vec![]),
            el("h2", &[], vec![txt("b")]),
            el("table", &[], vec![]),
            el("hr", &[], vec![]),
            el("blockquote", &[], vec![el("p", &[], vec![txt("q")])]),
            el("p", &[], vec![txt("c")]),
        ],
    );
    let out = render(&n);
    assert!(!out.contains("\n\n\n"), "{:?}", out);
}

fn image(src: &str, alt: &str) -> Node {
    el("img", &[("src", src), ("alt", alt)], vec![])
}

#[test]
fn image_cap_three() {
    let n = el(
        "div",
        &[],
        (0..5).map(|i| image(&format!("https://x.com/p{}.jpg", i), "")).collect(),
    );
    let blocks: Vec<Option<String>> = (0..5).map(|i| Some(format!("[{}]\n", i))).collect();
    let mut r = HtmlRenderer::new("https://x.com/", blocks);
    r.render_element(&n);
    assert_eq!(r.image_count(), 3);
    let out = r.finish();
    assert!(out.contains("[0]") && out.contains("[1]") && out.contains("[2]"));
    assert!(!out.contains("[3]") && !out.contains("[4]"));
}

#[test]
fn failed_image_is_skipped_and_not_counted() {
    let n = el(
        "div",
        &[],
        vec![
            image("https://x.com/a.jpg", "first"),
            image("https://x.com/icon.png", ""),
            image("https://x.com/b.jpg", "second"),
        ],
    );
    let blocks = vec![None, Some("B\n".to_string())];
    let mut r = HtmlRenderer::new("https://x.com/", blocks);
    r.render_element(&n);
    assert_eq!(r.image_count(), 1);
    assert_eq!(r.finish(), "\n[Image: second]\nB\n\n");
}

#[test]
fn lazy_source_and_long_alt() {
    let long_alt = "a".repeat(100);
    let n = el("img", &[("data-src", "pic.jpg"), ("alt", long_alt.as_str())], vec![]);
    let mut r = HtmlRenderer::new("https://x.com/d/", vec![Some("P\n".to_string())]);
    r.render_element(&n);
    assert_eq!(r.finish(), "\nP\n\n");
}

fn page(body: Vec<Node>) -> Node {
    el("html", &[], vec![el("head", &[], vec![]), el("body", &[], body)])
}

#[test]
fn content_root_fallback_to_body() {
    let doc = page(vec![el("p", &[], vec![txt("short")])]);
    let out = extract_content_with_images(&doc, "https://x.com/", Vec::new());
    assert_eq!(out, "\nshort\n");
}

#[test]
fn content_root_without_body() {
    let doc = el("div", &[], vec![txt("bare")]);
    assert_eq!(extract_content_with_images(&doc, "https://x.com/", Vec::new()), "bare\n");
}

#[test]
fn content_root_prefers_large_article() {
    let long = "word ".repeat(120);
    let doc = page(vec![
        el("p", &[], vec![txt("outside")]),
        sized("article", &[], vec![el("p", &[], vec![txt(long.as_str())])], 640),
    ]);
    let out = extract_content_with_images(&doc, "https://x.com/", Vec::new());
    assert!(!out.contains("outside"));
    assert!(out.starts_with("\nword word"));
}

#[test]
fn small_article_is_not_accepted() {
    let doc = page(vec![
        el("p", &[], vec![txt("outside")]),
        sized("article", &[], vec![el("p", &[], vec![txt("tiny")])], 30),
    ]);
    let out = extract_content_with_images(&doc, "https://x.com/", Vec::new());
    assert!(out.contains("outside") && out.contains("tiny"));
}

#[test]
fn nested_class_pattern() {
    let long = "x".repeat(600);
    let doc = page(vec![
        el("div", &[("class", "s-prose")], vec![txt("loose")]),
        el(
            "div",
            &[("class", "question other")],
            vec![sized("div", &[("class", "js s-prose")], vec![txt(long.as_str())], 640)],
        ),
    ]);
    let out = extract_content_with_images(&doc, "https://x.com/", Vec::new());
    assert!(!out.contains("loose"));
    assert!(out.contains("xxxx"));
}

#[test]
fn image_sources_in_order() {
    let doc = page(vec![
        image("a.jpg", ""),
        el("nav", &[], vec![image("b.jpg", "")]),
        image("https://y.org/logo.png", ""),
        el("p", &[], vec![image("//cdn.z/c.png", "")]),
    ]);
    let srcs = page_image_sources(&doc, "https://x.com/dir/");
    assert_eq!(srcs, vec!["https://x.com/dir/a.jpg".to_string(), "https://cdn.z/c.png".to_string()]);
}

#[test]
fn ensure_newline_twice_equals_once() {
    let n = el("span", &[], vec![txt("text")]);
    let mut once = HtmlRenderer::new("https://x.com/", Vec::new());
    once.render_element(&n);
    once.ensure_newline();
    let mut twice = HtmlRenderer::new("https://x.com/", Vec::new());
    twice.render_element(&n);
    twice.ensure_newline();
    twice.ensure_newline();
    assert_eq!(once.finish(), twice.finish());
}

#[test]
fn ensure_blank_line_on_text() {
    let n = el("span", &[], vec![txt("text")]);
    let mut r = HtmlRenderer::new("https://x.com/", Vec::new());
    r.render_element(&n);
    r.ensure_blank_line();
    r.ensure_blank_line();
    assert_eq!(r.finish(), "text\n\n");
}

#[test]
fn blocks_follow_listed_sources() {
    let doc = page(vec![
        image("one.jpg", "first"),
        image("spinner.png", ""),
        el("p", &[], vec![txt("between")]),
        image("two.jpg", ""),
    ]);
    let srcs = page_image_sources(&doc, "https://x.com/");
    assert_eq!(srcs, vec!["https://x.com/one.jpg".to_string(), "https://x.com/two.jpg".to_string()]);
    let blocks = srcs.iter().map(|s| Some(format!("<{}>\n", s))).collect();
    let out = extract_content_with_images(&doc, "https://x.com/", blocks);
    assert_eq!(
        out,
        "\n[Image: first]\n<https://x.com/one.jpg>\n\nbetween\n\n<https://x.com/two.jpg>\n\n"
    );
}

#[test]
fn fetching_stops_at_the_cap() {
    assert!(more_images_wanted(&vec![]));
    assert!(more_images_wanted(&vec![Some("a".to_string()), None, Some("b".to_string()), None]));
    assert!(!more_images_wanted(&vec![
        Some("a".to_string()),
        None,
        Some("b".to_string()),
        Some("c".to_string()),
    ]));
}

#[test]
fn size_threshold_is_strict() {
    let at_limit = page(vec![
        el("p", &[], vec![txt("outside")]),
        sized("main", &[], vec![txt("inside")], 500),
    ]);
    let out = extract_content_with_images(&at_limit, "https://x.com/", Vec::new());
    assert!(out.contains("outside"));
    let above = page(vec![
        el("p", &[], vec![txt("outside")]),
        sized("main", &[], vec![txt("inside")], 501),
    ]);
    assert_eq!(extract_content_with_images(&above, "https://x.com/", Vec::new()), "inside");
}

#[test]
fn nav_inserted_deep_changes_nothing() {
    let t1 = el(
        "div",
        &[],
        vec![el("p", &[], vec![txt("a"), el("span", &[], vec![txt("b"), txt("c")])])],
    );
    let t2 = el(
        "div",
        &[],
        vec![el(
            "p",
            &[],
            vec![
                txt("a"),
                el(
                    "span",
                    &[],
                    vec![txt("b"), el("nav", &[], vec![el("ul", &[], vec![el("li", &[], vec![txt("x")])])]), txt("c")],
                ),
            ],
        )],
    );
    let mut r1 = HtmlRenderer::new("https://x.com/", Vec::new());
    let mut r2 = HtmlRenderer::new("https://x.com/", Vec::new());
    r1.render_element(&t1);
    r2.render_element(&t2);
    assert_eq!(r1.list_depth(), r2.list_depth());
    assert_eq!(r1.image_count(), r2.image_count());
    assert_eq!(r1.finish(), r2.finish());
}

#[test]
fn image_block_without_caption_keeps_bound() {
    let block = navim::glyphs::glyph_block(10, 5, &vec![0u8; 50]);
    assert!(block.starts_with('┌'));
    let n = el("div", &[], vec![el("p", &[], vec![txt("a")]), image("photo.jpg", ""), txt("b")]);
    let mut r = HtmlRenderer::new("https://x.com/", vec![Some(block.clone())]);
    r.render_element(&n);
    assert_eq!(r.image_count(), 1);
    let out = r.finish();
    assert!(!out.contains("\n\n\n"), "{:?}", out);
    assert_eq!(out, format!("\na\n\n{}\nb\n", block));
}
