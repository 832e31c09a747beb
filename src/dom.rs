//! The document tree the renderer walks, and how its tags and attributes
//! are read.
use vstd::prelude::*;
use crate::filter::{lower_of, lowercase};
use crate::text::{contains_lit, matches_at, seq_contains, to_chars};

verus! {

/// A node of a parsed markup document.
pub enum Node {
    /// An element with its lowercase tag name, its attributes in document
    /// order, its children, and the length in bytes of its markup as the
    /// parser serialises it.
    Element { tag: String, attrs: Vec<(String, String)>, children: Vec<Node>, html_len: usize },
    /// A run of character data.
    Text { content: String },
}

impl Node {
    pub fn element(
        tag: &str,
        attrs: Vec<(String, String)>,
        children: Vec<Node>,
        html_len: usize,
    ) -> (r: Node)
        ensures
            r matches Node::Element { tag: t, attrs: a, children: c, html_len: l } && t@ == tag@
                && a == attrs && c == children && l == html_len,
    {
        Node::Element { tag: tag.to_owned(), attrs, children, html_len }
    }

    pub fn text(content: &str) -> (r: Node)
        ensures
            r matches Node::Text { content: c } && c@ == content@,
    {
        Node::Text { content: content.to_owned() }
    }

    /// The children of an element; a text node has none.
    pub open spec fn kids(self) -> Seq<Node> {
        match self {
            Node::Element { children, .. } => children@,
            Node::Text { .. } => seq![],
        }
    }
}

/// The formatting rule an element's tag selects.
#[derive(PartialEq, Eq, Structural, Clone, Copy, Debug)]
pub enum TagKind {
    /// Dropped with everything inside it.
    Excluded,
    Paragraph,
    /// `div`, `section`, `article`.
    Block,
    LineBreak,
    Rule,
    Heading1,
    Heading2,
    Heading3,
    /// `h4` to `h6`.
    MinorHeading,
    /// `ul`, `ol`.
    List,
    ListItem,
    Preformatted,
    Code,
    /// `strong`, `b`.
    Bold,
    /// `em`, `i`.
    Italic,
    Link,
    Image,
    Figure,
    Figcaption,
    Blockquote,
    Table,
    TableRow,
    /// `th`, `td`.
    TableCell,
    /// Every other tag: its children, with no markup of its own.
    Inline,
}

pub open spec fn tag_kind(t: Seq<char>) -> TagKind {
    if t == "script"@ || t == "style"@ || t == "nav"@ || t == "header"@ || t == "footer"@ || t
        == "aside"@ || t == "noscript"@ || t == "iframe"@ || t == "form"@ {
        TagKind::Excluded
    } else if t == "p"@ {
        TagKind::Paragraph
    } else if t == "div"@ || t == "section"@ || t == "article"@ {
        TagKind::Block
    } else if t == "br"@ {
        TagKind::LineBreak
    } else if t == "hr"@ {
        TagKind::Rule
    } else if t == "h1"@ {
        TagKind::Heading1
    } else if t == "h2"@ {
        TagKind::Heading2
    } else if t == "h3"@ {
        TagKind::Heading3
    } else if t == "h4"@ || t == "h5"@ || t == "h6"@ {
        TagKind::MinorHeading
    } else if t == "ul"@ || t == "ol"@ {
        TagKind::List
    } else if t == "li"@ {
        TagKind::ListItem
    } else if t == "pre"@ {
        TagKind::Preformatted
    } else if t == "code"@ {
        TagKind::Code
    } else if t == "strong"@ || t == "b"@ {
        TagKind::Bold
    } else if t == "em"@ || t == "i"@ {
        TagKind::Italic
    } else if t == "a"@ {
        TagKind::Link
    } else if t == "img"@ {
        TagKind::Image
    } else if t == "figure"@ {
        TagKind::Figure
    } else if t == "figcaption"@ {
        TagKind::Figcaption
    } else if t == "blockquote"@ {
        TagKind::Blockquote
    } else if t == "table"@ {
        TagKind::Table
    } else if t == "tr"@ {
        TagKind::TableRow
    } else if t == "th"@ || t == "td"@ {
        TagKind::TableCell
    } else {
        TagKind::Inline
    }
}

/// Whether the characters of `v` are exactly those of `lit`.
pub fn eq_lit(v: &Vec<char>, lit: &str) -> (r: bool)
    ensures
        r == (v@ == lit@),
{
    let t = to_chars(lit);
    if t.len() != v.len() {
        return false;
    }
    let r = matches_at(v, &t, 0);
    assert(v@.subrange(0, t@.len() as int) =~= v@);
    r
}

pub fn str_eq(a: &str, b: &str) -> (r: bool)
    ensures
        r == (a@ == b@),
{
    let v = to_chars(a);
    eq_lit(&v, b)
}

pub fn classify(tag: &str) -> (r: TagKind)
    ensures
        r == tag_kind(tag@),
{
    let t = to_chars(tag);
    if eq_lit(&t, "script") || eq_lit(&t, "style") || eq_lit(&t, "nav") || eq_lit(&t, "header")
        || eq_lit(&t, "footer") || eq_lit(&t, "aside") || eq_lit(&t, "noscript") || eq_lit(
        &t,
        "iframe",
    ) || eq_lit(&t, "form") {
        TagKind::Excluded
    } else if eq_lit(&t, "p") {
        TagKind::Paragraph
    } else if eq_lit(&t, "div") || eq_lit(&t, "section") || eq_lit(&t, "article") {
        TagKind::Block
    } else if eq_lit(&t, "br") {
        TagKind::LineBreak
    } else if eq_lit(&t, "hr") {
        TagKind::Rule
    } else if eq_lit(&t, "h1") {
        TagKind::Heading1
    } else if eq_lit(&t, "h2") {
        TagKind::Heading2
    } else if eq_lit(&t, "h3") {
        TagKind::Heading3
    } else if eq_lit(&t, "h4") || eq_lit(&t, "h5") || eq_lit(&t, "h6") {
        TagKind::MinorHeading
    } else if eq_lit(&t, "ul") || eq_lit(&t, "ol") {
        TagKind::List
    } else if eq_lit(&t, "li") {
        TagKind::ListItem
    } else if eq_lit(&t, "pre") {
        TagKind::Preformatted
    } else if eq_lit(&t, "code") {
        TagKind::Code
    } else if eq_lit(&t, "strong") || eq_lit(&t, "b") {
        TagKind::Bold
    } else if eq_lit(&t, "em") || eq_lit(&t, "i") {
        TagKind::Italic
    } else if eq_lit(&t, "a") {
        TagKind::Link
    } else if eq_lit(&t, "img") {
        TagKind::Image
    } else if eq_lit(&t, "figure") {
        TagKind::Figure
    } else if eq_lit(&t, "figcaption") {
        TagKind::Figcaption
    } else if eq_lit(&t, "blockquote") {
        TagKind::Blockquote
    } else if eq_lit(&t, "table") {
        TagKind::Table
    } else if eq_lit(&t, "tr") {
        TagKind::TableRow
    } else if eq_lit(&t, "th") || eq_lit(&t, "td") {
        TagKind::TableCell
    } else {
        TagKind::Inline
    }
}

/// The value of the first attribute named `name`.
pub open spec fn attr_value(attrs: Seq<(String, String)>, name: Seq<char>) -> Option<Seq<char>>
    decreases attrs.len(),
{
    if attrs.len() == 0 {
        None
    } else if attrs[0].0@ == name {
        Some(attrs[0].1@)
    } else {
        attr_value(attrs.drop_first(), name)
    }
}

pub fn get_attr(attrs: &Vec<(String, String)>, name: &str) -> (r: Option<String>)
    ensures
        match r {
            Some(v) => attr_value(attrs@, name@) == Some(v@),
            None => attr_value(attrs@, name@) is None,
        },
{
    let mut i: usize = 0;
    assert(attrs@.skip(0) =~= attrs@);
    while i < attrs.len()
        invariant
            i <= attrs@.len(),
            attr_value(attrs@, name@) == attr_value(attrs@.skip(i as int), name@),
        decreases attrs@.len() - i,
    {
        if str_eq(attrs[i].0.as_str(), name) {
            return Some(attrs[i].1.clone());
        }
        assert(attrs@.skip(i + 1 as int) =~= attrs@.skip(i as int).drop_first());
        i = i + 1;
    }
    None
}

/// Whether a lowercased `class` value names something that is not content:
/// hidden parts, sidebars, navigation, menus, page furniture, advertising.
pub open spec fn denied_class(c: Seq<char>) -> bool {
    seq_contains(c, "hidden"@) || seq_contains(c, "sidebar"@) || seq_contains(c, "nav"@)
        || seq_contains(c, "menu"@) || seq_contains(c, "footer"@) || seq_contains(c, "header"@)
        || seq_contains(c, "advertisement"@) || seq_contains(c, "ad-"@)
}

/// Whether an element with these attributes is skipped for its class.
pub open spec fn skipped_for_class(attrs: Seq<(String, String)>) -> bool {
    match attr_value(attrs, "class"@) {
        Some(c) => denied_class(lower_of(c)),
        None => false,
    }
}

pub fn has_denied_class(attrs: &Vec<(String, String)>) -> (r: bool)
    ensures
        r == skipped_for_class(attrs@),
{
    match get_attr(attrs, "class") {
        Some(c) => {
            let l = to_chars(lowercase(c.as_str()).as_str());
            contains_lit(&l, "hidden") || contains_lit(&l, "sidebar") || contains_lit(&l, "nav")
                || contains_lit(&l, "menu") || contains_lit(&l, "footer") || contains_lit(
                &l,
                "header",
            ) || contains_lit(&l, "advertisement") || contains_lit(&l, "ad-")
        },
        None => false,
    }
}

/// Whether an element is dropped from the output with all it contains.
pub open spec fn skipped(tag: Seq<char>, attrs: Seq<(String, String)>) -> bool {
    tag_kind(tag) == TagKind::Excluded || skipped_for_class(attrs)
}

} // verus!
