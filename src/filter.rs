//! Which images are worth drawing, and where they live.
use vstd::prelude::*;
use crate::text::{
    contains_lit, ends_with_lit, seq_contains, seq_ends_with, seq_starts_with, starts_with_lit,
    string_of, to_chars,
};

verus! {

/// What `str::to_lowercase` makes of a character sequence.
pub uninterp spec fn lower_of(s: Seq<char>) -> Seq<char>;

/// Relies on `str::to_lowercase`: the lowercase mapping depends on the
/// characters alone.
#[verifier::external_body]
pub(crate) fn lowercase(s: &str) -> (r: String)
    ensures
        r@ == lower_of(s@),
{
    s.to_lowercase()
}

/// Whether an already lowercased image address names something decorative:
/// inline data, icons, trackers, logos and the like, or a vector or animated
/// format.
pub open spec fn decorative_image(s: Seq<char>) -> bool {
    seq_starts_with(s, "data:"@) || seq_contains(s, "icon"@) || seq_contains(s, "avatar"@)
        || seq_contains(s, "sprite"@) || seq_contains(s, "tracking"@) || seq_contains(
        s,
        "pixel"@,
    ) || seq_contains(s, "1x1"@) || seq_contains(s, "badge"@) || seq_contains(s, "button"@)
        || seq_contains(s, "arrow"@) || seq_contains(s, "spacer"@) || seq_ends_with(s, ".svg"@)
        || seq_ends_with(s, ".gif"@) || seq_contains(s, "/static/"@) || seq_contains(
        s,
        "widget"@,
    ) || seq_contains(s, "logo"@) || seq_contains(s, "spinner"@) || seq_contains(s, "loading"@)
}

/// Admission decision on an address that is already lowercase.
pub fn admissible_lowered(s: &str) -> (r: bool)
    ensures
        r == !decorative_image(s@),
{
    let v = to_chars(s);
    !(starts_with_lit(&v, "data:") || contains_lit(&v, "icon") || contains_lit(&v, "avatar")
        || contains_lit(&v, "sprite") || contains_lit(&v, "tracking") || contains_lit(&v, "pixel")
        || contains_lit(&v, "1x1") || contains_lit(&v, "badge") || contains_lit(&v, "button")
        || contains_lit(&v, "arrow") || contains_lit(&v, "spacer") || ends_with_lit(&v, ".svg")
        || ends_with_lit(&v, ".gif") || contains_lit(&v, "/static/") || contains_lit(
        &v,
        "widget",
    ) || contains_lit(&v, "logo") || contains_lit(&v, "spinner") || contains_lit(&v, "loading"))
}

/// Case-insensitive admission filter on an image address; no network access.
pub fn should_render_image(src: &str) -> (r: bool)
    ensures
        r == !decorative_image(lower_of(src@)),
{
    let lower = lowercase(src);
    admissible_lowered(lower.as_str())
}

/// What `url::Url::join` makes of `reference` against the parsed `base`,
/// serialised; `None` where either fails to parse.
pub uninterp spec fn joined_url(base: Seq<char>, reference: Seq<char>) -> Option<Seq<char>>;

/// Relies on `url::Url::parse` for the base address and `url::Url::join` for
/// the reference: the outcome depends on the two strings alone.
#[verifier::external_body]
fn join_url(base: &str, reference: &str) -> (r: Option<String>)
    ensures
        match r {
            Some(u) => joined_url(base@, reference@) == Some(u@),
            None => joined_url(base@, reference@) is None,
        },
{
    match url::Url::parse(base) {
        Ok(b) => match b.join(reference) {
            Ok(u) => Some(u.to_string()),
            Err(_) => None,
        },
        Err(_) => None,
    }
}

/// The absolute address of an image reference, as `resolve_url` finds it.
pub open spec fn resolved(src: Seq<char>, base: Seq<char>) -> Option<Seq<char>> {
    if seq_starts_with(src, "http"@) {
        Some(src)
    } else if seq_starts_with(src, "//"@) {
        Some("https:"@ + src)
    } else {
        joined_url(base, src)
    }
}

/// Makes `src` absolute: kept when it already names an http(s) address,
/// given the https scheme when protocol-relative, else joined to `base`.
pub fn resolve_url(src: &str, base: &str) -> (r: Option<String>)
    ensures
        match r {
            Some(u) => resolved(src@, base@) == Some(u@),
            None => resolved(src@, base@) is None,
        },
{
    let v = to_chars(src);
    if starts_with_lit(&v, "http") {
        Some(src.to_owned())
    } else if starts_with_lit(&v, "//") {
        let mut out = to_chars("https:");
        crate::text::push_chars(&mut out, &v);
        Some(string_of(&out))
    } else {
        join_url(base, src)
    }
}

/// Bodies shorter than this are taken for tracking pixels.
pub const MIN_IMAGE_BYTES: usize = 1000;

/// Whether a content type names a raster image other than SVG or GIF.
pub open spec fn acceptable_type(content_type: Seq<char>) -> bool {
    seq_starts_with(content_type, "image/"@) && !seq_contains(content_type, "svg"@)
        && !seq_contains(content_type, "gif"@)
}

pub fn image_type_acceptable(content_type: &str) -> (r: bool)
    ensures
        r == acceptable_type(content_type@),
{
    let v = to_chars(content_type);
    starts_with_lit(&v, "image/") && !contains_lit(&v, "svg") && !contains_lit(&v, "gif")
}

/// Whether a fetched response may be an image worth converting: an
/// acceptable type, with a body of at least `MIN_IMAGE_BYTES` bytes.
pub open spec fn acceptable_response(content_type: Seq<char>, body_len: nat) -> bool {
    acceptable_type(content_type) && body_len >= MIN_IMAGE_BYTES
}

pub fn image_response_acceptable(content_type: &str, body_len: usize) -> (r: bool)
    ensures
        r == acceptable_response(content_type@, body_len as nat),
{
    image_type_acceptable(content_type) && body_len >= MIN_IMAGE_BYTES
}

} // verus!
