use navim::filter::{admissible_lowered, image_response_acceptable, resolve_url, should_render_image};
use navim::text::{sanitize_display, truncate_string};

#[test]
fn truncate_keeps_short_strings() {
    assert_eq!(truncate_string("hello", 10), "hello");
    assert_eq!(truncate_string("hello", 5), "hello");
}

#[test]
fn truncate_cuts_and_marks() {
    assert_eq!(truncate_string("hello world", 5), "hello...");
    assert_eq!(truncate_string("héllo wörld", 7), "héllo w...");
}

#[test]
fn sanitize_drops_controls_and_trims() {
    assert_eq!(sanitize_display("  a\u{7}b\n "), "ab");
    assert_eq!(sanitize_display("one\ntwo\u{1b}"), "one\ntwo");
    assert_eq!(sanitize_display("\u{a0}x\u{2003}"), "x");
}

#[test]
fn admission_filter_examples() {
    assert!(!should_render_image("https://x.com/icon-small.png"));
    assert!(should_render_image("https://x.com/photo.jpg"));
    assert!(!should_render_image("data:image/png;base64,AAA"));
}

#[test]
fn admission_filter_ignores_case() {
    assert!(!should_render_image("https://x.com/Site-LOGO.png"));
    assert!(!should_render_image("HTTPS://X.COM/ANIM.GIF"));
    assert!(!should_render_image("https://x.com/static/img.jpg".to_uppercase().as_str()));
}

#[test]
fn admission_filter_rejects_each_token() {
    for s in [
        "a/avatar.png", "a/sprite.png", "a/tracking.png", "a/pixel.png", "a/1x1.png",
        "a/badge.png", "a/button.png", "a/arrow.png", "a/spacer.png", "a/pic.svg",
        "a/pic.gif", "a/static/pic.png", "a/widget.png", "a/logo.png", "a/spinner.png",
        "a/loading.png",
    ] {
        assert!(!should_render_image(s), "{}", s);
    }
    assert!(should_render_image("a/pic.svg.png"));
}

#[test]
fn resolve_keeps_absolute_addresses() {
    assert_eq!(resolve_url("http://a.org/b.png", "https://x.com/"), Some("http://a.org/b.png".to_string()));
}

#[test]
fn resolve_protocol_relative() {
    assert_eq!(resolve_url("//cdn.x/img.png", "https://x.com/"), Some("https://cdn.x/img.png".to_string()));
}

#[test]
fn resolve_relative_against_base() {
    assert_eq!(
        resolve_url("img.png", "https://x.com/dir/page.html"),
        Some("https://x.com/dir/img.png".to_string())
    );
    assert_eq!(resolve_url("/root.png", "https://x.com/dir/page.html"), Some("https://x.com/root.png".to_string()));
}

#[test]
fn resolve_without_usable_base() {
    assert_eq!(resolve_url("img.png", "not a url"), None);
}

#[test]
fn response_gate() {
    assert!(image_response_acceptable("image/png", 2000));
    assert!(image_response_acceptable("image/jpeg", 1000));
    assert!(!image_response_acceptable("image/png", 999));
    assert!(!image_response_acceptable("image/svg+xml", 5000));
    assert!(!image_response_acceptable("image/gif", 5000));
    assert!(!image_response_acceptable("text/html", 5000));
}

use navim::nav::{history_down, next_index, previous_index, record, scroll_down, scroll_up, SearchInput};

#[test]
fn selection_wraps() {
    assert_eq!(next_index(Some(2), 3), Some(0));
    assert_eq!(next_index(Some(0), 3), Some(1));
    assert_eq!(next_index(None, 3), Some(0));
    assert_eq!(next_index(Some(1), 0), Some(1));
    assert_eq!(previous_index(Some(0), 3), Some(2));
    assert_eq!(previous_index(Some(2), 3), Some(1));
    assert_eq!(previous_index(None, 0), None);
}

#[test]
fn page_scrolling() {
    assert_eq!(scroll_down(0, 1, 100), 1);
    assert_eq!(scroll_down(85, 20, 100), 90);
    assert_eq!(scroll_down(0, 1, 5), 0);
    assert_eq!(scroll_up(3, 20), 0);
    assert_eq!(scroll_up(30, 20), 10);
}

#[test]
fn history_scrolling() {
    assert_eq!(history_down(0, 1, 3), 1);
    assert_eq!(history_down(2, 1, 3), 2);
    assert_eq!(history_down(1, 5, 4), 3);
    assert_eq!(history_down(0, 1, 0), 0);
}

#[test]
fn history_keeps_newest_hundred() {
    let mut h: Vec<u32> = (0..100).collect();
    record(&mut h, 999);
    assert_eq!(h.len(), 100);
    assert_eq!(h[0], 999);
    assert_eq!(h[99], 98);
    let mut small = vec![1u32];
    record(&mut small, 2);
    assert_eq!(small, vec![2, 1]);
}

#[test]
fn search_box_editing() {
    let mut s = SearchInput::new();
    s.insert_char('a');
    s.insert_char('c');
    s.move_cursor_left();
    s.insert_char('b');
    assert_eq!(s.text(), "abc");
    assert_eq!(s.cursor(), 2);
    s.move_cursor_right();
    s.move_cursor_right();
    assert_eq!(s.cursor(), 3);
    s.delete_char();
    assert_eq!(s.text(), "ab");
    s.move_cursor_left();
    s.move_cursor_left();
    s.move_cursor_left();
    s.delete_char();
    assert_eq!(s.text(), "ab");
    assert!(!s.is_empty());
}

#[test]
fn lowered_admission_is_case_sensitive() {
    assert!(!admissible_lowered("https://x.com/icon.png"));
    assert!(admissible_lowered("https://x.com/ICON.png"));
    assert!(admissible_lowered("https://x.com/photo.jpg"));
}
