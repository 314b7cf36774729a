use companion::chat::{safe_char_boundary, wrap_text, ChatWidget};

fn msgs(w: &ChatWidget) -> Vec<(String, String)> {
    w.messages.iter().map(|m| (m.role.clone(), m.content.clone())).collect()
}

#[test]
fn wrap_breaks_after_last_space_that_fits() {
    assert_eq!(wrap_text("hello world foo", 11), vec!["hello", "world foo"]);
    assert_eq!(wrap_text("hello world foo", 15), vec!["hello world foo"]);
    assert_eq!(wrap_text("hello world foo", 8), vec!["hello", "world", "foo"]);
}

#[test]
fn wrap_splits_long_words() {
    assert_eq!(wrap_text("abcdefghij", 4), vec!["abcd", "efgh", "ij"]);
}

#[test]
fn wrap_keeps_empty_lines_and_strips_cr() {
    assert_eq!(wrap_text("a\n\nb\r\nc", 10), vec!["a", "", "b", "c"]);
    assert_eq!(wrap_text("a\n", 10), vec!["a"]);
    assert_eq!(wrap_text("", 10), Vec::<String>::new());
}

#[test]
fn wrap_with_zero_width_returns_lines() {
    assert_eq!(wrap_text("one two\nthree", 0), vec!["one two", "three"]);
    assert_eq!(wrap_text("x\r", 0), vec!["x\r"]);
}

#[test]
fn wrap_counts_bytes_not_chars() {
    // each CJK character is 3 bytes
    assert_eq!(wrap_text("你好世界", 6), vec!["你好", "世界"]);
    assert_eq!(wrap_text("你好世界", 7), vec!["你好", "世界"]);
}

#[test]
fn wrap_drops_whitespace_at_breaks() {
    assert_eq!(wrap_text("aaa    bbb", 5), vec!["aaa", "bbb"]);
}

#[test]
fn wrapped_lines_fit() {
    let text = "The quick brown fox jumps over the lazy dog, 你好 again and again";
    for w in 4..30 {
        for line in wrap_text(text, w) {
            assert!(line.len() <= w, "{line:?} wider than {w}");
        }
    }
}

#[test]
fn safe_char_boundary_walks_back_to_a_boundary() {
    assert_eq!(safe_char_boundary("héllo", 2), 1);
    assert_eq!(safe_char_boundary("héllo", 3), 3);
    assert_eq!(safe_char_boundary("abc", 10), 3);
    assert_eq!(safe_char_boundary("你", 2), 0);
}

#[test]
fn chat_widget_messages_and_tokens() {
    let mut w = ChatWidget::new();
    assert!(w.messages.is_empty());
    w.add_user("hi");
    w.append_token("ignored");
    w.start_ai();
    w.append_token("Hel");
    w.append_token("lo");
    assert_eq!(
        msgs(&w),
        vec![("You".to_string(), "hi".to_string()), ("AI".to_string(), "Hello".to_string())]
    );
}

#[test]
fn chat_widget_scrolling() {
    let mut w = ChatWidget::new();
    w.scroll_up(5);
    assert_eq!(w.scroll, 5);
    assert!(w.scrolled_up);
    // a new message keeps the position while scrolled up
    w.add_user("x");
    assert_eq!(w.scroll, 5);
    w.scroll_down(3);
    assert_eq!(w.scroll, 2);
    w.scroll_down(10);
    assert_eq!(w.scroll, 0);
    assert!(!w.scrolled_up);
    w.scroll_up(u16::MAX);
    w.scroll_up(1);
    assert_eq!(w.scroll, u16::MAX);
    w.scrolled_up = false;
    w.start_ai();
    assert_eq!(w.scroll, 0);
}

#[test]
fn scrolled_up_flag_tracks_offset() {
    let mut w = ChatWidget::new();
    assert!(w.messages.is_empty() && w.scroll == 0 && !w.scrolled_up);
    w.add_user("hi");
    assert_eq!((w.scroll, w.scrolled_up), (0, false));
    w.scroll_up(3);
    assert_eq!((w.scroll, w.scrolled_up), (3, true));
    w.start_ai();
    w.append_token("ok");
    assert_eq!((w.scroll, w.scrolled_up), (3, true));
    w.scroll_down(1);
    assert_eq!((w.scroll, w.scrolled_up), (2, true));
    w.scroll_down(5);
    assert_eq!((w.scroll, w.scrolled_up), (0, false));
    w.add_user("again");
    assert_eq!((w.scroll, w.scrolled_up), (0, false));
    w.scroll_up(u16::MAX);
    w.scroll_up(1);
    assert_eq!((w.scroll, w.scrolled_up), (u16::MAX, true));
}
