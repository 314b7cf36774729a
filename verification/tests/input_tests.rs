use companion::input::InputWidget;

#[test]
fn typing_and_editing() {
    let mut w = InputWidget::new();
    for c in "héllo".chars() {
        w.insert_char(c);
    }
    assert_eq!(w.buffer, "héllo");
    assert_eq!(w.cursor, 6);
    w.cursor_left();
    assert_eq!(w.cursor, 5);
    w.backspace();
    assert_eq!(w.buffer, "hélo");
    assert_eq!(w.cursor, 4);
    w.cursor_home();
    w.cursor_right();
    w.cursor_right();
    assert_eq!(w.cursor, 3);
    w.delete();
    assert_eq!(w.buffer, "hélo".replacen('l', "", 1));
    w.cursor_end();
    assert_eq!(w.cursor, w.buffer.len());
    w.delete();
    assert_eq!(w.buffer, "héo");
}

#[test]
fn insert_in_the_middle_then_backspace_restores() {
    let mut w = InputWidget::new();
    for c in "ab".chars() {
        w.insert_char(c);
    }
    w.cursor_left();
    w.insert_char('你');
    assert_eq!(w.buffer, "a你b");
    assert_eq!(w.cursor, 4);
    w.backspace();
    assert_eq!(w.buffer, "ab");
    assert_eq!(w.cursor, 1);
}

#[test]
fn boundaries() {
    let mut w = InputWidget::new();
    for c in "a你".chars() {
        w.insert_char(c);
    }
    assert_eq!(w.prev_char_boundary(), 1);
    assert_eq!(w.next_char_boundary(), w.cursor + 1);
    w.cursor_home();
    assert_eq!(w.prev_char_boundary(), 0);
    assert_eq!(w.next_char_boundary(), 1);
    w.backspace();
    assert_eq!(w.buffer, "a你");
    assert_eq!(w.cursor, 0);
    w.cursor_left();
    assert_eq!(w.cursor, 0);
}

#[test]
fn take_and_clear() {
    let mut w = InputWidget::new();
    w.insert_char('x');
    assert_eq!(w.take(), "x");
    assert_eq!(w.buffer, "");
    assert_eq!(w.cursor, 0);
    w.insert_char('y');
    w.clear();
    assert_eq!(w.buffer, "");
    assert_eq!(w.cursor, 0);
}

#[test]
fn backspace_undoes_typing() {
    let mut w = InputWidget::new();
    for c in "aé中b".chars() {
        w.insert_char(c);
    }
    w.cursor_left();
    w.cursor_left();
    let (buf, cur) = (w.buffer.clone(), w.cursor);
    assert_eq!(cur, 3);
    for c in ['x', 'ß', '中', '😀'] {
        w.insert_char(c);
        assert_ne!(w.buffer, buf);
        w.backspace();
        assert_eq!(w.buffer, buf);
        assert_eq!(w.cursor, cur);
    }
}
