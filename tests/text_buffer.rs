use mail_search::text_buffer::{KeyInputResult, TextBuffer};

#[test]
fn test_new_buffer() {
    let buffer = TextBuffer::new();
    assert!(buffer.is_empty());
    assert_eq!(buffer.cursor, 0);
}

#[test]
fn test_with_text() {
    let buffer = TextBuffer::with_text("hello");
    assert_eq!(buffer.text(), "hello");
    assert_eq!(buffer.cursor, 5);
}

#[test]
fn test_insert_char() {
    let mut buffer = TextBuffer::new();
    buffer.insert_char('h');
    buffer.insert_char('i');
    assert_eq!(buffer.text(), "hi");
    assert_eq!(buffer.cursor, 2);
}

#[test]
fn test_insert_str() {
    let mut buffer = TextBuffer::new();
    buffer.insert_str("hello");
    assert_eq!(buffer.text(), "hello");
    assert_eq!(buffer.cursor, 5);
}

#[test]
fn test_backspace() {
    let mut buffer = TextBuffer::with_text("hello");
    assert!(buffer.backspace());
    assert_eq!(buffer.text(), "hell");
    assert_eq!(buffer.cursor, 4);
}

#[test]
fn test_backspace_at_start() {
    let mut buffer = TextBuffer::new();
    assert!(!buffer.backspace());
    assert_eq!(buffer.text(), "");
}

#[test]
fn test_delete() {
    let mut buffer = TextBuffer::with_text("hello");
    buffer.move_to_start();
    assert!(buffer.delete());
    assert_eq!(buffer.text(), "ello");
}

#[test]
fn test_delete_at_end() {
    let mut buffer = TextBuffer::with_text("hello");
    assert!(!buffer.delete());
    assert_eq!(buffer.text(), "hello");
}

#[test]
fn test_cursor_movement() {
    let mut buffer = TextBuffer::with_text("hello");
    assert_eq!(buffer.cursor, 5);

    buffer.move_left();
    assert_eq!(buffer.cursor, 4);

    buffer.move_to_start();
    assert_eq!(buffer.cursor, 0);

    buffer.move_right();
    assert_eq!(buffer.cursor, 1);

    buffer.move_to_end();
    assert_eq!(buffer.cursor, 5);
}

#[test]
fn test_insert_in_middle() {
    let mut buffer = TextBuffer::with_text("hllo");
    buffer.cursor = 1;
    buffer.insert_char('e');
    assert_eq!(buffer.text(), "hello");
}

#[test]
fn test_clear() {
    let mut buffer = TextBuffer::with_text("hello");
    buffer.clear();
    assert!(buffer.is_empty());
    assert_eq!(buffer.cursor, 0);
}

#[test]
fn test_unicode() {
    let mut buffer = TextBuffer::new();
    buffer.insert_str("hello ");
    buffer.insert_char('\u{1F389}');
    assert_eq!(buffer.text(), "hello \u{1F389}");

    buffer.backspace();
    assert_eq!(buffer.text(), "hello ");
}

#[test]
fn test_process_key_text() {
    let mut buffer = TextBuffer::new();

    let result = buffer.process_key("h", false, false, false);
    assert_eq!(result, KeyInputResult::TextChanged);
    assert_eq!(buffer.text(), "h");

    let result = buffer.process_key("i", false, false, false);
    assert_eq!(result, KeyInputResult::TextChanged);
    assert_eq!(buffer.text(), "hi");
}

#[test]
fn test_process_key_shift() {
    let mut buffer = TextBuffer::new();

    buffer.process_key("h", true, false, false);
    assert_eq!(buffer.text(), "H");
}

#[test]
fn test_process_key_special() {
    let mut buffer = TextBuffer::with_text("hello");

    let result = buffer.process_key("backspace", false, false, false);
    assert_eq!(result, KeyInputResult::TextChanged);
    assert_eq!(buffer.text(), "hell");

    let result = buffer.process_key("enter", false, false, false);
    assert_eq!(result, KeyInputResult::Submit);

    let result = buffer.process_key("escape", false, false, false);
    assert_eq!(result, KeyInputResult::Cancel);
}

#[test]
fn test_process_key_cursor() {
    let mut buffer = TextBuffer::with_text("hello");

    let result = buffer.process_key("left", false, false, false);
    assert_eq!(result, KeyInputResult::Consumed);
    assert_eq!(buffer.cursor, 4);

    let result = buffer.process_key("home", false, false, false);
    assert_eq!(result, KeyInputResult::Consumed);
    assert_eq!(buffer.cursor, 0);
}

#[test]
fn test_delete_word_backward() {
    let mut buffer = TextBuffer::with_text("hello world");
    buffer.delete_word_backward();
    assert_eq!(buffer.text(), "hello ");

    buffer.delete_word_backward();
    assert_eq!(buffer.text(), "");
}

#[test]
fn delete_word_backward_skips_tabs_and_newlines() {
    let mut buffer = TextBuffer::with_text("one two\t\n");
    buffer.delete_word_backward();
    assert_eq!(buffer.text(), "one ");
    assert_eq!(buffer.cursor, 4);
}

#[test]
fn delete_word_backward_stops_at_cursor() {
    let mut buffer = TextBuffer::with_text("alpha beta gamma");
    buffer.cursor = 10;
    buffer.delete_word_backward();
    assert_eq!(buffer.text(), "alpha  gamma");
    assert_eq!(buffer.cursor, 6);
}

#[test]
fn process_key_other_names() {
    let mut buffer = TextBuffer::with_text("ab");
    buffer.move_to_start();
    assert_eq!(buffer.process_key("right", false, false, false), KeyInputResult::Consumed);
    assert_eq!(buffer.cursor, 1);
    assert_eq!(buffer.process_key("space", false, false, false), KeyInputResult::TextChanged);
    assert_eq!(buffer.text(), "a b");
    assert_eq!(buffer.process_key("delete", false, false, false), KeyInputResult::TextChanged);
    assert_eq!(buffer.text(), "a ");
    assert_eq!(buffer.process_key("end", false, false, false), KeyInputResult::Consumed);
    assert_eq!(buffer.cursor, 2);
    assert_eq!(buffer.process_key("tab", false, false, false), KeyInputResult::Ignored);
    assert_eq!(buffer.process_key("f1", false, false, false), KeyInputResult::Ignored);
    assert_eq!(buffer.process_key("\u{e9}", false, false, false), KeyInputResult::Ignored);
    assert_eq!(buffer.text(), "a ");
}

#[test]
fn process_key_word_deletion_with_modifier() {
    let mut buffer = TextBuffer::with_text("hello world");
    assert_eq!(buffer.process_key("backspace", false, true, false), KeyInputResult::TextChanged);
    assert_eq!(buffer.text(), "hello ");
    assert_eq!(buffer.process_key("backspace", false, false, true), KeyInputResult::TextChanged);
    assert_eq!(buffer.text(), "");
}

#[test]
fn process_key_shift_keeps_symbols() {
    let mut buffer = TextBuffer::new();
    buffer.process_key("1", true, false, false);
    buffer.process_key("?", true, false, false);
    buffer.process_key("z", true, false, false);
    assert_eq!(buffer.text(), "1?Z");
}

#[test]
fn set_text_moves_cursor_to_end() {
    let mut buffer = TextBuffer::new();
    buffer.set_text("caf\u{e9}");
    assert_eq!(buffer.cursor, 5);
    buffer.move_left();
    assert_eq!(buffer.cursor, 3);
    buffer.insert_str("xy");
    assert_eq!(buffer.text(), "cafxy\u{e9}");
    assert_eq!(buffer.cursor, 5);
}

#[test]
fn cursor_counts_bytes_of_multibyte_characters() {
    let mut buffer = TextBuffer::new();
    buffer.insert_char('\u{e9}');
    assert_eq!(buffer.cursor, 2);
    buffer.insert_str("\u{e9}a");
    assert_eq!(buffer.cursor, 5);
    assert_eq!(buffer.text(), "\u{e9}\u{e9}a");
    buffer.move_left();
    assert_eq!(buffer.cursor, 4);
    buffer.move_left();
    assert_eq!(buffer.cursor, 2);
    buffer.move_right();
    assert_eq!(buffer.cursor, 4);
}

#[test]
fn backspace_and_delete_remove_whole_multibyte_characters() {
    let mut buffer = TextBuffer::with_text("\u{e9}a");
    assert_eq!(buffer.cursor, 3);
    buffer.move_left();
    assert_eq!(buffer.cursor, 2);
    assert!(buffer.backspace());
    assert_eq!(buffer.text(), "a");
    assert_eq!(buffer.cursor, 0);

    let mut buffer = TextBuffer::with_text("\u{e9}ab");
    buffer.cursor = 2;
    assert!(buffer.delete());
    assert_eq!(buffer.text(), "\u{e9}b");
    assert_eq!(buffer.cursor, 2);

    let mut buffer = TextBuffer::with_text("a\u{e9}");
    buffer.cursor = 1;
    buffer.move_right();
    assert_eq!(buffer.cursor, 3);
    assert!(!buffer.delete());
}

#[test]
fn word_deletion_counts_bytes() {
    let mut buffer = TextBuffer::with_text("na\u{ef}ve caf\u{e9}");
    buffer.delete_word_backward();
    assert_eq!(buffer.text(), "na\u{ef}ve ");
    assert_eq!(buffer.cursor, 7);
    assert_eq!(buffer.process_key("x", true, false, false), KeyInputResult::TextChanged);
    assert_eq!(buffer.text(), "na\u{ef}ve X");
    assert_eq!(buffer.cursor, 8);
}
