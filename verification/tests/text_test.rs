use weggli_enhance::text::{byte_to_column, byte_to_line, str_equal, terminal_line};

#[test]
fn line_and_column_at_start() {
    assert_eq!(byte_to_line("ab\ncd\nef", 0), 0);
    assert_eq!(byte_to_column("ab\ncd\nef", 0), 1);
}

#[test]
fn line_and_column_on_second_line() {
    // offset 4 is 'd'; the newline before it is at 2
    assert_eq!(byte_to_line("ab\ncd\nef", 4), 1);
    assert_eq!(byte_to_column("ab\ncd\nef", 4), 2);
}

#[test]
fn line_and_column_right_after_newline() {
    assert_eq!(byte_to_line("ab\ncd", 3), 1);
    assert_eq!(byte_to_column("ab\ncd", 3), 1);
}

#[test]
fn offsets_past_the_end_are_clamped() {
    assert_eq!(byte_to_line("ab\ncd\nef", 100), 2);
    assert_eq!(byte_to_column("ab\ncd\nef", 100), 3);
    assert_eq!(byte_to_line("", 7), 0);
    assert_eq!(byte_to_column("", 7), 1);
}

#[test]
fn offsets_count_bytes_of_multibyte_text() {
    // 'é' takes two bytes, so 'x' starts at byte 3 on the second line
    let s = "é\nx";
    assert_eq!(byte_to_line(s, 3), 1);
    assert_eq!(byte_to_column(s, 3), 1);
    assert_eq!(byte_to_column(s, 2), 3);
}

#[test]
fn terminal_lines_are_one_based() {
    assert_eq!(terminal_line("int a;\nint b;\n", 0), 1);
    assert_eq!(terminal_line("int a;\nint b;\n", 7), 2);
    assert_eq!(terminal_line("int a;\nint b;\n", 14), 3);
}

#[test]
fn string_equality() {
    assert!(str_equal("$x", "$x"));
    assert!(!str_equal("$x", "$y"));
    assert!(!str_equal("$x", "$xy"));
    assert!(str_equal("", ""));
}

#[test]
fn lines_never_decrease_with_the_offset() {
    let s = "a\n\nbc\nd";
    let mut last = 0;
    for off in 0..12 {
        let l = byte_to_line(s, off);
        assert!(l >= last);
        last = l;
    }
}

#[test]
fn different_offsets_have_different_positions() {
    let s = "ab\n\ncd\n";
    let mut seen = Vec::new();
    for off in 0..=s.len() {
        let pos = (byte_to_line(s, off), byte_to_column(s, off));
        assert!(!seen.contains(&pos));
        seen.push(pos);
    }
}
