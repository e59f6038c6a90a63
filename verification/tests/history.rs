use nts_radio::history::{history_entry, initial_scroll, line_count, HISTORY_FILE_PATH};

#[test]
fn lines_are_counted_as_std_counts_them() {
    for text in ["", "a", "a\n", "a\nb", "a\nb\n", "\n", "\n\n", "a\r\nb", "a\rb", "\n\na", "é\nü\n", "日本\n語"] {
        assert_eq!(line_count(text), text.lines().count(), "{:?}", text);
    }
}

#[test]
fn exact_line_counts() {
    assert_eq!(line_count(""), 0);
    assert_eq!(line_count("one"), 1);
    assert_eq!(line_count("one\n"), 1);
    assert_eq!(line_count("one\ntwo"), 2);
    assert_eq!(line_count("\n\n\n"), 3);
}

#[test]
fn scroll_starts_five_lines_from_the_end() {
    assert_eq!(initial_scroll(""), 0);
    assert_eq!(initial_scroll("a\nb\nc\n"), 0);
    assert_eq!(initial_scroll("1\n2\n3\n4\n5\n"), 0);
    assert_eq!(initial_scroll("1\n2\n3\n4\n5\n6\n"), 1);
    assert_eq!(initial_scroll("1\n2\n3\n4\n5\n6\n7\n8\n9\n10"), 5);
}

#[test]
fn entry_is_the_song_and_a_line_feed() {
    assert_eq!(history_entry("Windowlicker - Aphex Twin"), "Windowlicker - Aphex Twin\n");
    assert_eq!(history_entry(""), "\n");
}

#[test]
fn history_file_is_named() {
    assert_eq!(HISTORY_FILE_PATH, "./nts_cli_song_history.txt");
}
