use semdesk::reply::{reply_line, sanitize_field};

#[test]
fn answer_text_is_cleaned() {
    assert_eq!(sanitize_field("a|b\nc\rd"), "a b c d");
    assert_eq!(sanitize_field("Paris"), "Paris");
    assert_eq!(sanitize_field(""), "");
}

#[test]
fn reply_line_has_four_fields() {
    let line = reply_line("id", "/tmp/a.txt", "Paris|is\ncapital", "0.93");
    assert_eq!(line, "id|/tmp/a.txt|Paris is capital|0.93\n");
    assert_eq!(line.matches('|').count(), 3);
    assert!(!line.trim_end_matches('\n').contains('\n'));
    assert!(!line.contains('\r'));
}


#[test]
fn odd_file_names_keep_the_line_shape() {
    let line = reply_line("i|d", "/tmp/a|b\nc\r.txt", "x", "0.5\n");
    assert_eq!(line, "i d|/tmp/a b c .txt|x|0.5 \n");
    assert_eq!(line.matches('|').count(), 3);
    assert_eq!(line.matches('\n').count(), 1);
}
