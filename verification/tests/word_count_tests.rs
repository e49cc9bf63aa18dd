use print_rpc::word_count::count_text;

#[test]
fn counts_plain_words() {
    assert_eq!(count_text("hello world".to_string()), 2);
}

#[test]
fn empty_text_has_no_words() {
    assert_eq!(count_text(String::new()), 0);
    assert_eq!(count_text("   \n\t\n".to_string()), 0);
}

#[test]
fn blank_lines_are_skipped() {
    assert_eq!(count_text("one\n\ntwo three\n".to_string()), 3);
}

#[test]
fn runs_of_spaces_collapse() {
    assert_eq!(count_text("  spaced   out  ".to_string()), 2);
}

#[test]
fn markdown_links_count_their_label_only() {
    assert_eq!(
        count_text("see [docs](http://example.com) now".to_string()),
        3
    );
}

#[test]
fn unicode_words_are_segmented() {
    assert_eq!(count_text("c'est l'heure".to_string()), 2);
    assert_eq!(count_text("one, two; three.".to_string()), 3);
}
