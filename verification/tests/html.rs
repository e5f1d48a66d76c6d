use clawhive::html::strip_html_tags;

#[test]
fn tags_are_dropped_and_whitespace_collapsed() {
    assert_eq!(strip_html_tags("<p>Hello   <b>world</b></p>"), "Hello world");
    assert_eq!(strip_html_tags("a\n\n\t b"), "a b");
    assert_eq!(strip_html_tags(""), "");
}

#[test]
fn a_tag_without_end_swallows_the_rest() {
    assert_eq!(strip_html_tags("keep<unfinished tag"), "keep");
}

#[test]
fn an_unclosed_script_keeps_only_the_first_char() {
    assert_eq!(strip_html_tags("<script>var a</p>b"), "v");
    assert_eq!(strip_html_tags("<SCRIPT>xy"), "x");
    assert_eq!(strip_html_tags("<script>x</script>tail"), "xtail");
}
