use leva::gmail_api::client::strip_html_tags;

#[test]
fn strip_html_tags_basic() {
    let out = strip_html_tags("<p>Hello</p>\n\n\n<b>World</b>  \n");
    assert_eq!(out, "Hello\n\nWorld\n");
}
