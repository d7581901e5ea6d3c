use mirage::html::directory_page;
use mirage::path_seg::encode_path_segment;

#[test]
fn page_escapes_text() {
    let page = directory_page(
        "A & <B>",
        &[("x\"y/".to_string(), "<script>".to_string())],
    );
    assert_eq!(
        page,
        "<!DOCTYPE html><html><head><meta charset=\"utf-8\"><title>A &amp; &lt;B&gt;</title></head><body><h1>A &amp; &lt;B&gt;</h1><ul><li><a href=\"x\"y/\">&lt;script&gt;</a></li></ul></body></html>"
    );
    assert!(!page.contains("<script>"));
}

#[test]
fn empty_page() {
    assert_eq!(
        directory_page("T", &[]),
        "<!DOCTYPE html><html><head><meta charset=\"utf-8\"><title>T</title></head><body><h1>T</h1><ul></ul></body></html>"
    );
}

#[test]
fn path_segments() {
    assert_eq!(encode_path_segment("Season 01"), "Season%2001");
    assert_eq!(encode_path_segment("a/b"), "a%2Fb");
    assert_eq!(encode_path_segment("é"), "%C3%A9");
    assert_eq!(encode_path_segment("AZaz09"), "AZaz09");
    assert!(!encode_path_segment("x/y/z").contains('/'));
}
