use tola::text::{chars_of, strip_suffix, trim_end_char, trim_start_char};

#[test]
fn suffix_is_stripped() {
    assert_eq!(strip_suffix("posts/a.typ", ".typ").unwrap(), "posts/a");
    assert_eq!(strip_suffix(".typ", ".typ").unwrap(), "");
    assert!(strip_suffix("posts/a.md", ".typ").is_none());
    assert!(strip_suffix("yp", ".typ").is_none());
}

#[test]
fn trims_characters() {
    assert_eq!(trim_start_char("///posts/a", '/'), "posts/a");
    assert_eq!(trim_start_char("posts", '/'), "posts");
    assert_eq!(trim_end_char("/posts///", '/'), "/posts");
    assert_eq!(trim_end_char("///", '/'), "");
    assert_eq!(chars_of("héllo"), vec!['h', 'é', 'l', 'l', 'o']);
}
