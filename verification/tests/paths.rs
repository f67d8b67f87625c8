use tola::path::SitePath;

fn p(s: &str) -> SitePath {
    SitePath::parse(s)
}

fn parts(path: &SitePath) -> Vec<String> {
    let mut v = Vec::new();
    for i in 0..path.len() {
        v.push(path.part(i).clone());
    }
    v
}

#[test]
fn parse_absolute_path() {
    let path = p("/home/user/site/content/a.typ");
    assert!(path.is_absolute());
    assert_eq!(parts(&path), vec!["home", "user", "site", "content", "a.typ"]);
}

#[test]
fn parse_normalizes_like_components() {
    let path = p("./x//y/./z/");
    assert!(!path.is_absolute());
    assert_eq!(parts(&path), vec![".", "x", "y", "z"]);
    assert_eq!(path.to_text(), "./x/y/z");
    let up = p("a/../b");
    assert_eq!(parts(&up), vec!["a", "..", "b"]);
    let dotfile = p(".hidden/x");
    assert_eq!(parts(&dotfile), vec![".hidden", "x"]);
}

#[test]
fn parse_empty_and_root() {
    let empty = p("");
    assert!(!empty.is_absolute());
    assert_eq!(empty.len(), 0);
    assert_eq!(empty.to_text(), "");
    let root = p("///");
    assert!(root.is_absolute());
    assert_eq!(root.len(), 0);
    assert_eq!(root.to_text(), "/");
    assert_eq!(SitePath::empty().len(), 0);
}

#[test]
fn text_reads_back() {
    for s in ["/a/b/c", "rel/x.typ", "./here", ".", "/", "", "../up"] {
        let path = p(s);
        let again = p(&path.to_text());
        assert_eq!(parts(&again), parts(&path));
        assert_eq!(again.is_absolute(), path.is_absolute());
    }
}

#[test]
fn from_parts_checks_components() {
    let ok = SitePath::from_parts(true, vec!["a".to_string(), "..".to_string()]).unwrap();
    assert_eq!(ok.to_text(), "/a/..");
    assert!(SitePath::from_parts(false, vec![".".to_string(), "b".to_string()]).is_some());
    assert!(SitePath::from_parts(true, vec![".".to_string()]).is_none());
    assert!(SitePath::from_parts(false, vec!["a".to_string(), ".".to_string()]).is_none());
    assert!(SitePath::from_parts(false, vec!["a/b".to_string()]).is_none());
    assert!(SitePath::from_parts(false, vec!["".to_string()]).is_none());
}

#[test]
fn join_paths() {
    assert_eq!(p("/site").join(&p("public")).to_text(), "/site/public");
    assert_eq!(p("/site").join(&p("/elsewhere")).to_text(), "/elsewhere");
    assert_eq!(p("/site").join(&p("./public")).to_text(), "/site/public");
    assert_eq!(p("").join(&p("./public")).to_text(), "./public");
    assert_eq!(p("a").join(&p("")).to_text(), "a");
}

#[test]
fn strip_prefix_and_starts_with() {
    let full = p("/site/content/posts/a.typ");
    let rest = full.strip_prefix(&p("/site/content")).unwrap();
    assert!(!rest.is_absolute());
    assert_eq!(rest.to_text(), "posts/a.typ");
    assert!(full.strip_prefix(&p("/site/cont")).is_none());
    assert!(full.strip_prefix(&p("site/content")).is_none());
    assert!(full.starts_with(&p("/site")));
    assert!(!p("assets/x").starts_with(&p("./assets")));
    let base = p("/site");
    let joined = base.join(&p("a/b"));
    assert_eq!(joined.strip_prefix(&base).unwrap().to_text(), "a/b");
}

#[test]
fn file_name_extension_parent() {
    assert_eq!(p("/a/post.typ").file_name().unwrap(), "post.typ");
    assert_eq!(p("/a/post.typ").extension().unwrap(), "typ");
    assert_eq!(p("a.tar.gz").extension().unwrap(), "gz");
    assert_eq!(p("trailing.").extension().unwrap(), "");
    assert!(p(".bashrc").extension().is_none());
    assert_eq!(p("..typ").extension().unwrap(), "typ");
    assert!(p("noext").extension().is_none());
    assert!(p("a/..").file_name().is_none());
    assert!(p("/").file_name().is_none());
    assert_eq!(p("/a/b").parent().unwrap().to_text(), "/a");
    assert_eq!(p("/a").parent().unwrap().to_text(), "/");
    assert!(p("/").parent().is_none());
    assert!(p("").parent().is_none());
    assert_eq!(p("a").parent().unwrap().to_text(), "");
}

#[test]
fn duplicate_keeps_path() {
    let a = p("/x/y");
    assert_eq!(a.duplicate().to_text(), "/x/y");
}
