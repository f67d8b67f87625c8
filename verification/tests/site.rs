use tola::cli::{Cli, Commands};
use tola::path::SitePath;
use tola::utils::watcher::{Stability, STABILITY_RETRIES};
use tola::utils::{
    entry_action, minify_page, plan_asset, plan_post, process_watched_files, typst_compile_args,
    EntryAction, FileFilter, SiteError, WatchedFile,
};

fn p(s: &str) -> SitePath {
    SitePath::parse(s)
}

fn cli(command: Option<Commands>) -> Cli {
    Cli {
        output_dir: p("public"),
        content_dir: p("content"),
        assets_dir: p("assets"),
        command,
    }
}

#[test]
fn post_maps_to_its_route() {
    let plan = plan_post(&p("/site/content/posts/examples/aaa.typ"), &p("/site"), &cli(None)).unwrap();
    assert_eq!(plan.output_dir.to_text(), "/site/public/posts/examples/aaa");
    assert_eq!(plan.html_path.to_text(), "/site/public/posts/examples/aaa/index.html");
}

#[test]
fn home_maps_to_index() {
    let plan = plan_post(&p("/site/content/home.typ"), &p("/site"), &cli(None)).unwrap();
    assert_eq!(plan.html_path.to_text(), "/site/public/index.html");
    assert_eq!(plan.output_dir.to_text(), "/site/public/home");
    let nested = plan_post(&p("/site/content/posts/home.typ"), &p("/site"), &cli(None)).unwrap();
    assert_eq!(nested.html_path.to_text(), "/site/public/posts/home/index.html");
    assert_eq!(nested.output_dir.to_text(), "/site/public/posts/home");
}

#[test]
fn post_with_odd_names() {
    let c = cli(None);
    let bare = plan_post(&p("/site/content/a/.typ"), &p("/site"), &c).unwrap();
    assert_eq!(bare.html_path.to_text(), "/site/public/a/index.html");
    let same = plan_post(&p("/site/content/a.typ"), &p("/site"), &c).unwrap();
    assert_eq!(same.html_path.to_text(), "/site/public/a/index.html");
    let dot = plan_post(&p("/site/content/..typ"), &p("/site"), &c).unwrap();
    assert_eq!(dot.html_path.to_text(), "/site/public/index.html");
}

#[test]
fn post_errors() {
    let c = cli(None);
    assert_eq!(
        plan_post(&p("/other/content/a.typ"), &p("/site"), &c).err().unwrap(),
        SiteError::OutsideDirectory
    );
    assert_eq!(
        plan_post(&p("/site/content/a.md"), &p("/site"), &c).err().unwrap(),
        SiteError::NotTypst
    );
    assert_eq!(
        plan_post(&p("/site/content"), &p("/site"), &c).err().unwrap(),
        SiteError::NotTypst
    );
}

#[test]
fn custom_directories() {
    let c = Cli {
        output_dir: p("/tmp/out"),
        content_dir: p("./src"),
        assets_dir: p("static"),
        command: None,
    };
    let plan = plan_post(&p("/w/src/x.typ"), &p("/w"), &c).unwrap();
    assert_eq!(plan.html_path.to_text(), "/tmp/out/x/index.html");
}

#[test]
fn typst_arguments() {
    let args = typst_compile_args(&p("/site"), &p("/site/content/a.typ"), &p("/site/public/a/index.html"));
    assert_eq!(
        args,
        vec![
            "compile", "--features", "html", "--format", "html", "--font-path", "/site", "--root",
            "/site", "/site/content/a.typ", "/site/public/a/index.html"
        ]
    );
}

#[test]
fn minify_shrinks_page() {
    assert_eq!(minify_page("<p>  Hello, world!  </p>"), "<p>Hello, world!");
}

#[test]
fn cli_switches() {
    let built = cli(Some(Commands::Built { minify: true }));
    assert!(built.minify_requested());
    assert!(built.watch_requested());
    assert!(built.serve_endpoint().is_none());
    assert!(!cli(Some(Commands::Built { minify: false })).minify_requested());
    assert!(!cli(None).minify_requested());
    assert!(cli(None).watch_requested());
    let serve = cli(Some(Commands::Serve { interface: "127.0.0.1".to_string(), port: 8282, watch: false }));
    assert!(!serve.watch_requested());
    assert!(!serve.minify_requested());
    assert_eq!(serve.serve_endpoint(), Some(("127.0.0.1".to_string(), 8282)));
}

#[test]
fn asset_keeps_place() {
    let plan = plan_asset(&p("/site/assets/images/logo.png"), &p("/site"), &cli(None)).unwrap();
    assert_eq!(plan.output_path.to_text(), "/site/public/assets/images/logo.png");
    assert_eq!(plan.parent.unwrap().to_text(), "/site/public/assets/images");
    assert_eq!(
        plan_asset(&p("/site/content/a.typ"), &p("/site"), &cli(None)).err().unwrap(),
        SiteError::OutsideDirectory
    );
}

#[test]
fn walk_decisions() {
    assert_eq!(entry_action(&p("/s/content/posts"), true, false, FileFilter::Posts), EntryAction::Descend);
    assert_eq!(entry_action(&p("/s/content/a.typ"), false, true, FileFilter::Posts), EntryAction::Process);
    assert_eq!(entry_action(&p("/s/content/a.md"), false, true, FileFilter::Posts), EntryAction::Skip);
    assert_eq!(entry_action(&p("/s/assets/a.css"), false, true, FileFilter::Everything), EntryAction::Process);
    assert_eq!(entry_action(&p("/s/assets/CNAME"), false, true, FileFilter::Everything), EntryAction::Skip);
    assert_eq!(entry_action(&p("/s/assets/link.css"), false, false, FileFilter::Everything), EntryAction::Skip);
}

#[test]
fn watched_files_are_sorted() {
    let files = vec![
        WatchedFile { path: p("/site/content/a.typ"), is_file: true },
        WatchedFile { path: p("/site/assets/s.css"), is_file: true },
        WatchedFile { path: p("/site/assets/t.typ"), is_file: true },
        WatchedFile { path: p("/site/content/gone.typ"), is_file: false },
        WatchedFile { path: p("/site/content/b.md"), is_file: true },
    ];
    let plan = process_watched_files(&files, &p("/site"), &cli(None));
    let posts: Vec<String> = plan.posts.iter().map(|x| x.to_text()).collect();
    let assets: Vec<String> = plan.assets.iter().map(|x| x.to_text()).collect();
    assert_eq!(posts, vec!["/site/content/a.typ", "/site/assets/t.typ"]);
    assert_eq!(assets, vec!["/site/assets/s.css", "/site/assets/t.typ"]);
}

#[test]
fn file_settles_on_repeat() {
    let mut s = Stability::new(10, STABILITY_RETRIES);
    assert!(s.should_poll());
    assert!(!s.observe(20));
    assert!(!s.observe(30));
    assert!(s.observe(30));
    assert_eq!(s.retries, 2);
}

#[test]
fn file_given_up_after_retries() {
    let mut s = Stability::new(0, STABILITY_RETRIES);
    let mut polls = 0;
    let mut size = 0;
    let mut settled = false;
    while s.should_poll() {
        size += 1;
        polls += 1;
        if s.observe(size) {
            settled = true;
            break;
        }
    }
    assert!(!settled);
    assert_eq!(polls, 5);
}

#[test]
fn distinct_posts_get_distinct_pages() {
    let c = cli(None);
    let cwd = p("/site");
    let names = [
        "/site/content/a.typ",
        "/site/content/a/b.typ",
        "/site/content/b/a.typ",
        "/site/content/index.typ",
        "/site/content/home.typ",
        "/site/content/posts/home.typ",
    ];
    let pages: Vec<String> = names
        .iter()
        .map(|n| plan_post(&p(n), &cwd, &c).unwrap().html_path.to_text())
        .collect();
    for i in 0..pages.len() {
        for j in 0..i {
            assert_ne!(pages[i], pages[j]);
        }
    }
}

#[test]
fn sorted_changes_can_be_rebuilt() {
    let c = cli(None);
    let cwd = p("/site");
    let files = vec![
        WatchedFile { path: p("/site/content/posts/x.typ"), is_file: true },
        WatchedFile { path: p("/site/assets/fonts/f.woff2"), is_file: true },
        WatchedFile { path: p("/site/assets/t.typ"), is_file: true },
    ];
    let plan = process_watched_files(&files, &cwd, &c);
    for asset in &plan.assets {
        assert!(plan_asset(asset, &cwd, &c).is_ok());
    }
    assert!(plan_post(&plan.posts[0], &cwd, &c).is_ok());
    assert_eq!(plan_post(&plan.posts[1], &cwd, &c).err().unwrap(), SiteError::OutsideDirectory);
}
