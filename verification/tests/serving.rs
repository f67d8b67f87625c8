use tola::log::{log_prefix, log_style, LogStyle};
use tola::path::SitePath;
use tola::server::{
    directory_listing, handle_404, index_path, local_path, plan_request, plan_response, ResponsePlan,
};
use tola::watcher::{handle_files, should_process_event, Debouncer, EventKind, DEBOUNCE_NANOS};
use tola::cli::Cli;
use tola::utils::WatchedFile;

fn p(s: &str) -> SitePath {
    SitePath::parse(s)
}

#[test]
fn request_names_place_under_output() {
    let base = p("/site/public");
    assert_eq!(local_path(&base, "/posts/a").to_text(), "/site/public/posts/a");
    assert_eq!(local_path(&base, "///posts//b/").to_text(), "/site/public/posts/b");
    assert_eq!(local_path(&base, "/").to_text(), "/site/public");
    assert_eq!(index_path(&p("/site/public/posts")).to_text(), "/site/public/posts/index.html");
}

#[test]
fn response_plans() {
    let local = p("/site/public/posts");
    match plan_response(&local, true, false, false) {
        ResponsePlan::Page(x) => assert_eq!(x.to_text(), "/site/public/posts"),
        _ => panic!("expected a page"),
    }
    match plan_response(&local, false, true, true) {
        ResponsePlan::Page(x) => assert_eq!(x.to_text(), "/site/public/posts/index.html"),
        _ => panic!("expected the index"),
    }
    assert!(matches!(plan_response(&local, false, true, false), ResponsePlan::Listing));
    assert!(matches!(plan_response(&local, false, false, true), ResponsePlan::NotFound));
}

#[test]
fn listing_page() {
    let names = vec!["a".to_string(), "b.html".to_string()];
    assert_eq!(
        directory_listing("/posts/", &names),
        "<html><body><h1>Directory: /posts/</h1><ul><li><a href='/posts/a'>a</a></li><li><a href='/posts/b.html'>b.html</a></li></ul></body></html>"
    );
    assert_eq!(
        directory_listing("/", &Vec::new()),
        "<html><body><h1>Directory: /</h1><ul></ul></body></html>"
    );
}

#[test]
fn not_found_answer() {
    assert_eq!(handle_404(), (404, "404 Not Found"));
}

#[test]
fn log_styles() {
    assert_eq!(log_style("server"), LogStyle::Server);
    assert_eq!(log_style("Server"), LogStyle::Server);
    assert_eq!(log_style("WATCHER"), LogStyle::Watcher);
    assert_eq!(log_style("error"), LogStyle::Error);
    assert_eq!(log_style("builder"), LogStyle::Other);
    assert_eq!(log_style("servers"), LogStyle::Other);
    assert!(LogStyle::Error.is_important());
    assert!(!LogStyle::Other.is_important());
    assert_eq!(LogStyle::Server.terminator(), "\n");
    assert_eq!(LogStyle::Other.terminator(), "\r");
    assert_eq!(log_prefix("assets"), "[assets]");
}

#[test]
fn event_kinds() {
    assert!(should_process_event(EventKind::Create));
    assert!(should_process_event(EventKind::Modify));
    assert!(!should_process_event(EventKind::Remove));
    assert!(!should_process_event(EventKind::Access));
    assert!(!should_process_event(EventKind::Any));
    assert!(!should_process_event(EventKind::Other));
}

#[test]
fn debounce_drops_close_events() {
    let mut d = Debouncer::new(0);
    assert!(!d.accept(EventKind::Modify, 10));
    assert!(!d.accept(EventKind::Modify, DEBOUNCE_NANOS));
    assert!(d.accept(EventKind::Modify, DEBOUNCE_NANOS + 1));
    assert_eq!(d.last_event, DEBOUNCE_NANOS + 1);
    assert!(!d.accept(EventKind::Create, DEBOUNCE_NANOS + 2));
    assert!(!d.accept(EventKind::Remove, 10 * DEBOUNCE_NANOS));
    assert!(d.accept(EventKind::Create, 10 * DEBOUNCE_NANOS));
    assert!(!d.accept(EventKind::Create, 5));
}

#[test]
fn handle_files_sorts_changes() {
    let c = Cli { output_dir: p("public"), content_dir: p("content"), assets_dir: p("assets"), command: None };
    let files = vec![
        WatchedFile { path: p("/site/content/a.typ"), is_file: true },
        WatchedFile { path: p("/site/assets/img/x.png"), is_file: true },
    ];
    let plan = handle_files(&files, &p("/site"), &c);
    assert_eq!(plan.posts.len(), 1);
    assert_eq!(plan.posts[0].to_text(), "/site/content/a.typ");
    assert_eq!(plan.assets.len(), 1);
    assert_eq!(plan.assets[0].to_text(), "/site/assets/img/x.png");
}

#[test]
fn trailing_slash_names_only_directories() {
    let base = p("/site/public");
    let local = local_path(&base, "/a.html/");
    assert_eq!(local.to_text(), "/site/public/a.html");
    // `a.html` is a file: with the slash it is not found, without it it is served.
    assert!(matches!(plan_request(&local, "/a.html/", true, false, false), ResponsePlan::NotFound));
    assert!(matches!(plan_request(&local, "/a.html/.", true, false, false), ResponsePlan::NotFound));
    match plan_request(&local, "/a.html", true, false, false) {
        ResponsePlan::Page(x) => assert_eq!(x.to_text(), "/site/public/a.html"),
        _ => panic!("expected a page"),
    }
    // A directory answers the same with or without the slash.
    let dir = local_path(&base, "/posts/");
    match plan_request(&dir, "/posts/", false, true, true) {
        ResponsePlan::Page(x) => assert_eq!(x.to_text(), "/site/public/posts/index.html"),
        _ => panic!("expected the index"),
    }
    assert!(matches!(plan_request(&dir, "/posts/", false, true, false), ResponsePlan::Listing));
    assert!(matches!(plan_request(&base, "/", false, true, false), ResponsePlan::Listing));
    // A name merely ending in a dot is still a file.
    match plan_request(&local_path(&base, "/v1."), "/v1.", true, false, false) {
        ResponsePlan::Page(x) => assert_eq!(x.to_text(), "/site/public/v1."),
        _ => panic!("expected a page"),
    }
}
