//! Where the sources of a site go, and how they get there.
//!
//! A post `content/<dir>/<name>.typ` is compiled by `typst` into
//! `public/<dir>/<name>/index.html` (and `content/home.typ` into
//! `public/index.html`); an asset `assets/<rel>` is copied to
//! `public/assets/<rel>`.  The functions here compute those places, the
//! compiler's arguments and the minified page; the caller touches the disk.

pub mod watcher;

use vstd::prelude::*;
use vstd::string::*;
use vstd::utf8::*;

use crate::cli::Cli;
use crate::path::{
    add_segment, all_valid, keep_segment, last_dot, lemma_last_dot, name_extension, dot, join_parts, lemma_join_parts_suffix, lemma_join_wf,
    lemma_parse_stem, lemma_parse_text, parse_path, valid_part, PathView, SitePath,
};
use crate::text::{ends_with, strip_suffix};

verus! {

/// Why a source file cannot be handled.
#[derive(PartialEq, Eq, Structural, Debug, Clone, Copy)]
pub enum SiteError {
    /// The file does not lie under the directory it was expected in.
    OutsideDirectory,
    /// The path of a post does not end with `.typ`.
    NotTypst,
}

/// The home page's source: `home.typ` directly in the content directory.
pub open spec fn is_home_post(rel: Seq<Seq<char>>) -> bool {
    rel == seq!["home.typ"@]
}

/// The components of `index.html`.
pub open spec fn index_html() -> PathView {
    parse_path("index.html"@)
}

/// The places a post compiles to: the directory made for it and its page.
pub open spec fn post_plan(path: PathView, cwd: PathView, cli: Cli) -> Result<
    (PathView, PathView),
    SiteError,
> {
    let content = cwd.join(cli.content_dir@);
    let output = cwd.join(cli.output_dir@);
    match path.strip_prefix(content) {
        None => Err(SiteError::OutsideDirectory),
        Some(rel) => {
            let text = rel.text();
            if !ends_with(text, ".typ"@) {
                Err(SiteError::NotTypst)
            } else {
                let out_dir = output.join(parse_path(text.take(text.len() - 4)));
                let html = if is_home_post(rel.parts) {
                    output.join(index_html())
                } else {
                    out_dir.join(index_html())
                };
                Ok((out_dir, html))
            }
        },
    }
}

/// `index.html` is a single component.
pub proof fn lemma_index_html()
    ensures
        index_html() == (PathView { root: false, parts: seq!["index.html"@] }),
{
    reveal_strlit("index.html");
    let v = PathView { root: false, parts: seq!["index.html"@] };
    assert(v.parts[0].len() > 0);
    assert(v.parts[0][0] == 'i');
    assert forall|k: int| 0 <= k < v.parts[0].len() implies v.parts[0][k] != '/' by {}
    assert(v.parts[0] != dot());
    assert(v.wf());
    lemma_parse_text(v);
    assert(v.text() =~= "index.html"@);
}

/// The route of a post: its directories, then its file name without `.typ`,
/// unless what is left of the name is empty or `.`.
pub open spec fn post_route(rel: Seq<Seq<char>>) -> Seq<Seq<char>> {
    add_segment(rel.drop_last(), rel.last().take(rel.last().len() - 4))
}

/// The page of a post, in components: `index.html` under the output
/// directory for `home.typ` at the top of the content directory, else
/// `index.html` in the post's route.
pub open spec fn post_page(output: PathView, rel: Seq<Seq<char>>) -> Seq<Seq<char>> {
    (if is_home_post(rel) {
        output.parts
    } else {
        output.parts + post_route(rel)
    }).push("index.html"@)
}

/// Where a post goes, stated on components: a post under the content
/// directory whose file name ends with `.typ` gets the directory
/// `output/<route>` and the page `output/<route>/index.html` (for
/// `content/home.typ` itself, `output/index.html`); a file elsewhere is
/// `OutsideDirectory`, any other file `NotTypst`.
pub open spec fn post_destination(path: PathView, cwd: PathView, cli: Cli) -> Result<
    (PathView, PathView),
    SiteError,
> {
    let content = cwd.join(cli.content_dir@);
    let output = cwd.join(cli.output_dir@);
    match path.strip_prefix(content) {
        None => Err(SiteError::OutsideDirectory),
        Some(rel) => if rel.parts.len() > 0 && ends_with(rel.parts.last(), ".typ"@) {
            Ok(
                (
                    PathView { root: true, parts: output.parts + post_route(rel.parts) },
                    PathView { root: true, parts: post_page(output, rel.parts) },
                ),
            )
        } else {
            Err(SiteError::NotTypst)
        },
    }
}

/// Posts map to routes.  With an absolute working directory, compiling a post
/// sends it where `post_destination` says.
pub proof fn lemma_post_route(path: PathView, cwd: PathView, cli: Cli)
    requires
        path.wf(),
        cwd.wf(),
        cwd.root,
        cli.content_dir@.wf(),
        cli.output_dir@.wf(),
    ensures
        post_plan(path, cwd, cli) == post_destination(path, cwd, cli),
{
    let content = cwd.join(cli.content_dir@);
    let output = cwd.join(cli.output_dir@);
    lemma_join_wf(cwd, cli.content_dir@);
    lemma_join_wf(cwd, cli.output_dir@);
    assert(content.root && output.root);
    reveal_strlit(".typ");
    let sfx = ".typ"@;
    assert(sfx.len() == 4);
    assert(!sfx.contains('/')) by {
        assert forall|k: int| 0 <= k < sfx.len() implies sfx[k] != '/' by {}
    }
    match path.strip_prefix(content) {
        None => {},
        Some(rel) => {
            let ps = rel.parts;
            assert(path.root);
            assert(all_valid(ps)) by {
                assert forall|i: int| 0 <= i < ps.len() implies valid_part(#[trigger] ps[i]) by {
                    assert(ps[i] == path.parts[i + content.parts.len()]);
                }
            }
            assert(rel.text() =~= join_parts(ps));
            lemma_join_parts_suffix(ps, sfx);
            if ps.len() > 0 && ends_with(ps.last(), sfx) {
                let l = ps.last();
                let stem = l.take(l.len() - 4);
                let dirs = ps.drop_last();
                assert(all_valid(dirs)) by {
                    assert forall|i: int| 0 <= i < dirs.len() implies valid_part(#[trigger] dirs[i]) by {
                        assert(dirs[i] == ps[i]);
                    }
                }
                assert(!stem.contains('/')) by {
                    assert(valid_part(ps[ps.len() - 1]));
                    assert forall|k: int| 0 <= k < stem.len() implies stem[k] != '/' by {
                        assert(stem[k] == l[k]);
                        assert(l.contains(l[k]) || l[k] != '/');
                    }
                }
                let text = rel.text();
                let x = text.take(text.len() - 4);
                assert(x == (if dirs.len() == 0 {
                    stem
                } else {
                    join_parts(dirs) + seq!['/'] + stem
                }));
                lemma_parse_stem(dirs, stem);
                let parsed = parse_path(x);
                let out_dir = output.join(parsed);
                if dirs.len() == 0 && stem == dot() {
                    assert(parsed.parts.drop_first() =~= Seq::<Seq<char>>::empty());
                    assert(out_dir.parts =~= output.parts + post_route(ps));
                } else {
                    if parsed.parts.len() > 0 {
                        if dirs.len() > 0 {
                            assert(parsed.parts[0] == dirs[0]);
                        } else {
                            assert(parsed.parts[0] == stem);
                        }
                    }
                    assert(out_dir.parts =~= output.parts + post_route(ps));
                }
                lemma_index_html();
                let ix = index_html();
                assert(ix.parts[0] == "index.html"@);
                reveal_strlit("index.html");
                assert(ix.parts[0] != dot()) by {
                    assert(ix.parts[0][0] == 'i');
                }
                assert(out_dir.join(ix).parts =~= (output.parts + post_route(ps)).push(
                    "index.html"@,
                ));
                assert(output.join(ix).parts =~= output.parts.push("index.html"@));
                assert(out_dir.join(ix) =~= PathView {
                    root: true,
                    parts: (output.parts + post_route(ps)).push("index.html"@),
                });
                assert(output.join(ix) =~= PathView {
                    root: true,
                    parts: output.parts.push("index.html"@),
                });
                assert(out_dir =~= PathView { root: true, parts: output.parts + post_route(ps) });
            }
        },
    }
}

/// The file name of a post without its `.typ`.
pub open spec fn post_stem(path: PathView) -> Seq<char> {
    path.parts.last().take(path.parts.last().len() - 4)
}

/// Distinct posts get distinct pages.  Two different posts that both compile
/// (under an absolute working directory) write different pages, unless the
/// name of one of them without `.typ` is empty or `.` (`a/.typ` and `a.typ`
/// both write `a/index.html`).
pub proof fn lemma_post_pages_distinct(p1: PathView, p2: PathView, cwd: PathView, cli: Cli)
    requires
        p1.wf(),
        p2.wf(),
        cwd.wf(),
        cwd.root,
        cli.content_dir@.wf(),
        cli.output_dir@.wf(),
        p1 != p2,
        post_plan(p1, cwd, cli) is Ok,
        post_plan(p2, cwd, cli) is Ok,
        keep_segment(post_stem(p1)),
        keep_segment(post_stem(p2)),
    ensures
        post_plan(p1, cwd, cli)->Ok_0.1 != post_plan(p2, cwd, cli)->Ok_0.1,
{
    lemma_post_route(p1, cwd, cli);
    lemma_post_route(p2, cwd, cli);
    let content = cwd.join(cli.content_dir@);
    let output = cwd.join(cli.output_dir@);
    let r1 = p1.strip_prefix(content)->Some_0.parts;
    let r2 = p2.strip_prefix(content)->Some_0.parts;
    let k = content.parts.len();
    assert(r1.last() == p1.parts.last());
    assert(r2.last() == p2.parts.last());
    let h1 = post_plan(p1, cwd, cli)->Ok_0.1;
    let h2 = post_plan(p2, cwd, cli)->Ok_0.1;
    if h1 == h2 && (is_home_post(r1) || is_home_post(r2)) {
        let s1 = post_stem(p1);
        let s2 = post_stem(p2);
        assert(h1.parts.drop_last() =~= h2.parts.drop_last());
        if is_home_post(r1) && is_home_post(r2) {
            assert(p1.parts =~= p1.parts.take(k as int) + r1);
            assert(p2.parts =~= p2.parts.take(k as int) + r2);
            assert(p1 =~= p2);
        } else if is_home_post(r1) {
            assert(post_route(r2) == r2.drop_last().push(s2));
            assert(h1.parts.drop_last() =~= output.parts);
            assert(h2.parts.drop_last() =~= output.parts + post_route(r2));
            assert(false);
        } else {
            assert(post_route(r1) == r1.drop_last().push(s1));
            assert(h2.parts.drop_last() =~= output.parts);
            assert(h1.parts.drop_last() =~= output.parts + post_route(r1));
            assert(false);
        }
    } else if h1 == h2 {
        let s1 = post_stem(p1);
        let s2 = post_stem(p2);
        let a1 = output.parts + post_route(r1);
        let a2 = output.parts + post_route(r2);
        assert(h1.parts == a1.push("index.html"@));
        assert(a1 =~= h1.parts.drop_last());
        assert(a1 == a2);
        assert(post_route(r1) == r1.drop_last().push(s1));
        assert(post_route(r2) == r2.drop_last().push(s2));
        assert(a1.len() == a2.len());
        assert(r1.len() == r2.len());
        assert(post_route(r1) =~= a1.skip(output.parts.len() as int));
        assert(post_route(r2) =~= a2.skip(output.parts.len() as int));
        assert(s1 == post_route(r1).last());
        assert(s2 == post_route(r2).last());
        assert(r1.drop_last() =~= post_route(r1).drop_last());
        assert(r2.drop_last() =~= post_route(r2).drop_last());
        let l1 = r1.last();
        let l2 = r2.last();
        reveal_strlit(".typ");
        assert(ends_with(l1, ".typ"@) && ends_with(l2, ".typ"@));
        assert(l1.len() >= 4 && l2.len() >= 4);
        assert(l1 =~= s1 + l1.skip(l1.len() - 4));
        assert(l2 =~= s2 + l2.skip(l2.len() - 4));
        assert(l1 == l2);
        assert(r1 =~= r1.drop_last().push(l1));
        assert(r2 =~= r2.drop_last().push(l2));
        assert(r1 == r2);
        assert(p1.parts =~= p1.parts.take(k as int) + r1);
        assert(p2.parts =~= p2.parts.take(k as int) + r2);
        assert(p1 =~= p2);
    }
}

/// Where a post goes.
pub struct PostPlan {
    /// The directory created for the post.
    pub output_dir: SitePath,
    /// The page the compiler writes.
    pub html_path: SitePath,
}

/// Where the post at `path` (canonical) compiles to, when the working directory is `cwd`.
///
/// The path relative to the content directory loses its `.typ` and names a
/// directory under the output directory; the page is `index.html` in it, or
/// `index.html` at the top of the output directory for `home.typ` directly in
/// the content directory.
pub fn plan_post(path: &SitePath, cwd: &SitePath, cli: &Cli) -> (r: Result<PostPlan, SiteError>)
    ensures
        match r {
            Ok(plan) => post_plan(path@, cwd@, *cli) == Ok::<(PathView, PathView), SiteError>(
                (plan.output_dir@, plan.html_path@),
            ),
            Err(e) => post_plan(path@, cwd@, *cli) == Err::<(PathView, PathView), SiteError>(e),
        },
        cwd@.root ==> post_plan(path@, cwd@, *cli) == post_destination(path@, cwd@, *cli),
{
    proof {
        use_type_invariant(path);
        SitePath::lemma_well_formed(path);
        use_type_invariant(cwd);
        SitePath::lemma_well_formed(cwd);
        use_type_invariant(&cli.content_dir);
        SitePath::lemma_well_formed(&cli.content_dir);
        use_type_invariant(&cli.output_dir);
        SitePath::lemma_well_formed(&cli.output_dir);
        if cwd@.root {
            lemma_post_route(path@, cwd@, *cli);
        }
    }
    let content = cwd.join(&cli.content_dir);
    let output = cwd.join(&cli.output_dir);
    let rel = match path.strip_prefix(&content) {
        Some(rel) => rel,
        None => return Err(SiteError::OutsideDirectory),
    };
    let text = rel.to_text();
    let stem = match strip_suffix(text.as_str(), ".typ") {
        Some(stem) => stem,
        None => return Err(SiteError::NotTypst),
    };
    proof {
        reveal_strlit(".typ");
    }
    let output_dir = output.join(&SitePath::parse(stem.as_str()));
    let index = SitePath::parse("index.html");
    let is_home = rel.len() == 1 && *rel.part(0) == "home.typ".to_owned();
    proof {
        if rel@.parts.len() == 1 {
            assert(is_home == (rel@.parts =~= seq!["home.typ"@]));
        }
    }
    let html_path = if is_home {
        output.join(&index)
    } else {
        output_dir.join(&index)
    };
    Ok(PostPlan { output_dir, html_path })
}

/// The arguments given to `typst` to compile the post at `path` into `html`.
pub open spec fn typst_args(cwd: PathView, path: PathView, html: PathView) -> Seq<Seq<char>> {
    seq![
        "compile"@,
        "--features"@,
        "html"@,
        "--format"@,
        "html"@,
        "--font-path"@,
        cwd.text(),
        "--root"@,
        cwd.text(),
        path.text(),
        html.text(),
    ]
}

/// The arguments of `typst` that compile the post at `path` into the page `html`,
/// with fonts and the project root taken from `cwd`.
pub fn typst_compile_args(cwd: &SitePath, path: &SitePath, html: &SitePath) -> (args: Vec<String>)
    ensures
        args@.map_values(|a: String| a@) == typst_args(cwd@, path@, html@),
{
    let mut args: Vec<String> = Vec::new();
    args.push("compile".to_owned());
    args.push("--features".to_owned());
    args.push("html".to_owned());
    args.push("--format".to_owned());
    args.push("html".to_owned());
    args.push("--font-path".to_owned());
    args.push(cwd.to_text());
    args.push("--root".to_owned());
    args.push(cwd.to_text());
    args.push(path.to_text());
    args.push(html.to_text());
    proof {
        assert(args@.map_values(|a: String| a@) =~= typst_args(cwd@, path@, html@));
    }
    args
}

/// The page that `minify_html::minify` makes of `html` under its default configuration.
pub uninterp spec fn minified(html: Seq<u8>) -> Seq<u8>;

/// Calls `minify_html::minify` with `Cfg::new()`.  The contract claims only
/// that the result is a function of the input bytes, named `minified`; what
/// the minifier removes is not stated.
#[verifier::external_body]
fn minify_bytes(html: &[u8]) -> (out: Vec<u8>)
    ensures
        out@ == minified(html@),
{
    minify_html::minify(html, &minify_html::Cfg::new())
}

/// The text that `String::from_utf8_lossy` reads from `bytes`.
pub uninterp spec fn utf8_lossy(bytes: Seq<u8>) -> Seq<char>;

/// Calls `String::from_utf8_lossy` and takes the owned text.  The contract
/// claims that the result is a function of the bytes, named `utf8_lossy`, and
/// that valid UTF-8 is decoded as it stands; what replaces invalid sequences
/// (U+FFFD, by the documentation) is not stated.
#[verifier::external_body]
fn decode_lossy(bytes: &[u8]) -> (s: String)
    ensures
        s@ == utf8_lossy(bytes@),
        valid_utf8(bytes@) ==> s@ == decode_utf8(bytes@),
{
    String::from_utf8_lossy(bytes).into_owned()
}

/// The minified form of a generated page, read back as text.
pub fn minify_page(html: &str) -> (out: String)
    ensures
        out@ == utf8_lossy(minified(html.spec_bytes())),
{
    let bytes = html.as_bytes();
    let small = minify_bytes(bytes);
    decode_lossy(small.as_slice())
}

/// Where an asset is copied to: under the output directory, below a
/// directory named like the assets directory, at the same relative place.
pub open spec fn asset_plan(path: PathView, cwd: PathView, cli: Cli) -> Option<PathView> {
    let assets = cwd.join(cli.assets_dir@);
    let out_root = cwd.join(cli.output_dir@).join(cli.assets_dir@);
    match path.strip_prefix(assets) {
        None => None,
        Some(rel) => Some(out_root.join(parse_path(rel.text()))),
    }
}

/// Where an asset goes, stated on components: an asset at `assets/<rel>` is
/// copied to `output/assets/<rel>`; a file elsewhere has no place.
pub open spec fn asset_destination(path: PathView, cwd: PathView, cli: Cli) -> Option<PathView> {
    let assets = cwd.join(cli.assets_dir@);
    let out_root = cwd.join(cli.output_dir@).join(cli.assets_dir@);
    match path.strip_prefix(assets) {
        None => None,
        Some(rel) => Some(PathView { root: true, parts: out_root.parts + rel.parts }),
    }
}

/// Assets keep their place.  With an absolute working directory, copying an
/// asset sends it where `asset_destination` says.
pub proof fn lemma_asset_route(path: PathView, cwd: PathView, cli: Cli)
    requires
        path.wf(),
        cwd.wf(),
        cwd.root,
        cli.assets_dir@.wf(),
        cli.output_dir@.wf(),
    ensures
        asset_plan(path, cwd, cli) == asset_destination(path, cwd, cli),
{
    let assets = cwd.join(cli.assets_dir@);
    let output = cwd.join(cli.output_dir@);
    let out_root = output.join(cli.assets_dir@);
    lemma_join_wf(cwd, cli.assets_dir@);
    lemma_join_wf(cwd, cli.output_dir@);
    lemma_join_wf(output, cli.assets_dir@);
    assert(assets.root && out_root.root);
    match path.strip_prefix(assets) {
        None => {},
        Some(rel) => {
            assert(path.root);
            assert(rel.wf()) by {
                assert forall|i: int| 0 <= i < rel.parts.len() implies valid_part(
                    #[trigger] rel.parts[i],
                ) by {
                    assert(rel.parts[i] == path.parts[i + assets.parts.len()]);
                }
            }
            lemma_parse_text(rel);
            if rel.parts.len() > 0 {
                assert(valid_part(rel.parts[0]));
            }
            assert(out_root.join(rel) =~= PathView { root: true, parts: out_root.parts + rel.parts });
        },
    }
}

/// Where an asset goes.
pub struct AssetPlan {
    /// The copy.
    pub output_path: SitePath,
    /// The directory that must exist before the copy, if the copy has one.
    pub parent: Option<SitePath>,
}

/// Where the asset at `path` (canonical) is copied to, when the working directory is `cwd`.
pub fn plan_asset(path: &SitePath, cwd: &SitePath, cli: &Cli) -> (r: Result<AssetPlan, SiteError>)
    ensures
        match r {
            Ok(plan) => {
                &&& asset_plan(path@, cwd@, *cli) == Some(plan.output_path@)
                &&& match plan.parent {
                    Some(p) => plan.output_path@.parent() == Some(p@),
                    None => plan.output_path@.parent() is None,
                }
            },
            Err(e) => asset_plan(path@, cwd@, *cli) is None && e == SiteError::OutsideDirectory,
        },
        cwd@.root ==> asset_plan(path@, cwd@, *cli) == asset_destination(path@, cwd@, *cli),
{
    proof {
        use_type_invariant(path);
        SitePath::lemma_well_formed(path);
        use_type_invariant(cwd);
        SitePath::lemma_well_formed(cwd);
        use_type_invariant(&cli.assets_dir);
        SitePath::lemma_well_formed(&cli.assets_dir);
        use_type_invariant(&cli.output_dir);
        SitePath::lemma_well_formed(&cli.output_dir);
        if cwd@.root {
            lemma_asset_route(path@, cwd@, *cli);
        }
    }
    let assets = cwd.join(&cli.assets_dir);
    let out_root = cwd.join(&cli.output_dir).join(&cli.assets_dir);
    let rel = match path.strip_prefix(&assets) {
        Some(rel) => rel,
        None => return Err(SiteError::OutsideDirectory),
    };
    let text = rel.to_text();
    let output_path = out_root.join(&SitePath::parse(text.as_str()));
    let parent = output_path.parent();
    Ok(AssetPlan { output_path, parent })
}

/// Which files a directory walk hands on: posts only, or every file.
#[derive(PartialEq, Eq, Structural, Debug, Clone, Copy)]
pub enum FileFilter {
    /// Files with the extension `typ`.
    Posts,
    /// Every file that has an extension.
    Everything,
}

/// Whether a walk with `filter` hands on a file with the extension `ext`.
pub open spec fn accepts(filter: FileFilter, ext: Seq<char>) -> bool {
    match filter {
        FileFilter::Posts => ext == "typ"@,
        FileFilter::Everything => true,
    }
}

/// What a directory walk does with an entry.
#[derive(PartialEq, Eq, Structural, Debug, Clone, Copy)]
pub enum EntryAction {
    /// Walk into the directory.
    Descend,
    /// Hand the file on.
    Process,
    /// Leave the entry alone.
    Skip,
}

/// What a walk does with an entry.
pub open spec fn spec_entry_action(path: PathView, is_dir: bool, is_file: bool, filter: FileFilter) -> EntryAction {
    if is_dir {
        EntryAction::Descend
    } else if is_file && (path.extension() matches Some(e) && accepts(filter, e)) {
        EntryAction::Process
    } else {
        EntryAction::Skip
    }
}

/// What a walk of the site's sources does with the entry at `path`: it walks
/// into directories, and hands on the files whose extension the filter accepts
/// (a file without an extension is never handed on).
pub fn entry_action(path: &SitePath, is_dir: bool, is_file: bool, filter: FileFilter) -> (r:
    EntryAction)
    ensures
        r == spec_entry_action(path@, is_dir, is_file, filter),
{
    if is_dir {
        return EntryAction::Descend;
    }
    if !is_file {
        return EntryAction::Skip;
    }
    match path.extension() {
        Some(ext) => {
            let ok = match filter {
                FileFilter::Posts => ext == "typ".to_owned(),
                FileFilter::Everything => true,
            };
            if ok {
                EntryAction::Process
            } else {
                EntryAction::Skip
            }
        },
        None => EntryAction::Skip,
    }
}

/// A path reported as changed, and whether it is a regular file.
pub struct WatchedFile {
    /// The changed path (absolute).
    pub path: SitePath,
    /// Whether the path is a regular file.
    pub is_file: bool,
}

/// A changed file that is a post: a regular file with the extension `typ`.
pub open spec fn is_changed_post(f: WatchedFile) -> bool {
    f.is_file && f.path@.extension() == Some("typ"@)
}

/// A changed file that is an asset: a regular file whose path, taken from the
/// working directory, starts with the assets directory.
pub open spec fn is_changed_asset(f: WatchedFile, cwd: PathView, assets_dir: PathView) -> bool {
    f.is_file && match f.path@.strip_prefix(cwd) {
        Some(rel) => rel.strip_prefix(assets_dir) is Some,
        None => false,
    }
}

/// The changed posts, in the order reported.
pub open spec fn changed_posts(fs: Seq<WatchedFile>) -> Seq<PathView>
    decreases fs.len(),
{
    if fs.len() == 0 {
        Seq::empty()
    } else {
        let rest = changed_posts(fs.drop_last());
        if is_changed_post(fs.last()) {
            rest.push(fs.last().path@)
        } else {
            rest
        }
    }
}

/// The changed assets, in the order reported.
pub open spec fn changed_assets(fs: Seq<WatchedFile>, cwd: PathView, assets_dir: PathView) -> Seq<
    PathView,
>
    decreases fs.len(),
{
    if fs.len() == 0 {
        Seq::empty()
    } else {
        let rest = changed_assets(fs.drop_last(), cwd, assets_dir);
        if is_changed_asset(fs.last(), cwd, assets_dir) {
            rest.push(fs.last().path@)
        } else {
            rest
        }
    }
}

/// What to rebuild after a change.
pub struct WatchPlan {
    /// Posts to compile again.
    pub posts: Vec<SitePath>,
    /// Assets to copy again.
    pub assets: Vec<SitePath>,
}

/// Sorts the changed paths into posts to compile and assets to copy; a file
/// may be both, and a path that is not a regular file is neither.
///
/// Every regular file must lie under the working directory `cwd`.
pub fn process_watched_files(files: &Vec<WatchedFile>, cwd: &SitePath, cli: &Cli) -> (plan:
    WatchPlan)
    requires
        forall|i: int|
            0 <= i < files@.len() && (#[trigger] files@[i]).is_file ==> files@[i].path@.strip_prefix(
                cwd@,
            ) is Some,
    ensures
        plan.posts@.map_values(|p: SitePath| p@) == changed_posts(files@),
        plan.assets@.map_values(|p: SitePath| p@) == changed_assets(
            files@,
            cwd@,
            cli.assets_dir@,
        ),
{
    let mut posts: Vec<SitePath> = Vec::new();
    let mut assets: Vec<SitePath> = Vec::new();
    for i in 0..files.len()
        invariant
            forall|k: int|
                0 <= k < files@.len() && (#[trigger] files@[k]).is_file
                    ==> files@[k].path@.strip_prefix(cwd@) is Some,
            posts@.map_values(|p: SitePath| p@) == changed_posts(files@.take(i as int)),
            assets@.map_values(|p: SitePath| p@) == changed_assets(
                files@.take(i as int),
                cwd@,
                cli.assets_dir@,
            ),
    {
        let f = &files[i];
        proof {
            assert(files@.take(i + 1).drop_last() =~= files@.take(i as int));
            assert(files@.take(i + 1).last() == files@[i as int]);
        }
        let post = f.is_file && match f.path.extension() {
            Some(ext) => ext == "typ".to_owned(),
            None => false,
        };
        let ghost before = posts@.map_values(|p: SitePath| p@);
        if post {
            posts.push(f.path.duplicate());
            proof {
                assert(posts@.map_values(|p: SitePath| p@) =~= before.push(f.path@));
            }
        }
        let asset = if f.is_file {
            match f.path.strip_prefix(cwd) {
                Some(rel) => rel.starts_with(&cli.assets_dir),
                None => false,
            }
        } else {
            false
        };
        let ghost before_assets = assets@.map_values(|p: SitePath| p@);
        if asset {
            assets.push(f.path.duplicate());
            proof {
                assert(assets@.map_values(|p: SitePath| p@) =~= before_assets.push(f.path@));
            }
        }
    }
    proof {
        assert(files@.take(files@.len() as int) =~= files@);
    }
    WatchPlan { posts, assets }
}

/// Changed assets can be copied.  Every file that the sorting of changes takes
/// for an asset has a place in the output directory.
pub proof fn lemma_changed_asset_has_destination(f: WatchedFile, cwd: PathView, cli: Cli)
    requires
        f.path@.wf(),
        cwd.wf(),
        cli.assets_dir@.wf(),
        is_changed_asset(f, cwd, cli.assets_dir@),
    ensures
        asset_plan(f.path@, cwd, cli) is Some,
{
    let path = f.path@;
    let a = cli.assets_dir@;
    let rel = path.strip_prefix(cwd)->Some_0;
    let k = cwd.parts.len();
    assert(rel.strip_prefix(a) is Some);
    assert(!a.root);
    assert(a.parts.len() <= rel.parts.len());
    assert(rel.parts.take(a.parts.len() as int) == a.parts);
    let drop_dot = a.parts.len() > 0 && a.parts[0] == dot() && (cwd.root || cwd.parts.len() > 0);
    if drop_dot {
        assert(rel.parts[0] == a.parts[0]);
        assert(path.parts[k as int] == rel.parts[0]);
        assert(path.parts[k as int] == dot());
        assert(!valid_part(path.parts[k as int]));
        assert(false);
    }
    let assets = cwd.join(a);
    assert(assets.parts == cwd.parts + a.parts);
    assert(path.parts.take(assets.parts.len() as int) =~= assets.parts) by {
        assert forall|i: int| 0 <= i < assets.parts.len() implies path.parts.take(
            assets.parts.len() as int,
        )[i] == assets.parts[i] by {
            if i < k {
                assert(path.parts.take(k as int)[i] == cwd.parts[i]);
            } else {
                assert(rel.parts[i - k] == path.parts[i]);
                assert(rel.parts.take(a.parts.len() as int)[i - k] == a.parts[i - k]);
            }
        }
    }
    assert(path.strip_prefix(assets) is Some);
}

/// Changed posts under the content directory compile.  With an absolute
/// working directory, every file that the sorting of changes takes for a post
/// and that lies below the content directory gets a page.  (A `.typ` file
/// among the assets is taken for a post too, and is refused as lying outside
/// the content directory.)
pub proof fn lemma_changed_post_compiles(f: WatchedFile, cwd: PathView, cli: Cli)
    requires
        f.path@.wf(),
        cwd.wf(),
        cwd.root,
        cli.content_dir@.wf(),
        cli.output_dir@.wf(),
        is_changed_post(f),
        f.path@.strip_prefix(cwd.join(cli.content_dir@)) matches Some(rel) && rel.parts.len() > 0,
    ensures
        post_plan(f.path@, cwd, cli) is Ok,
{
    let path = f.path@;
    lemma_post_route(path, cwd, cli);
    let rel = path.strip_prefix(cwd.join(cli.content_dir@))->Some_0;
    let name = path.parts.last();
    assert(rel.parts.last() == name);
    assert(path.file_name() == Some(name));
    let d = last_dot(name);
    assert(name_extension(name) == Some("typ"@));
    assert(d > 0);
    reveal_strlit("typ");
    reveal_strlit(".typ");
    lemma_last_dot(name);
    assert(name[d] == '.');
    assert(name.skip(d + 1) == "typ"@);
    assert("typ"@.len() == 3);
    assert(name.skip(d + 1).len() == name.len() - d - 1);
    assert(name.len() == d + 4);
    let tail = name.skip(name.len() - 4);
    assert forall|i: int| 0 <= i < 4 implies tail[i] == ".typ"@[i] by {
        if i > 0 {
            assert(tail[i] == name.skip(d + 1)[i - 1]);
        }
    }
    assert(tail =~= ".typ"@);
}

/// The `typst` command line, position by position: the fixed words, the
/// working directory as both font path and project root (whatever the post),
/// then the post and the page.
pub proof fn lemma_typst_args_positions(cwd: PathView, path: PathView, html: PathView)
    ensures
        ({
            let a = typst_args(cwd, path, html);
            &&& a.len() == 11
            &&& a[0] == "compile"@ && a[1] == "--features"@ && a[2] == "html"@
            &&& a[3] == "--format"@ && a[4] == "html"@
            &&& a[5] == "--font-path"@ && a[6] == cwd.text()
            &&& a[7] == "--root"@ && a[8] == cwd.text()
            &&& a[9] == path.text() && a[10] == html.text()
        }),
{
}

/// How a walk treats an entry, whatever the filter: directories are always
/// walked into; a non-directory that is not a file, or a file without an
/// extension, is left alone; a `typ` file is always handed on; with
/// `Everything` every file with an extension is handed on, and with `Posts`
/// only `typ` files.
pub proof fn lemma_entry_action_rules(path: PathView, is_dir: bool, is_file: bool, filter: FileFilter)
    ensures
        ({
            let r = spec_entry_action(path, is_dir, is_file, filter);
            &&& is_dir ==> r == EntryAction::Descend
            &&& !is_dir && !is_file ==> r == EntryAction::Skip
            &&& !is_dir && is_file && path.extension() is None ==> r == EntryAction::Skip
            &&& !is_dir && is_file && path.extension() == Some("typ"@) ==> r
                == EntryAction::Process
            &&& !is_dir && is_file && filter == FileFilter::Everything && path.extension() is Some
                ==> r == EntryAction::Process
            &&& !is_dir && is_file && filter == FileFilter::Posts && path.extension() is Some
                && path.extension() != Some("typ"@) ==> r == EntryAction::Skip
        }),
{
}

/// Sorting one changed file: it is a post exactly when it is a regular file
/// with the extension `typ`.
pub proof fn lemma_changed_posts_single(f: WatchedFile)
    ensures
        changed_posts(seq![f]) == if f.is_file && f.path@.extension() == Some("typ"@) {
            seq![f.path@]
        } else {
            Seq::<PathView>::empty()
        },
{
    assert(seq![f].drop_last() =~= Seq::<WatchedFile>::empty());
    assert(seq![f].last() == f);
    assert(changed_posts(Seq::<WatchedFile>::empty()) == Seq::<PathView>::empty());
    assert(Seq::<PathView>::empty().push(f.path@) =~= seq![f.path@]);
}

/// Sorting one changed file: it is an asset exactly when it is a regular file
/// whose path, taken from the working directory, starts with the assets directory.
pub proof fn lemma_changed_assets_single(f: WatchedFile, cwd: PathView, assets_dir: PathView)
    ensures
        changed_assets(seq![f], cwd, assets_dir) == if f.is_file && (match f.path@.strip_prefix(
            cwd,
        ) {
            Some(rel) => rel.strip_prefix(assets_dir) is Some,
            None => false,
        }) {
            seq![f.path@]
        } else {
            Seq::<PathView>::empty()
        },
{
    assert(seq![f].drop_last() =~= Seq::<WatchedFile>::empty());
    assert(seq![f].last() == f);
    assert(changed_assets(Seq::<WatchedFile>::empty(), cwd, assets_dir) == Seq::<PathView>::empty());
    assert(Seq::<PathView>::empty().push(f.path@) =~= seq![f.path@]);
}

/// Each changed file is sorted on its own: sorting two lists one after the
/// other gives the two sorted lists one after the other.
pub proof fn lemma_changed_concat(a: Seq<WatchedFile>, b: Seq<WatchedFile>, cwd: PathView, assets_dir: PathView)
    ensures
        changed_posts(a + b) == changed_posts(a) + changed_posts(b),
        changed_assets(a + b, cwd, assets_dir) == changed_assets(a, cwd, assets_dir)
            + changed_assets(b, cwd, assets_dir),
    decreases b.len(),
{
    if b.len() == 0 {
        assert(a + b =~= a);
        assert(changed_posts(a) + changed_posts(b) =~= changed_posts(a));
        assert(changed_assets(a, cwd, assets_dir) + changed_assets(b, cwd, assets_dir)
            =~= changed_assets(a, cwd, assets_dir));
    } else {
        lemma_changed_concat(a, b.drop_last(), cwd, assets_dir);
        assert((a + b).drop_last() =~= a + b.drop_last());
        assert((a + b).last() == b.last());
        let pa = changed_posts(a);
        let pb = changed_posts(b.drop_last());
        assert((pa + pb).push(b.last().path@) =~= pa + pb.push(b.last().path@));
        let qa = changed_assets(a, cwd, assets_dir);
        let qb = changed_assets(b.drop_last(), cwd, assets_dir);
        assert((qa + qb).push(b.last().path@) =~= qa + qb.push(b.last().path@));
    }
}

/// No changed post is lost: every regular file with the extension `typ`
/// among the changed files is among the posts, whatever the other files are.
pub proof fn lemma_changed_post_kept(fs: Seq<WatchedFile>, i: int)
    requires
        0 <= i < fs.len(),
        fs[i].is_file,
        fs[i].path@.extension() == Some("typ"@),
    ensures
        changed_posts(fs).contains(fs[i].path@),
{
    let a = fs.take(i);
    let b = seq![fs[i]];
    let c = fs.skip(i + 1);
    assert(fs =~= a + b + c);
    let e = PathView { root: false, parts: Seq::empty() };
    lemma_changed_concat(a + b, c, e, e);
    lemma_changed_concat(a, b, e, e);
    lemma_changed_posts_single(fs[i]);
    let ps = changed_posts(a) + seq![fs[i].path@] + changed_posts(c);
    assert(changed_posts(fs) == ps);
    assert(ps[changed_posts(a).len() as int] == fs[i].path@);
}

} // verus!
