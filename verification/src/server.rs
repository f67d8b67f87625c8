//! How the preview server answers a request that matches no file.
//!
//! The request's path is looked up under the output directory: a file is
//! served as a page, a directory by its `index.html` or else by a listing of
//! its entries, and anything else is answered with `404 Not Found`.

use vstd::prelude::*;
use vstd::string::*;

use crate::path::{parse_path, PathView, SitePath};
use crate::text::{chars_of, trim_end, trim_end_char, trim_start, trim_start_char};
use crate::utils::index_html;

verus! {

/// The place under `base` that a request path names: the path without its
/// leading `/` characters, joined to `base`.
pub open spec fn spec_local_path(base: PathView, uri_path: Seq<char>) -> PathView {
    base.join(parse_path(trim_start(uri_path, '/')))
}

/// The place under `base` that the request path `uri_path` names.
pub fn local_path(base: &SitePath, uri_path: &str) -> (r: SitePath)
    ensures
        r@ == spec_local_path(base@, uri_path@),
{
    let rel = trim_start_char(uri_path, '/');
    base.join(&SitePath::parse(rel.as_str()))
}

/// The `index.html` inside `dir`.
pub fn index_path(dir: &SitePath) -> (r: SitePath)
    ensures
        r@ == dir@.join(index_html()),
{
    dir.join(&SitePath::parse("index.html"))
}

/// How to answer a request.
pub enum ResponsePlan {
    /// Read this file and send it as a page.
    Page(SitePath),
    /// List the entries of the requested directory.
    Listing,
    /// Answer `404 Not Found`.
    NotFound,
}

/// How to answer a request for `local`, which is a file (`is_file`), a
/// directory (`is_dir`) whose `index.html` is a file (`index_is_file`), or
/// neither: a file is sent, a directory by its `index.html` when it has one
/// and by a listing otherwise; anything else is not found.
pub fn plan_response(local: &SitePath, is_file: bool, is_dir: bool, index_is_file: bool) -> (r:
    ResponsePlan)
    ensures
        is_file ==> (r matches ResponsePlan::Page(p) && p@ == local@),
        !is_file && is_dir && index_is_file ==> (r matches ResponsePlan::Page(p) && p@
            == local@.join(index_html())),
        !is_file && is_dir && !index_is_file ==> r is Listing,
        !is_file && !is_dir ==> r is NotFound,
{
    if is_file {
        ResponsePlan::Page(local.duplicate())
    } else if is_dir {
        if index_is_file {
            ResponsePlan::Page(index_path(local))
        } else {
            ResponsePlan::Listing
        }
    } else {
        ResponsePlan::NotFound
    }
}

/// Whether the request text (without its leading `/`) can only name a
/// directory: it is empty, ends with `/`, or its last segment is `.`.  The
/// system refuses such a path on anything but a directory.
pub open spec fn directory_only(t: Seq<char>) -> bool {
    ||| t.len() == 0
    ||| t.last() == '/'
    ||| (t.last() == '.' && (t.len() == 1 || t[t.len() - 2] == '/'))
}

/// How to answer the request `uri_path` for `local`, given what the disk
/// says of `local` with its text normalised: a request whose path can only
/// name a directory (see `directory_only`) is never answered with a file, so
/// `/page.html/` is not found when `page.html` is a file; otherwise as
/// `plan_response`.
pub fn plan_request(
    local: &SitePath,
    uri_path: &str,
    is_file: bool,
    is_dir: bool,
    index_is_file: bool,
) -> (r: ResponsePlan)
    ensures
        ({
            let file = is_file && !directory_only(trim_start(uri_path@, '/'));
            &&& file ==> (r matches ResponsePlan::Page(p) && p@ == local@)
            &&& !file && is_dir && index_is_file ==> (r matches ResponsePlan::Page(p) && p@
                == local@.join(index_html()))
            &&& !file && is_dir && !index_is_file ==> r is Listing
            &&& !file && !is_dir ==> r is NotFound
        }),
{
    let rel = trim_start_char(uri_path, '/');
    let cs = chars_of(rel.as_str());
    let n = cs.len();
    let dir_only = n == 0 || cs[n - 1] == '/' || (cs[n - 1] == '.' && (n == 1 || cs[n - 2] == '/'));
    plan_response(local, is_file && !dir_only, is_dir, index_is_file)
}

/// The answer to a request for something that does not exist.
pub fn handle_404() -> (r: (u16, &'static str))
    ensures
        r.0 == 404,
        r.1@ == "404 Not Found"@,
{
    (404, "404 Not Found")
}

/// One line of a listing: a link to `prefix/name`, showing `name`.
pub open spec fn listing_item(prefix: Seq<char>, name: Seq<char>) -> Seq<char> {
    "<li><a href='"@ + prefix + "/"@ + name + "'>"@ + name + "</a></li>"@
}

/// The lines of a listing, in the order of the names.
pub open spec fn listing_items(prefix: Seq<char>, names: Seq<Seq<char>>) -> Seq<char>
    decreases names.len(),
{
    if names.len() == 0 {
        Seq::empty()
    } else {
        listing_items(prefix, names.drop_last()) + listing_item(prefix, names.last())
    }
}

/// The page that lists a directory requested as `uri_path`.
pub open spec fn listing_page(uri_path: Seq<char>, names: Seq<Seq<char>>) -> Seq<char> {
    "<html><body><h1>Directory: "@ + uri_path + "</h1><ul>"@ + listing_items(
        trim_end(uri_path, '/'),
        names,
    ) + "</ul></body></html>"@
}

/// The page listing the entries `names` of the directory requested as
/// `uri_path`: a heading with the request path, then one link per entry, in
/// order, to the request path (without trailing `/`) followed by `/` and the name.
pub fn directory_listing(uri_path: &str, names: &Vec<String>) -> (page: String)
    ensures
        page@ == listing_page(uri_path@, names@.map_values(|n: String| n@)),
{
    let ghost ns = names@.map_values(|n: String| n@);
    let prefix = trim_end_char(uri_path, '/');
    let mut items = String::new();
    for i in 0..names.len()
        invariant
            ns == names@.map_values(|n: String| n@),
            prefix@ == trim_end(uri_path@, '/'),
            items@ == listing_items(prefix@, ns.take(i as int)),
    {
        let name = names[i].as_str();
        items.append("<li><a href='");
        items.append(prefix.as_str());
        items.append("/");
        items.append(name);
        items.append("'>");
        items.append(name);
        items.append("</a></li>");
        proof {
            assert(ns.take(i + 1).drop_last() =~= ns.take(i as int));
            assert(ns.take(i + 1).last() == name@);
        }
    }
    proof {
        assert(ns.take(names@.len() as int) =~= ns);
    }
    let mut page = String::new();
    page.append("<html><body><h1>Directory: ");
    page.append(uri_path);
    page.append("</h1><ul>");
    page.append(items.as_str());
    page.append("</ul></body></html>");
    proof {
        assert(page@ =~= listing_page(uri_path@, ns));
    }
    page
}

/// A listing of no entries: the heading and an empty list.
pub proof fn lemma_listing_empty(uri_path: Seq<char>)
    ensures
        listing_page(uri_path, Seq::empty()) == "<html><body><h1>Directory: "@ + uri_path
            + "</h1><ul>"@ + "</ul></body></html>"@,
{
    assert(listing_page(uri_path, Seq::empty()) =~= "<html><body><h1>Directory: "@ + uri_path
        + "</h1><ul>"@ + "</ul></body></html>"@);
}

/// One more entry adds one more line before the end of the list, linking to
/// the request path without its trailing `/` characters, then `/`, then the
/// name, and showing the name.  With `lemma_listing_empty` this fixes every
/// listing; with `lemma_trim_end_keeps`, a request path that does not end
/// with `/` is the link prefix as it stands.
pub proof fn lemma_listing_push(uri_path: Seq<char>, names: Seq<Seq<char>>, name: Seq<char>)
    ensures
        ({
            let tail = "</ul></body></html>"@;
            let before = listing_page(uri_path, names);
            listing_page(uri_path, names.push(name)) == before.take(before.len() - tail.len()) + (
            "<li><a href='"@ + trim_end(uri_path, '/') + "/"@ + name + "'>"@ + name
                + "</a></li>"@) + tail
        }),
{
    let tail = "</ul></body></html>"@;
    let head = "<html><body><h1>Directory: "@ + uri_path + "</h1><ul>"@;
    let prefix = trim_end(uri_path, '/');
    let items = listing_items(prefix, names);
    assert(names.push(name).drop_last() =~= names);
    assert(names.push(name).last() == name);
    let before = listing_page(uri_path, names);
    assert(before =~= head + items + tail);
    assert(before.take(before.len() - tail.len()) =~= head + items);
    assert(listing_page(uri_path, names.push(name)) =~= head + items + ("<li><a href='"@ + prefix
        + "/"@ + name + "'>"@ + name + "</a></li>"@) + tail);
}

} // verus!
