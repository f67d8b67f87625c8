//! Filesystem paths as sequences of components.
//!
//! A `SitePath` holds what a Unix path means once its text is split into
//! components: whether it starts at the root, and the list of its names.  A
//! leading `.` is kept (as it is by the standard library), any other `.` and
//! every empty segment disappear, and `..` stays a component of its own.

use vstd::prelude::*;
use vstd::string::*;

use crate::text::{chars_of, ends_with};

verus! {

/// The component `.`.
pub open spec fn dot() -> Seq<char> {
    seq!['.']
}

/// The component `..`.
pub open spec fn dot_dot() -> Seq<char> {
    seq!['.', '.']
}

/// A component that may stand anywhere in a path: a file name or `..`.
pub open spec fn valid_part(c: Seq<char>) -> bool {
    &&& c.len() > 0
    &&& !c.contains('/')
    &&& c != dot()
}

/// A component that names a file or directory (neither `.` nor `..`).
pub open spec fn is_normal_name(c: Seq<char>) -> bool {
    valid_part(c) && c != dot_dot()
}

/// The meaning of a path: rooted or not, and its components in order.
#[verifier::ext_equal]
pub struct PathView {
    pub root: bool,
    pub parts: Seq<Seq<char>>,
}

impl PathView {
    /// Every component is a valid one, except a leading `.` of a relative path.
    pub open spec fn wf(self) -> bool {
        forall|i: int|
            0 <= i < self.parts.len() ==> valid_part(#[trigger] self.parts[i]) || (i == 0
                && !self.root && self.parts[i] == dot())
    }

    /// `self` extended by `other`; an absolute `other` replaces `self`.
    /// A leading `.` of `other` vanishes once something stands before it.
    pub open spec fn join(self, other: PathView) -> PathView {
        if other.root {
            other
        } else {
            let drop_dot = other.parts.len() > 0 && other.parts[0] == dot() && (self.root
                || self.parts.len() > 0);
            PathView {
                root: self.root,
                parts: self.parts + (if drop_dot {
                    other.parts.drop_first()
                } else {
                    other.parts
                }),
            }
        }
    }

    /// What is left of `self` after the components of `base`, if `self` starts with them.
    pub open spec fn strip_prefix(self, base: PathView) -> Option<PathView> {
        if self.root == base.root && base.parts.len() <= self.parts.len() && self.parts.take(
            base.parts.len() as int,
        ) == base.parts {
            Some(PathView { root: false, parts: self.parts.skip(base.parts.len() as int) })
        } else {
            None
        }
    }

    /// The last component, when it names a file or directory.
    pub open spec fn file_name(self) -> Option<Seq<char>> {
        if self.parts.len() > 0 && is_normal_name(self.parts.last()) {
            Some(self.parts.last())
        } else {
            None
        }
    }

    /// The extension of the file name (see `name_extension`).
    pub open spec fn extension(self) -> Option<Seq<char>> {
        match self.file_name() {
            Some(name) => name_extension(name),
            None => None,
        }
    }

    /// The path without its last component; none for the root alone or an empty path.
    pub open spec fn parent(self) -> Option<PathView> {
        if self.parts.len() == 0 {
            None
        } else {
            Some(PathView { root: self.root, parts: self.parts.drop_last() })
        }
    }

    /// The text of the path: `/` for the root, then the components separated by `/`.
    pub open spec fn text(self) -> Seq<char> {
        (if self.root {
            seq!['/']
        } else {
            Seq::<char>::empty()
        }) + join_parts(self.parts)
    }
}

/// The components separated by `/`.
pub open spec fn join_parts(ps: Seq<Seq<char>>) -> Seq<char>
    decreases ps.len(),
{
    if ps.len() == 0 {
        Seq::<char>::empty()
    } else if ps.len() == 1 {
        ps[0]
    } else {
        join_parts(ps.drop_last()) + seq!['/'] + ps.last()
    }
}

/// Whether a segment between separators survives as a component.
pub open spec fn keep_segment(seg: Seq<char>) -> bool {
    seg.len() > 0 && seg != dot()
}

/// `done` with `seg` appended when it survives.
pub open spec fn add_segment(done: Seq<Seq<char>>, seg: Seq<char>) -> Seq<Seq<char>> {
    if keep_segment(seg) {
        done.push(seg)
    } else {
        done
    }
}

/// Reading `s` from the left: the components finished so far, and the
/// segment that is still open.
pub open spec fn scan(s: Seq<char>) -> (Seq<Seq<char>>, Seq<char>)
    decreases s.len(),
{
    if s.len() == 0 {
        (Seq::empty(), Seq::empty())
    } else {
        let (done, seg) = scan(s.drop_last());
        if s.last() == '/' {
            (add_segment(done, seg), Seq::empty())
        } else {
            (done, seg.push(s.last()))
        }
    }
}

/// Whether the text starts with a `.` segment (`.` alone, or `./`).
pub open spec fn starts_with_cur_dir(s: Seq<char>) -> bool {
    s.len() > 0 && s[0] == '.' && (s.len() == 1 || s[1] == '/')
}

/// The components of a path text, as `Path::components` yields them on Unix.
pub open spec fn parse_path(s: Seq<char>) -> PathView {
    let root = s.len() > 0 && s[0] == '/';
    let (done, seg) = scan(s);
    PathView {
        root,
        parts: (if !root && starts_with_cur_dir(s) {
            seq![dot()]
        } else {
            Seq::empty()
        }) + add_segment(done, seg),
    }
}

/// The segments that `scan` finishes are valid components, and the open one holds no `/`.
pub proof fn lemma_scan_valid(s: Seq<char>)
    ensures
        forall|i: int| 0 <= i < scan(s).0.len() ==> valid_part(#[trigger] scan(s).0[i]),
        !scan(s).1.contains('/'),
    decreases s.len(),
{
    if s.len() > 0 {
        lemma_scan_valid(s.drop_last());
        let (done, seg) = scan(s.drop_last());
        if s.last() != '/' {
            assert forall|k: int| 0 <= k < seg.push(s.last()).len() implies seg.push(s.last())[k]
                != '/' by {
                if k < seg.len() {
                    assert(seg.push(s.last())[k] == seg[k]);
                }
            }
        }
    }
}

/// The view of a parsed text is well formed.
pub proof fn lemma_parse_wf(s: Seq<char>)
    ensures
        parse_path(s).wf(),
{
    lemma_scan_valid(s);
}

/// The components kept from a list of segments, in order.
pub open spec fn kept(ps: Seq<Seq<char>>) -> Seq<Seq<char>>
    decreases ps.len(),
{
    if ps.len() == 0 {
        Seq::empty()
    } else {
        add_segment(kept(ps.drop_last()), ps.last())
    }
}

/// Reading text without a separator extends the open segment.
pub proof fn lemma_scan_no_sep(a: Seq<char>, b: Seq<char>)
    requires
        !b.contains('/'),
    ensures
        scan(a + b) == (scan(a).0, scan(a).1 + b),
    decreases b.len(),
{
    if b.len() == 0 {
        assert(a + b =~= a);
        assert(scan(a).1 + b =~= scan(a).1);
    } else {
        let bl = b.drop_last();
        assert((a + b).drop_last() =~= a + bl);
        assert((a + b).last() == b.last());
        assert(!bl.contains('/')) by {
            assert forall|k: int| 0 <= k < bl.len() implies bl[k] != '/' by {
                assert(bl[k] == b[k]);
            }
        }
        lemma_scan_no_sep(a, bl);
        assert((scan(a).1 + bl).push(b.last()) =~= scan(a).1 + b);
    }
}

/// Reading a separator closes the open segment.
pub proof fn lemma_scan_sep(a: Seq<char>)
    ensures
        scan(a.push('/')) == (add_segment(scan(a).0, scan(a).1), Seq::<char>::empty()),
{
    assert(a.push('/').drop_last() =~= a);
}

/// Keeping a segment after a fixed prefix of components.
pub proof fn lemma_add_segment_concat(d: Seq<Seq<char>>, k: Seq<Seq<char>>, seg: Seq<char>)
    ensures
        add_segment(d + k, seg) == d + add_segment(k, seg),
{
    if keep_segment(seg) {
        assert((d + k).push(seg) =~= d + k.push(seg));
    }
}

/// Segments of no separator, nonempty.
pub open spec fn plain_segments(ps: Seq<Seq<char>>) -> bool {
    forall|i: int| 0 <= i < ps.len() ==> #[trigger] ps[i].len() > 0 && !ps[i].contains('/')
}

/// Reading components joined by `/` after a closed prefix.
pub proof fn lemma_scan_parts(pre: Seq<char>, ps: Seq<Seq<char>>)
    requires
        scan(pre).1 == Seq::<char>::empty(),
        ps.len() > 0,
        plain_segments(ps),
    ensures
        scan(pre + join_parts(ps)) == (scan(pre).0 + kept(ps.drop_last()), ps.last()),
    decreases ps.len(),
{
    let d = scan(pre).0;
    if ps.len() == 1 {
        assert(ps[0].len() > 0);
        lemma_scan_no_sep(pre, ps[0]);
        assert(Seq::<char>::empty() + ps[0] =~= ps[0]);
        assert(ps.drop_last() =~= Seq::<Seq<char>>::empty());
        assert(d + Seq::<Seq<char>>::empty() =~= d);
    } else {
        let dl = ps.drop_last();
        assert(plain_segments(dl)) by {
            assert forall|i: int| 0 <= i < dl.len() implies #[trigger] dl[i].len() > 0
                && !dl[i].contains('/') by {
                assert(dl[i] == ps[i]);
            }
        }
        let x = pre + join_parts(dl);
        lemma_scan_parts(pre, dl);
        assert(pre + join_parts(ps) =~= x.push('/') + ps.last());
        assert(ps.last() == ps[ps.len() - 1]);
        lemma_scan_no_sep(x.push('/'), ps.last());
        lemma_scan_sep(x);
        lemma_add_segment_concat(d, kept(dl.drop_last()), dl.last());
        assert(Seq::<char>::empty() + ps.last() =~= ps.last());
    }
}

/// For a well-formed path, only a leading `.` is dropped by `kept`.
pub proof fn lemma_kept_wf(p: PathView)
    requires
        p.wf(),
    ensures
        kept(p.parts) == (if p.parts.len() > 0 && p.parts[0] == dot() {
            p.parts.drop_first()
        } else {
            p.parts
        }),
    decreases p.parts.len(),
{
    let ps = p.parts;
    if ps.len() > 0 {
        let q = PathView { root: p.root, parts: ps.drop_last() };
        assert(q.wf()) by {
            assert forall|i: int| 0 <= i < q.parts.len() implies valid_part(#[trigger] q.parts[i])
                || (i == 0 && !q.root && q.parts[i] == dot()) by {
                assert(q.parts[i] == ps[i]);
            }
        }
        lemma_kept_wf(q);
        let last = ps.last();
        assert(last == ps[ps.len() - 1]);
        if ps.len() == 1 {
            assert(ps.drop_last() =~= Seq::<Seq<char>>::empty());
            if ps[0] == dot() {
                assert(ps.drop_first() =~= Seq::<Seq<char>>::empty());
            } else {
                assert(Seq::<Seq<char>>::empty().push(last) =~= ps);
            }
        } else {
            assert(valid_part(last));
            assert(q.parts[0] == ps[0]);
            if ps[0] == dot() {
                assert(ps.drop_last().drop_first().push(last) =~= ps.drop_first());
            } else {
                assert(ps.drop_last().push(last) =~= ps);
            }
        }
    }
}

/// The joined text starts with the first component, followed by `/` when more come.
pub proof fn lemma_join_parts_first(ps: Seq<Seq<char>>)
    requires
        ps.len() > 0,
    ensures
        join_parts(ps).len() >= ps[0].len(),
        join_parts(ps).take(ps[0].len() as int) == ps[0],
        ps.len() > 1 ==> join_parts(ps).len() > ps[0].len() && join_parts(ps)[ps[0].len() as int]
            == '/',
    decreases ps.len(),
{
    if ps.len() > 1 {
        let dl = ps.drop_last();
        lemma_join_parts_first(dl);
        assert(dl[0] == ps[0]);
        let j = join_parts(dl);
        assert(join_parts(ps) == j + seq!['/'] + ps.last());
        assert(join_parts(ps).take(ps[0].len() as int) =~= j.take(ps[0].len() as int));
        if dl.len() == 1 {
            assert(j == dl[0]);
        }
        assert(join_parts(ps)[ps[0].len() as int] == '/');
    } else {
        assert(join_parts(ps) == ps[0]);
        assert(ps[0].take(ps[0].len() as int) =~= ps[0]);
    }
}

/// Reading the text of a well-formed path gives the path back.
pub proof fn lemma_parse_text(p: PathView)
    requires
        p.wf(),
    ensures
        parse_path(p.text()) == p,
{
    let ps = p.parts;
    let t = p.text();
    assert(plain_segments(ps)) by {
        assert forall|i: int| 0 <= i < ps.len() implies #[trigger] ps[i].len() > 0
            && !ps[i].contains('/') by {
            if !valid_part(ps[i]) {
                assert(ps[i] == dot());
                assert forall|k: int| 0 <= k < ps[i].len() implies ps[i][k] != '/' by {
                    assert(dot()[k] == '.');
                }
            }
        }
    }
    lemma_kept_wf(p);
    let e = Seq::<char>::empty();
    if p.root {
        let pre = seq!['/'];
        assert(pre == e.push('/'));
        lemma_scan_sep(e);
        assert(scan(e) == (Seq::<Seq<char>>::empty(), e));
        assert(scan(pre) == (Seq::<Seq<char>>::empty(), e));
        assert(t[0] == '/');
        if ps.len() == 0 {
            assert(t =~= pre);
            assert(parse_path(t).parts =~= ps);
        } else {
            lemma_scan_parts(pre, ps);
            assert(t == pre + join_parts(ps));
            assert(Seq::<Seq<char>>::empty() + kept(ps.drop_last()) =~= kept(ps.drop_last()));
            assert(ps.drop_last().push(ps.last()) =~= ps);
            assert(parse_path(t).parts =~= kept(ps));
            assert(ps[0] != dot());
        }
    } else {
        assert(t =~= join_parts(ps));
        if ps.len() == 0 {
            assert(parse_path(t).parts =~= ps);
        } else {
            lemma_scan_parts(e, ps);
            assert(e + join_parts(ps) =~= t);
            assert(scan(e) == (Seq::<Seq<char>>::empty(), e));
            assert(Seq::<Seq<char>>::empty() + kept(ps.drop_last()) =~= kept(ps.drop_last()));
            let add = add_segment(kept(ps.drop_last()), ps.last());
            assert(add == kept(ps));
            lemma_join_parts_first(ps);
            assert(t.take(ps[0].len() as int) == ps[0]);
            if ps[0] == dot() {
                assert(t[0] == ps[0][0]);
                assert(starts_with_cur_dir(t));
                assert(parse_path(t).parts =~= seq![dot()] + ps.drop_first());
                assert(seq![dot()] + ps.drop_first() =~= ps);
            } else {
                assert(valid_part(ps[0]));
                if starts_with_cur_dir(t) {
                    assert(t[0] == ps[0][0]);
                    if ps[0].len() == 1 {
                        assert(ps[0] =~= dot());
                    } else {
                        assert(t[1] == ps[0][1]);
                        assert(ps[0].contains('/'));
                    }
                }
                assert(parse_path(t).parts =~= ps);
            }
            assert(t[0] == ps[0][0]);
            assert(ps[0].contains(ps[0][0]) || ps[0][0] != '/');
        }
        assert(parse_path(t).root == p.root);
    }
    assert(parse_path(t) =~= p);
}

/// Joining keeps paths well formed.
pub proof fn lemma_join_wf(a: PathView, b: PathView)
    requires
        a.wf(),
        b.wf(),
    ensures
        a.join(b).wf(),
{
    if !b.root {
        let drop_dot = b.parts.len() > 0 && b.parts[0] == dot() && (a.root || a.parts.len() > 0);
        let tail = if drop_dot {
            b.parts.drop_first()
        } else {
            b.parts
        };
        let j = a.join(b);
        assert(j.parts == a.parts + tail);
        assert forall|i: int| 0 <= i < j.parts.len() implies valid_part(#[trigger] j.parts[i]) || (i
            == 0 && !j.root && j.parts[i] == dot()) by {
            if i >= a.parts.len() {
                if drop_dot {
                    assert(j.parts[i] == b.parts[i - a.parts.len() + 1]);
                } else {
                    assert(j.parts[i] == b.parts[i - a.parts.len()]);
                }
            }
        }
    }
}

/// Components that may stand anywhere: no `.` among them.
pub open spec fn all_valid(ps: Seq<Seq<char>>) -> bool {
    forall|i: int| 0 <= i < ps.len() ==> valid_part(#[trigger] ps[i])
}

/// The text of components ends with a suffix free of `/` exactly when the last
/// component does; cutting the suffix off cuts it off the last component.
pub proof fn lemma_join_parts_suffix(ps: Seq<Seq<char>>, sfx: Seq<char>)
    requires
        all_valid(ps),
        sfx.len() > 0,
        !sfx.contains('/'),
    ensures
        ends_with(join_parts(ps), sfx) <==> (ps.len() > 0 && ends_with(ps.last(), sfx)),
        ps.len() > 0 && ends_with(ps.last(), sfx) ==> join_parts(ps).take(
            join_parts(ps).len() - sfx.len(),
        ) == (if ps.len() == 1 {
            ps.last().take(ps.last().len() - sfx.len())
        } else {
            join_parts(ps.drop_last()) + seq!['/'] + ps.last().take(ps.last().len() - sfx.len())
        }),
{
    let k = sfx.len();
    if ps.len() == 0 {
        assert(join_parts(ps).len() == 0);
    } else if ps.len() == 1 {
        assert(join_parts(ps) == ps.last());
    } else {
        let j = join_parts(ps.drop_last());
        let l = ps.last();
        let t = join_parts(ps);
        assert(t == j + seq!['/'] + l);
        let n = t.len();
        if l.len() >= k {
            assert(t.skip(n - k) =~= l.skip(l.len() - k));
            assert(t.take(n - k) =~= j + seq!['/'] + l.take(l.len() - k));
        } else {
            if ends_with(t, sfx) {
                let at = k - l.len() - 1;
                assert(t.skip(n - k)[at] == t[j.len() as int]);
                assert(t[j.len() as int] == '/');
                assert(sfx[at] == '/');
                assert(sfx.contains('/'));
            }
            if ends_with(l, sfx) {
                assert(false);
            }
        }
    }
}

/// The components of `dirs` joined by `/`, then a last segment `stem`, read back.
pub proof fn lemma_parse_stem(dirs: Seq<Seq<char>>, stem: Seq<char>)
    requires
        all_valid(dirs),
        !stem.contains('/'),
    ensures
        ({
            let x = if dirs.len() == 0 {
                stem
            } else {
                join_parts(dirs) + seq!['/'] + stem
            };
            &&& !parse_path(x).root
            &&& parse_path(x).parts == (if dirs.len() == 0 && stem == dot() {
                seq![dot()]
            } else {
                add_segment(dirs, stem)
            })
        }),
{
    let e = Seq::<char>::empty();
    let none = Seq::<Seq<char>>::empty();
    assert(scan(e) == (none, e));
    if dirs.len() == 0 {
        lemma_scan_no_sep(e, stem);
        assert(e + stem =~= stem);
        if stem.len() > 0 {
            assert(stem.contains(stem[0]));
        }
        if starts_with_cur_dir(stem) {
            if stem.len() > 1 {
                assert(stem.contains(stem[1]));
            }
            assert(stem =~= dot());
        }
        assert(add_segment(none, stem) == none + add_segment(none, stem)) by {
            lemma_add_segment_concat(none, none, stem);
            assert(none + none =~= none);
        }
        if stem == dot() {
            assert(seq![dot()] + none =~= seq![dot()]);
        } else {
            assert(none + add_segment(none, stem) =~= add_segment(none, stem));
        }
    } else {
        assert(plain_segments(dirs)) by {
            assert forall|i: int| 0 <= i < dirs.len() implies #[trigger] dirs[i].len() > 0
                && !dirs[i].contains('/') by {
                assert(valid_part(dirs[i]));
            }
        }
        let j = join_parts(dirs);
        lemma_scan_parts(e, dirs);
        assert(e + j =~= j);
        lemma_scan_sep(j);
        lemma_scan_no_sep(j.push('/'), stem);
        assert(j + seq!['/'] + stem =~= j.push('/') + stem);
        assert(e + stem =~= stem);
        let p = PathView { root: false, parts: dirs };
        assert(p.wf());
        lemma_kept_wf(p);
        assert(dirs[0] != dot());
        assert(add_segment(none + kept(dirs.drop_last()), dirs.last()) == kept(dirs)) by {
            assert(none + kept(dirs.drop_last()) =~= kept(dirs.drop_last()));
        }
        let x = j + seq!['/'] + stem;
        lemma_join_parts_first(dirs);
        assert(x[0] == j[0]);
        assert(j[0] == dirs[0][0]);
        assert(dirs[0].contains(dirs[0][0]));
        if starts_with_cur_dir(x) {
            if dirs[0].len() == 1 {
                assert(dirs[0] =~= dot());
            } else {
                assert(x[1] == dirs[0][1]);
                assert(dirs[0].contains(dirs[0][1]));
            }
        }
        assert(parse_path(x).parts =~= add_segment(dirs, stem));
    }
}

/// Stripping a path from itself extended by a relative path gives that path
/// back, unless it starts with `.` (which joining drops after a nonempty base).
pub proof fn lemma_strip_join(a: PathView, b: PathView)
    requires
        !b.root,
        b.parts.len() == 0 || b.parts[0] != dot(),
    ensures
        a.join(b).strip_prefix(a) == Some(b),
{
    let j = a.join(b);
    assert(j.parts == a.parts + b.parts);
    assert(j.parts.take(a.parts.len() as int) =~= a.parts);
    assert(j.parts.skip(a.parts.len() as int) =~= b.parts);
    assert(j.strip_prefix(a)->Some_0 =~= b);
}

/// Index of the last `.` of a name, or -1 when it has none.
pub open spec fn last_dot(c: Seq<char>) -> int
    decreases c.len(),
{
    if c.len() == 0 {
        -1
    } else if c.last() == '.' {
        c.len() - 1
    } else {
        last_dot(c.drop_last())
    }
}

/// Where `last_dot` points: a `.`, or nowhere.
pub proof fn lemma_last_dot(c: Seq<char>)
    ensures
        -1 <= last_dot(c) < c.len(),
        last_dot(c) >= 0 ==> c[last_dot(c)] == '.',
    decreases c.len(),
{
    if c.len() > 0 && c.last() != '.' {
        lemma_last_dot(c.drop_last());
    }
}

/// The text after the last `.` of a name; none when the name has no `.`, or
/// when its only `.` is its first character (as in `.bashrc`).
pub open spec fn name_extension(c: Seq<char>) -> Option<Seq<char>> {
    let d = last_dot(c);
    if d <= 0 {
        None
    } else {
        Some(c.skip(d + 1))
    }
}

/// A path, held as its components.
pub struct SitePath {
    root: bool,
    parts: Vec<String>,
}

impl View for SitePath {
    type V = PathView;

    closed spec fn view(&self) -> PathView {
        PathView { root: self.root, parts: self.parts@.map_values(|p: String| p@) }
    }
}

impl SitePath {
    /// Every path holds well-formed components.
    #[verifier::type_invariant]
    pub closed spec fn well_formed(&self) -> bool {
        self@.wf()
    }

    /// What the type invariant says of the view.
    pub proof fn lemma_well_formed(p: &SitePath)
        requires
            p.well_formed(),
        ensures
            p@.wf(),
    {
    }

    /// The empty relative path.
    pub fn empty() -> (r: SitePath)
        ensures
            r@ == (PathView { root: false, parts: Seq::empty() }),
    {
        let r = SitePath { root: false, parts: Vec::new() };
        assert(r@.parts =~= Seq::<Seq<char>>::empty());
        r
    }

    /// Whether the path starts at the root.
    pub fn is_absolute(&self) -> (b: bool)
        ensures
            b == self@.root,
    {
        self.root
    }

    /// The number of components.
    pub fn len(&self) -> (n: usize)
        ensures
            n == self@.parts.len(),
    {
        self.parts.len()
    }

    /// The component at `i`.
    pub fn part(&self, i: usize) -> (s: &String)
        requires
            i < self@.parts.len(),
        ensures
            s@ == self@.parts[i as int],
    {
        &self.parts[i]
    }

    /// A copy of the path.
    pub fn duplicate(&self) -> (r: SitePath)
        ensures
            r@ == self@,
    {
        proof {
            use_type_invariant(self);
        }
        let mut parts: Vec<String> = Vec::new();
        for i in 0..self.parts.len()
            invariant
                parts@.len() == i,
                i <= self.parts@.len(),
                forall|j: int| 0 <= j < i ==> #[trigger] parts@[j]@ == self.parts@[j]@,
        {
            parts.push(self.parts[i].clone());
        }
        proof {
            assert(parts@.map_values(|p: String| p@) =~= self@.parts);
        }
        SitePath { root: self.root, parts }
    }

    /// `self` extended by `other`, as `Path::join` does.
    pub fn join(&self, other: &SitePath) -> (r: SitePath)
        ensures
            r@ == self@.join(other@),
    {
        proof {
            use_type_invariant(self);
            use_type_invariant(other);
        }
        if other.root {
            return other.duplicate();
        }
        let drop_dot = other.parts.len() > 0 && is_dot(other.parts[0].as_str()) && (self.root
            || self.parts.len() > 0);
        let start: usize = if drop_dot {
            1
        } else {
            0
        };
        let ghost tail = if drop_dot {
            other@.parts.drop_first()
        } else {
            other@.parts
        };
        let mut parts: Vec<String> = Vec::new();
        for i in 0..self.parts.len()
            invariant
                parts@.len() == i,
                i <= self.parts@.len(),
                forall|j: int| 0 <= j < i ==> #[trigger] parts@[j]@ == self.parts@[j]@,
        {
            parts.push(self.parts[i].clone());
        }
        let n = self.parts.len();
        for i in start..other.parts.len()
            invariant
                n == self.parts@.len(),
                start <= i <= other.parts@.len(),
                parts@.len() == n + i - start,
                forall|j: int| 0 <= j < n ==> #[trigger] parts@[j]@ == self.parts@[j]@,
                forall|j: int|
                    n <= j < parts@.len() ==> #[trigger] parts@[j]@ == other.parts@[j - n
                        + start]@,
        {
            parts.push(other.parts[i].clone());
        }
        proof {
            let joined = self@.parts + tail;
            assert(parts@.map_values(|p: String| p@) =~= joined);
            assert forall|j: int| 0 <= j < joined.len() implies valid_part(#[trigger] joined[j]) || (
            j == 0 && !self.root && joined[j] == dot()) by {
                if j >= n {
                    assert(joined[j] == other@.parts[j - n + start]);
                }
            }
        }
        SitePath { root: self.root, parts }
    }


    /// Builds a path from its components; none when a component is empty,
    /// holds `/`, or is `.` anywhere but at the start of a relative path.
    pub fn from_parts(root: bool, parts: Vec<String>) -> (r: Option<SitePath>)
        ensures
            match r {
                Some(p) => p@ == (PathView { root, parts: parts@.map_values(|s: String| s@) }),
                None => !(PathView { root, parts: parts@.map_values(|s: String| s@) }).wf(),
            },
    {
        let ghost v = PathView { root, parts: parts@.map_values(|s: String| s@) };
        for i in 0..parts.len()
            invariant
                v == (PathView { root, parts: parts@.map_values(|s: String| s@) }),
                forall|j: int|
                    0 <= j < i ==> valid_part(#[trigger] v.parts[j]) || (j == 0 && !root
                        && v.parts[j] == dot()),
        {
            let ok = is_valid_part(parts[i].as_str()) || (i == 0 && !root && is_dot(
                parts[i].as_str(),
            ));
            if !ok {
                assert(!(valid_part(v.parts[i as int]) || (i == 0 && !root && v.parts[i as int]
                    == dot())));
                return None;
            }
        }
        Some(SitePath { root, parts })
    }

    /// The components of a path text, as `Path::new(text).components()` yields them.
    pub fn parse(text: &str) -> (r: SitePath)
        ensures
            r@ == parse_path(text@),
    {
        let cs = chars_of(text);
        let n = cs.len();
        let root = n > 0 && cs[0] == '/';
        let mut parts: Vec<String> = Vec::new();
        let cur = !root && n > 0 && cs[0] == '.' && (n == 1 || cs[1] == '/');
        if cur {
            let d = ".".to_owned();
            proof {
                reveal_strlit(".");
                assert(d@ =~= dot());
            }
            parts.push(d);
        }
        let ghost head: Seq<Seq<char>> = if cur {
            seq![dot()]
        } else {
            Seq::empty()
        };
        proof {
            reveal_strlit(".");
            assert(parts@.map_values(|p: String| p@) =~= head);
            assert(text@.take(0) =~= Seq::<char>::empty());
        }
        let mut start: usize = 0;
        let mut i: usize = 0;
        while i < n
            invariant
                n == cs@.len(),
                cs@ == text@,
                start <= i <= n,
                parts@.map_values(|p: String| p@) == head + scan(text@.take(i as int)).0,
                scan(text@.take(i as int)).1 == text@.subrange(start as int, i as int),
            decreases n - i,
        {
            proof {
                assert(text@.take(i + 1).drop_last() =~= text@.take(i as int));
                assert(text@.take(i + 1).last() == text@[i as int]);
            }
            if cs[i] == '/' {
                let len = i - start;
                let keep = len > 0 && !(len == 1 && cs[start] == '.');
                let ghost seg = text@.subrange(start as int, i as int);
                let ghost before = parts@.map_values(|p: String| p@);
                proof {
                    lemma_keep_segment(seg, keep, cs@, start as int);
                }
                if keep {
                    let piece = text.substring_char(start, i).to_owned();
                    parts.push(piece);
                    proof {
                        assert(parts@.map_values(|p: String| p@) =~= before.push(seg));
                    }
                }
                proof {
                    assert(parts@.map_values(|p: String| p@) =~= head + scan(text@.take(i + 1)).0);
                    assert(text@.subrange(i + 1, i + 1) =~= Seq::<char>::empty());
                }
                start = i + 1;
            } else {
                proof {
                    assert(text@.subrange(start as int, i + 1) =~= text@.subrange(
                        start as int,
                        i as int,
                    ).push(text@[i as int]));
                }
            }
            i = i + 1;
        }
        let len = n - start;
        let keep = len > 0 && !(len == 1 && cs[start] == '.');
        let ghost seg = text@.subrange(start as int, n as int);
        let ghost before = parts@.map_values(|p: String| p@);
        proof {
            assert(text@.take(n as int) =~= text@);
            lemma_keep_segment(seg, keep, cs@, start as int);
        }
        if keep {
            let piece = text.substring_char(start, n).to_owned();
            parts.push(piece);
            proof {
                assert(parts@.map_values(|p: String| p@) =~= before.push(seg));
            }
        }
        proof {
            assert(parts@.map_values(|p: String| p@) =~= parse_path(text@).parts);
            lemma_parse_wf(text@);
        }
        SitePath { root, parts }
    }

    /// What is left of `self` after the components of `base`, as `Path::strip_prefix` gives it.
    pub fn strip_prefix(&self, base: &SitePath) -> (r: Option<SitePath>)
        ensures
            match r {
                Some(p) => self@.strip_prefix(base@) == Some(p@),
                None => self@.strip_prefix(base@) is None,
            },
    {
        proof {
            use_type_invariant(self);
            use_type_invariant(base);
        }
        let m = base.parts.len();
        let n = self.parts.len();
        if self.root != base.root || m > n {
            return None;
        }
        for i in 0..m
            invariant
                m == base@.parts.len(),
                m <= n == self@.parts.len(),
                forall|j: int| 0 <= j < i ==> #[trigger] self@.parts[j] == base@.parts[j],
        {
            if self.parts[i] != base.parts[i] {
                proof {
                    assert(self@.parts.take(m as int)[i as int] != base@.parts[i as int]);
                }
                return None;
            }
        }
        proof {
            assert(self@.parts.take(m as int) =~= base@.parts);
        }
        let mut parts: Vec<String> = Vec::new();
        for i in m..n
            invariant
                m <= i <= n,
                n == self@.parts.len(),
                parts@.len() == i - m,
                forall|j: int| 0 <= j < parts@.len() ==> #[trigger] parts@[j]@ == self@.parts[j + m],
        {
            parts.push(self.parts[i].clone());
        }
        proof {
            let rest = self@.parts.skip(m as int);
            assert(parts@.map_values(|p: String| p@) =~= rest);
            assert forall|j: int| 0 <= j < rest.len() implies valid_part(#[trigger] rest[j]) || (j
                == 0 && rest[j] == dot()) by {
                assert(rest[j] == self@.parts[j + m]);
            }
        }
        Some(SitePath { root: false, parts })
    }

    /// Whether `self` starts with the components of `base`, as `Path::starts_with` says.
    pub fn starts_with(&self, base: &SitePath) -> (b: bool)
        ensures
            b == self@.strip_prefix(base@) is Some,
    {
        match self.strip_prefix(base) {
            Some(_) => true,
            None => false,
        }
    }

    /// The last component when it names a file or directory, as `Path::file_name` gives it.
    pub fn file_name(&self) -> (r: Option<String>)
        ensures
            match r {
                Some(s) => self@.file_name() == Some(s@),
                None => self@.file_name() is None,
            },
    {
        proof {
            use_type_invariant(self);
        }
        let n = self.parts.len();
        if n == 0 {
            return None;
        }
        let last = &self.parts[n - 1];
        proof {
            assert(self@.parts.last() == last@);
        }
        if is_valid_part(last.as_str()) && !is_dot_dot(last.as_str()) {
            Some(last.clone())
        } else {
            None
        }
    }

    /// The extension of the file name, as `Path::extension` gives it.
    pub fn extension(&self) -> (r: Option<String>)
        ensures
            match r {
                Some(s) => self@.extension() == Some(s@),
                None => self@.extension() is None,
            },
    {
        match self.file_name() {
            Some(name) => extension_of(name.as_str()),
            None => None,
        }
    }

    /// The path without its last component, as `Path::parent` gives it.
    pub fn parent(&self) -> (r: Option<SitePath>)
        ensures
            match r {
                Some(p) => self@.parent() == Some(p@),
                None => self@.parent() is None,
            },
    {
        proof {
            use_type_invariant(self);
        }
        let n = self.parts.len();
        if n == 0 {
            return None;
        }
        let mut parts: Vec<String> = Vec::new();
        for i in 0..n - 1
            invariant
                n == self@.parts.len(),
                n > 0,
                parts@.len() == i,
                forall|j: int| 0 <= j < i ==> #[trigger] parts@[j]@ == self@.parts[j],
        {
            parts.push(self.parts[i].clone());
        }
        proof {
            assert(parts@.map_values(|p: String| p@) =~= self@.parts.drop_last());
        }
        Some(SitePath { root: self.root, parts })
    }

    /// The text of the path.
    pub fn to_text(&self) -> (s: String)
        ensures
            s@ == self@.text(),
    {
        let mut s = String::new();
        if self.root {
            s.append("/");
        }
        let ghost prefix = s@;
        proof {
            reveal_strlit("/");
            assert(prefix == (if self@.root {
                seq!['/']
            } else {
                Seq::<char>::empty()
            }));
        }
        for i in 0..self.parts.len()
            invariant
                i <= self.parts@.len(),
                s@ == prefix + join_parts(self@.parts.take(i as int)),
        {
            proof {
                reveal_strlit("/");
                assert(self@.parts.take(i + 1).drop_last() =~= self@.parts.take(i as int));
                reveal_with_fuel(join_parts, 2);
            }
            if i > 0 {
                s.append("/");
            }
            s.append(self.parts[i].as_str());
            proof {
                if i == 0 {
                    assert(self@.parts.take(1) =~= seq![self@.parts[0]]);
                }
                assert(s@ =~= prefix + join_parts(self@.parts.take(i + 1)));
            }
        }
        proof {
            assert(self@.parts.take(self@.parts.len() as int) =~= self@.parts);
        }
        s
    }
}

/// Whether `s` is exactly `.`.
fn is_dot(s: &str) -> (b: bool)
    ensures
        b == (s@ == dot()),
{
    let n = s.unicode_len();
    if n == 1 {
        let c = s.get_char(0);
        proof {
            if c == '.' {
                assert(s@ =~= dot());
            }
        }
        c == '.'
    } else {
        false
    }
}

/// The cheap test on a segment's bounds decides `keep_segment`.
proof fn lemma_keep_segment(seg: Seq<char>, keep: bool, cs: Seq<char>, start: int)
    requires
        0 <= start <= start + seg.len() <= cs.len(),
        seg == cs.subrange(start, start + seg.len()),
        keep == (seg.len() > 0 && !(seg.len() == 1 && cs[start] == '.')),
    ensures
        keep == keep_segment(seg),
{
    if seg.len() == 1 {
        assert(seg[0] == cs[start]);
        if cs[start] == '.' {
            assert(seg =~= dot());
        } else {
            assert(seg[0] != dot()[0]);
        }
    } else {
        assert(seg.len() != dot().len());
    }
}

/// Whether `s` is exactly `..`.
fn is_dot_dot(s: &str) -> (b: bool)
    ensures
        b == (s@ == dot_dot()),
{
    let n = s.unicode_len();
    if n == 2 {
        let c0 = s.get_char(0);
        let c1 = s.get_char(1);
        proof {
            if c0 == '.' && c1 == '.' {
                assert(s@ =~= dot_dot());
            }
        }
        c0 == '.' && c1 == '.'
    } else {
        false
    }
}

/// Whether `s` may stand as a component anywhere in a path.
fn is_valid_part(s: &str) -> (b: bool)
    ensures
        b == valid_part(s@),
{
    let cs = chars_of(s);
    if cs.len() == 0 || is_dot(s) {
        return false;
    }
    for i in 0..cs.len()
        invariant
            cs@ == s@,
            forall|j: int| 0 <= j < i ==> cs@[j] != '/',
    {
        if cs[i] == '/' {
            return false;
        }
    }
    true
}

/// The extension of a file name: the text after its last `.`.
fn extension_of(name: &str) -> (r: Option<String>)
    ensures
        match r {
            Some(s) => name_extension(name@) == Some(s@),
            None => name_extension(name@) is None,
        },
{
    let cs = chars_of(name);
    let n = cs.len();
    let mut i = n;
    proof {
        assert(name@.take(n as int) =~= name@);
    }
    while i > 0
        invariant
            cs@ == name@,
            n == cs@.len(),
            i <= n,
            last_dot(name@) == last_dot(name@.take(i as int)),
            forall|j: int| i <= j < n ==> cs@[j] != '.',
        decreases i,
    {
        proof {
            assert(name@.take(i as int).drop_last() =~= name@.take(i - 1));
        }
        if cs[i - 1] == '.' {
            let d = i - 1;
            if d == 0 {
                return None;
            }
            let ext = name.substring_char(d + 1, n).to_owned();
            proof {
                assert(name@.subrange(d + 1, n as int) =~= name@.skip(d + 1));
            }
            return Some(ext);
        }
        i = i - 1;
    }
    proof {
        assert(name@.take(0) =~= Seq::<char>::empty());
    }
    None
}

} // verus!
