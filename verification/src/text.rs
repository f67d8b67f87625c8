//! Character-level helpers on strings.

use vstd::prelude::*;
use vstd::string::*;

verus! {

/// The characters of `s`.
pub fn chars_of(s: &str) -> (v: Vec<char>)
    ensures
        v@ == s@,
{
    let n = s.unicode_len();
    let mut v: Vec<char> = Vec::new();
    for i in 0..n
        invariant
            n == s@.len(),
            v@ =~= s@.take(i as int),
    {
        v.push(s.get_char(i));
    }
    v
}

/// Whether `s` ends with `suffix`.
pub open spec fn ends_with(s: Seq<char>, suffix: Seq<char>) -> bool {
    suffix.len() <= s.len() && s.skip(s.len() - suffix.len()) == suffix
}

/// `s` without `suffix` when it ends with it, as `str::strip_suffix` gives it.
pub fn strip_suffix(s: &str, suffix: &str) -> (r: Option<String>)
    ensures
        match r {
            Some(t) => ends_with(s@, suffix@) && t@ == s@.take(s@.len() - suffix@.len()),
            None => !ends_with(s@, suffix@),
        },
{
    let cs = chars_of(s);
    let ss = chars_of(suffix);
    let n = cs.len();
    let m = ss.len();
    if m > n {
        return None;
    }
    let off = n - m;
    for i in 0..m
        invariant
            cs@ == s@,
            ss@ == suffix@,
            n == s@.len(),
            m == suffix@.len(),
            off == n - m,
            forall|j: int| 0 <= j < i ==> cs@[off + j] == ss@[j],
    {
        if cs[off + i] != ss[i] {
            proof {
                assert(s@.skip(off as int)[i as int] != suffix@[i as int]);
            }
            return None;
        }
    }
    proof {
        assert(s@.skip(off as int) =~= suffix@);
    }
    let t = s.substring_char(0, off).to_owned();
    proof {
        assert(s@.subrange(0, off as int) =~= s@.take(off as int));
    }
    Some(t)
}

/// `s` without the leading `c` characters, as `str::trim_start_matches` gives it for a char.
pub fn trim_start_char(s: &str, c: char) -> (r: String)
    ensures
        r@ == trim_start(s@, c),
{
    let cs = chars_of(s);
    let n = cs.len();
    let mut i: usize = 0;
    proof {
        assert(s@.skip(0) =~= s@);
    }
    while i < n && cs[i] == c
        invariant
            cs@ == s@,
            n == s@.len(),
            i <= n,
            trim_start(s@, c) == trim_start(s@.skip(i as int), c),
        decreases n - i,
    {
        proof {
            assert(s@.skip(i as int).drop_first() =~= s@.skip(i + 1));
        }
        i = i + 1;
    }
    proof {
        if i < n {
            assert(s@.skip(i as int)[0] != c);
        } else {
            assert(s@.skip(i as int) =~= Seq::<char>::empty());
        }
    }
    let r = s.substring_char(i, n).to_owned();
    proof {
        assert(s@.subrange(i as int, n as int) =~= s@.skip(i as int));
    }
    r
}

/// `s` without its leading `c` characters.
pub open spec fn trim_start(s: Seq<char>, c: char) -> Seq<char>
    decreases s.len(),
{
    if s.len() > 0 && s[0] == c {
        trim_start(s.drop_first(), c)
    } else {
        s
    }
}

/// `s` without its trailing `c` characters.
pub open spec fn trim_end(s: Seq<char>, c: char) -> Seq<char>
    decreases s.len(),
{
    if s.len() > 0 && s.last() == c {
        trim_end(s.drop_last(), c)
    } else {
        s
    }
}

/// `s` without the trailing `c` characters, as `str::trim_end_matches` gives it for a char.
pub fn trim_end_char(s: &str, c: char) -> (r: String)
    ensures
        r@ == trim_end(s@, c),
{
    let cs = chars_of(s);
    let n = cs.len();
    let mut i: usize = n;
    proof {
        assert(s@.take(n as int) =~= s@);
    }
    while i > 0 && cs[i - 1] == c
        invariant
            cs@ == s@,
            n == s@.len(),
            i <= n,
            trim_end(s@, c) == trim_end(s@.take(i as int), c),
        decreases i,
    {
        proof {
            assert(s@.take(i as int).drop_last() =~= s@.take(i - 1));
        }
        i = i - 1;
    }
    let r = s.substring_char(0, i).to_owned();
    proof {
        assert(s@.subrange(0, i as int) =~= s@.take(i as int));
    }
    r
}

/// What `trim_end` removes: `trim_end(s, c)` is a prefix of `s`, everything
/// after it is `c`, and it does not itself end with `c`.
pub proof fn lemma_trim_end(s: Seq<char>, c: char)
    ensures
        trim_end(s, c).len() <= s.len(),
        trim_end(s, c) == s.take(trim_end(s, c).len() as int),
        forall|k: int| trim_end(s, c).len() <= k < s.len() ==> s[k] == c,
        trim_end(s, c).len() == 0 || trim_end(s, c).last() != c,
    decreases s.len(),
{
    if s.len() > 0 && s.last() == c {
        lemma_trim_end(s.drop_last(), c);
        let t = trim_end(s.drop_last(), c);
        assert(s.drop_last().take(t.len() as int) =~= s.take(t.len() as int));
        assert forall|k: int| t.len() <= k < s.len() implies s[k] == c by {
            if k < s.len() - 1 {
                assert(s.drop_last()[k] == s[k]);
            }
        }
    } else {
        assert(s.take(s.len() as int) =~= s);
    }
}

/// What `trim_start` removes: `trim_start(s, c)` is a suffix of `s`, everything
/// before it is `c`, and it does not itself start with `c`.
pub proof fn lemma_trim_start(s: Seq<char>, c: char)
    ensures
        trim_start(s, c).len() <= s.len(),
        trim_start(s, c) == s.skip(s.len() - trim_start(s, c).len()),
        forall|k: int| 0 <= k < s.len() - trim_start(s, c).len() ==> s[k] == c,
        trim_start(s, c).len() == 0 || trim_start(s, c)[0] != c,
    decreases s.len(),
{
    if s.len() > 0 && s[0] == c {
        lemma_trim_start(s.drop_first(), c);
        let t = trim_start(s.drop_first(), c);
        assert(s.drop_first().skip(s.len() - 1 - t.len()) =~= s.skip(s.len() - t.len()));
        assert forall|k: int| 0 <= k < s.len() - t.len() implies s[k] == c by {
            if k > 0 {
                assert(s.drop_first()[k - 1] == s[k]);
            }
        }
    } else {
        assert(s.skip(0) =~= s);
    }
}

/// A text that does not end with `c` loses nothing to `trim_end`.
pub proof fn lemma_trim_end_keeps(s: Seq<char>, c: char)
    requires
        s.len() == 0 || s.last() != c,
    ensures
        trim_end(s, c) == s,
{
}

} // verus!
