use vstd::prelude::*;
use vstd::string::StrSliceExecFns;
use vstd::string::StringExecFns;
use crate::text::{concat, concat3, pieces, same_text, slice, split_at_char, texts};

verus! {

/// The position of the last `/` of `s`, or -1.
pub open spec fn last_slash(s: Seq<char>) -> int
    decreases s.len(),
{
    if s.len() == 0 {
        -1
    } else if s.last() == '/' {
        s.len() - 1
    } else {
        last_slash(s.drop_last())
    }
}

/// The final component of a `/`-separated path: the text after its last `/`.
pub open spec fn final_segment(s: Seq<char>) -> Seq<char> {
    s.subrange(last_slash(s) + 1, s.len() as int)
}

/// The name that `/`-separated components end in: the last component that
/// is neither empty nor `.`; none where there is no such component or it
/// is `..`.
pub open spec fn last_name(parts: Seq<Seq<char>>) -> Option<Seq<char>>
    decreases parts.len(),
{
    if parts.len() == 0 {
        None
    } else {
        let p = parts.last();
        if p.len() == 0 || p == "."@ {
            last_name(parts.drop_last())
        } else if p == ".."@ {
            None
        } else {
            Some(p)
        }
    }
}

/// The file name of a path: trailing `/` and `.` components are passed
/// over, and a path that ends in `..` has none.
pub open spec fn file_name_of(p: Seq<char>) -> Option<Seq<char>> {
    last_name(pieces(p, '/'))
}

/// `rel` taken relative to `base`: an absolute `rel` stands alone.
pub open spec fn joined(base: Seq<char>, rel: Seq<char>) -> Seq<char> {
    if rel.len() > 0 && rel[0] == '/' {
        rel
    } else if base.len() == 0 {
        rel
    } else if base.last() == '/' {
        base + rel
    } else {
        base + "/"@ + rel
    }
}

/// `base` is `p` or one of its ancestor directories, component by component.
pub open spec fn within(p: Seq<char>, base: Seq<char>) -> bool {
    &&& base.len() <= p.len()
    &&& p.subrange(0, base.len() as int) == base
    &&& (p.len() == base.len() || p[base.len() as int] == '/' || (base.len() > 0 && base.last()
        == '/'))
}

/// A path has a parent directory unless it is empty or the root.
pub open spec fn has_parent(p: Seq<char>) -> bool {
    p.len() > 0 && p != "/"@
}

proof fn lemma_last_slash_prefix(s: Seq<char>, j: int)
    requires
        0 <= j <= s.len(),
        forall|k: int| j <= k < s.len() ==> s[k] != '/',
    ensures
        last_slash(s) == last_slash(s.subrange(0, j)),
    decreases s.len() - j,
{
    if j < s.len() {
        assert(s.drop_last().subrange(0, j) =~= s.subrange(0, j));
        lemma_last_slash_prefix(s.drop_last(), j);
    } else {
        assert(s.subrange(0, j) =~= s);
    }
}

/// The final component of `s`.
pub fn final_component(s: &str) -> (r: String)
    ensures
        r@ == final_segment(s@),
{
    let n = s.unicode_len();
    let mut j: usize = n;
    while j > 0 && s.get_char(j - 1) != '/'
        invariant
            n == s@.len(),
            j <= n,
            forall|k: int| j <= k < n ==> s@[k] != '/',
        decreases j,
    {
        j = j - 1;
    }
    proof {
        lemma_last_slash_prefix(s@, j as int);
        let t = s@.subrange(0, j as int);
        if j > 0 {
            assert(t.last() == '/');
        }
    }
    slice(s, j, n)
}

/// The file name of `p`.
pub fn file_name(p: &str) -> (r: Option<String>)
    ensures
        match file_name_of(p@) {
            Some(n) => r matches Some(s) && s@ == n,
            None => r is None,
        },
{
    let parts = split_at_char(p, '/');
    let ghost ps = texts(parts@);
    let mut i: usize = parts.len();
    assert(ps.subrange(0, ps.len() as int) =~= ps);
    while i > 0
        invariant
            ps == texts(parts@),
            ps == pieces(p@, '/'),
            i <= parts@.len(),
            last_name(ps) == last_name(ps.subrange(0, i as int)),
        decreases i,
    {
        let part = parts[i - 1].as_str();
        proof {
            assert(ps.subrange(0, i as int).drop_last() =~= ps.subrange(0, i - 1));
            assert(ps.subrange(0, i as int).last() == part@);
        }
        if part.unicode_len() == 0 || same_text(part, ".") {
            i = i - 1;
        } else if same_text(part, "..") {
            return None;
        } else {
            return Some(String::from_str(part));
        }
    }
    assert(ps.subrange(0, 0) =~= Seq::<Seq<char>>::empty());
    None
}

/// `rel` taken relative to `base`.
pub fn join_path(base: &str, rel: &str) -> (r: String)
    ensures
        r@ == joined(base@, rel@),
{
    if rel.unicode_len() > 0 && rel.get_char(0) == '/' {
        return String::from_str(rel);
    }
    let n = base.unicode_len();
    if n == 0 {
        String::from_str(rel)
    } else if base.get_char(n - 1) == '/' {
        concat(base, rel)
    } else {
        concat3(base, "/", rel)
    }
}

/// Whether `base` is `p` or one of its ancestors.
pub fn is_within(p: &str, base: &str) -> (r: bool)
    ensures
        r == within(p@, base@),
{
    let n = p.unicode_len();
    let m = base.unicode_len();
    if m > n {
        return false;
    }
    if !crate::text::starts_with(p, base) {
        return false;
    }
    m == n || p.get_char(m) == '/' || (m > 0 && base.get_char(m - 1) == '/')
}

/// Whether `p` has a parent directory.
pub fn path_has_parent(p: &str) -> (r: bool)
    ensures
        r == has_parent(p@),
{
    !(p.unicode_len() == 0 || crate::text::same_text(p, "/"))
}

} // verus!
