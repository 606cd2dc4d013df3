//! Paths as text: joining a directory and a relative path, and taking a
//! path back to its form relative to a directory. Components are separated
//! by `/`.
use vstd::prelude::*;

verus! {

/// `dir` as the start of the paths beneath it: with a `/` added at its end
/// unless it already has one (or is empty).
pub open spec fn dir_base(dir: Seq<char>) -> Seq<char> {
    if dir.len() == 0 || dir.last() == '/' {
        dir
    } else {
        dir.push('/')
    }
}

/// The path of `rel` beneath `dir`.
pub open spec fn joined(dir: Seq<char>, rel: Seq<char>) -> Seq<char> {
    dir_base(dir) + rel
}

/// The form of `path` relative to `dir`: what follows `dir_base(dir)`, when
/// `path` starts with it and something follows.
pub open spec fn relative_of(dir: Seq<char>, path: Seq<char>) -> Option<Seq<char>> {
    let base = dir_base(dir);
    if base.len() < path.len() && path.subrange(0, base.len() as int) == base {
        Some(path.subrange(base.len() as int, path.len() as int))
    } else {
        None
    }
}

/// Whether `s` starts with `prefix`.
fn starts_with(s: &str, prefix: &str) -> (r: bool)
    ensures
        r == (prefix@.len() <= s@.len() && s@.subrange(0, prefix@.len() as int) == prefix@),
{
    let n = prefix.unicode_len();
    let m = s.unicode_len();
    if n > m {
        return false;
    }
    let mut i: usize = 0;
    while i < n
        invariant
            n == prefix@.len(),
            m == s@.len(),
            n <= m,
            i <= n,
            forall|k: int| 0 <= k < i ==> s@[k] == prefix@[k],
        decreases n - i,
    {
        if s.get_char(i) != prefix.get_char(i) {
            assert(s@.subrange(0, n as int)[i as int] != prefix@[i as int]);
            return false;
        }
        i = i + 1;
    }
    assert(s@.subrange(0, n as int) =~= prefix@);
    true
}

/// `dir` with a `/` at its end unless it has one already or is empty.
pub fn dir_base_of(dir: &str) -> (r: String)
    ensures
        r@ == dir_base(dir@),
{
    let n = dir.unicode_len();
    let mut r = String::from_str(dir);
    if n > 0 && dir.get_char(n - 1) != '/' {
        r.append("/");
        proof {
            reveal_strlit("/");
        }
        assert(r@ =~= dir@.push('/'));
    }
    r
}

/// The path of `rel` beneath `dir`.
pub fn join_path(dir: &str, rel: &str) -> (r: String)
    ensures
        r@ == joined(dir@, rel@),
{
    let mut r = dir_base_of(dir);
    r.append(rel);
    r
}

/// The form of `path` relative to `input_dir`, or `None` when `path` does
/// not lie beneath it.
pub fn relative_path(input_dir: &str, path: &str) -> (r: Option<String>)
    ensures
        r matches Some(s) ==> relative_of(input_dir@, path@) == Some(s@),
        r is None ==> relative_of(input_dir@, path@) is None,
{
    let base = dir_base_of(input_dir);
    let b = base.unicode_len();
    let n = path.unicode_len();
    if b < n && starts_with(path, base.as_str()) {
        Some(String::from_str(path.substring_char(b, n)))
    } else {
        None
    }
}

/// A relative path comes back from the path it names beneath a directory:
/// the file at `rel` beneath `dir` has the relative path `rel`, however
/// deeply it is nested.
pub proof fn lemma_relative_of_joined(dir: Seq<char>, rel: Seq<char>)
    requires
        rel.len() > 0,
    ensures
        relative_of(dir, joined(dir, rel)) == Some(rel),
{
    let base = dir_base(dir);
    let p = joined(dir, rel);
    assert(p.subrange(0, base.len() as int) =~= base);
    assert(p.subrange(base.len() as int, p.len() as int) =~= rel);
}

} // verus!
