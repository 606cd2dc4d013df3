//! The mapping from each discovered file's relative path to the URL it now
//! lives at.
use vstd::prelude::*;
use crate::paths::{relative_of, relative_path};

verus! {

/// One entry of the redirect map: the file's path relative to the scanned
/// directory, and the URL that it redirects to.
pub struct Redirect {
    pub path: String,
    pub target: String,
}

impl View for Redirect {
    type V = (Seq<char>, Seq<char>);

    open spec fn view(&self) -> (Seq<char>, Seq<char>) {
        (self.path@, self.target@)
    }
}

/// The URL of the file at relative path `rel` under the base URL `base`:
/// the two joined by a `/`, used verbatim.
pub open spec fn target_of(base: Seq<char>, rel: Seq<char>) -> Seq<char> {
    base.push('/') + rel
}

/// The message given when a discovered path does not lie beneath the
/// directory it was found in.
pub open spec fn not_beneath_error(input_dir: Seq<char>, path: Seq<char>) -> Seq<char> {
    path + " does not lie beneath "@ + input_dir
}

/// Whether every one of `paths` lies beneath `input_dir`.
pub open spec fn all_beneath(input_dir: Seq<char>, paths: Seq<Seq<char>>) -> bool {
    forall|i: int| 0 <= i < paths.len() ==> (#[trigger] relative_of(input_dir, paths[i])) is Some
}

/// The redirect entry for the file at `path`, found beneath `input_dir`.
pub open spec fn entry_of(input_dir: Seq<char>, path: Seq<char>, base: Seq<char>) -> (
    Seq<char>,
    Seq<char>,
) {
    let rel = relative_of(input_dir, path)->Some_0;
    (rel, target_of(base, rel))
}

/// The views of a sequence of strings.
pub open spec fn strings_view(v: Seq<String>) -> Seq<Seq<char>> {
    v.map_values(|s: String| s@)
}

/// The views of a sequence of redirect entries.
pub open spec fn entries_view(v: Seq<Redirect>) -> Seq<(Seq<char>, Seq<char>)> {
    v.map_values(|r: Redirect| r@)
}

/// The redirect map for the files at `paths`, found beneath `input_dir`,
/// under the base URL `base`: one entry per path, in the same order.
pub open spec fn entries_of(input_dir: Seq<char>, paths: Seq<Seq<char>>, base: Seq<char>) -> Seq<
    (Seq<char>, Seq<char>),
> {
    paths.map_values(|p: Seq<char>| entry_of(input_dir, p, base))
}

/// The URL of the file at relative path `rel` under `new_base_url`.
pub fn redirect_target(new_base_url: &str, rel: &str) -> (r: String)
    ensures
        r@ == target_of(new_base_url@, rel@),
{
    let mut r = String::from_str(new_base_url);
    r.append("/");
    proof {
        reveal_strlit("/");
    }
    assert(r@ =~= new_base_url@.push('/'));
    r.append(rel);
    r
}

/// Builds the redirect map for the files at `paths`, all found by a scan of
/// `input_dir`: one entry per path, in the same order, holding the path
/// relative to `input_dir` and its URL under `new_base_url`.
///
/// Fails, with no partial result, when some path does not lie beneath
/// `input_dir`.
pub fn build_redirects(input_dir: &str, paths: &Vec<String>, new_base_url: &str) -> (r: Result<
    Vec<Redirect>,
    String,
>)
    ensures
        r is Ok <==> all_beneath(input_dir@, strings_view(paths@)),
        r matches Ok(v) ==> entries_view(v@) == entries_of(
            input_dir@,
            strings_view(paths@),
            new_base_url@,
        ),
        r matches Err(msg) ==> exists|i: int|
            0 <= i < paths@.len() && relative_of(input_dir@, #[trigger] paths@[i]@) is None
                && msg@ == not_beneath_error(input_dir@, paths@[i]@),
{
    let mut v: Vec<Redirect> = Vec::new();
    let mut i: usize = 0;
    while i < paths.len()
        invariant
            i <= paths@.len(),
            v@.len() == i,
            forall|k: int| 0 <= k < i ==> relative_of(input_dir@, #[trigger] paths@[k]@) is Some,
            forall|k: int|
                0 <= k < i ==> #[trigger] v@[k]@ == entry_of(input_dir@, paths@[k]@, new_base_url@),
        decreases paths@.len() - i,
    {
        match relative_path(input_dir, paths[i].as_str()) {
            Some(rel) => {
                let target = redirect_target(new_base_url, rel.as_str());
                v.push(Redirect { path: rel, target });
            },
            None => {
                let mut msg = paths[i].clone();
                msg.append(" does not lie beneath ");
                msg.append(input_dir);
                proof {
                    assert(strings_view(paths@)[i as int] == paths@[i as int]@);
                }
                return Err(msg);
            },
        }
        i = i + 1;
    }
    proof {
        let ps = strings_view(paths@);
        assert forall|k: int| 0 <= k < ps.len() implies (#[trigger] relative_of(
            input_dir@,
            ps[k],
        )) is Some by {
            assert(ps[k] == paths@[k]@);
        }
        assert(entries_view(v@) =~= entries_of(input_dir@, ps, new_base_url@));
    }
    Ok(v)
}

} // verus!
