//! What one run writes: the redirect map built from the scanned paths and
//! rendered in the chosen style, as a list of files.
use vstd::prelude::*;
use crate::redirects::{
    Redirect, all_beneath, target_of, build_redirects, entries_of, entries_view, strings_view,
    not_beneath_error,
};
use crate::paths::{joined, relative_of};
use crate::render::{
    OutputFile, document_of, file_outputs, lemma_rule_one_line, lemma_rules_text_lines,
    lines_joined, one_line, rule_of, rules_of, netlify_output, netlify_redirects, outputs_view, redirect_files,
};
use crate::style::Style;

verus! {

/// The files that the style `style` renders for `entries` beneath `out_dir`.
pub open spec fn planned(style: Style, out_dir: Seq<char>, entries: Seq<(Seq<char>, Seq<char>)>) -> Seq<
    (Seq<char>, Seq<char>),
> {
    match style {
        Style::File => file_outputs(out_dir, entries),
        Style::Netlify => seq![netlify_output(out_dir, entries)],
    }
}

/// The files beneath `output_dir` that `style` renders for `redirects`.
pub fn plan_outputs(style: Style, redirects: &Vec<Redirect>, output_dir: &str) -> (r: Vec<
    OutputFile,
>)
    ensures
        outputs_view(r@) == planned(style, output_dir@, entries_view(redirects@)),
{
    match style {
        Style::File => redirect_files(redirects, output_dir),
        Style::Netlify => {
            let f = netlify_redirects(redirects, output_dir);
            let v = vec![f];
            assert(outputs_view(v@) =~= planned(style, output_dir@, entries_view(redirects@)));
            v
        },
    }
}

/// Everything one run computes: the redirect map for the files at `paths`,
/// found by a scan of `input_dir`, pointing under `new_base_url`, rendered
/// in `style` into files beneath `output_dir`.
///
/// Fails, with nothing to write, when some path does not lie beneath
/// `input_dir`.
pub fn redirect_outputs(
    style: Style,
    input_dir: &str,
    paths: &Vec<String>,
    new_base_url: &str,
    output_dir: &str,
) -> (r: Result<Vec<OutputFile>, String>)
    ensures
        r is Ok <==> all_beneath(input_dir@, strings_view(paths@)),
        r matches Ok(v) ==> outputs_view(v@) == planned(
            style,
            output_dir@,
            entries_of(input_dir@, strings_view(paths@), new_base_url@),
        ),
        r matches Err(msg) ==> exists|i: int|
            0 <= i < paths@.len() && relative_of(input_dir@, #[trigger] paths@[i]@) is None
                && msg@ == not_beneath_error(input_dir@, paths@[i]@),
{
    let redirects = build_redirects(input_dir, paths, new_base_url)?;
    Ok(plan_outputs(style, &redirects, output_dir))
}

/// The files beneath a directory, path to contents, after `outputs` are
/// written over `files` in order; a write replaces whatever stood at its path.
pub open spec fn after_writes(
    files: Map<Seq<char>, Seq<char>>,
    outputs: Seq<(Seq<char>, Seq<char>)>,
) -> Map<Seq<char>, Seq<char>>
    decreases outputs.len(),
{
    if outputs.len() == 0 {
        files
    } else {
        let o = outputs.last();
        after_writes(files, outputs.drop_last()).insert(o.0, o.1)
    }
}

/// Writing `outputs` over `files` leaves what the writes alone produce, with
/// `files` kept at the paths they do not touch.
proof fn lemma_after_writes_over(files: Map<Seq<char>, Seq<char>>, outputs: Seq<(Seq<char>, Seq<char>)>)
    ensures
        after_writes(files, outputs) == files.union_prefer_right(after_writes(Map::empty(), outputs)),
    decreases outputs.len(),
{
    if outputs.len() == 0 {
        assert(files =~= files.union_prefer_right(Map::empty()));
    } else {
        lemma_after_writes_over(files, outputs.drop_last());
        assert(after_writes(files, outputs) =~= files.union_prefer_right(
            after_writes(Map::empty(), outputs),
        ));
    }
}

/// When no two of `outputs` share a path, each written path holds the
/// contents written to it, and nothing else is written.
proof fn lemma_after_distinct_writes(outputs: Seq<(Seq<char>, Seq<char>)>)
    requires
        forall|i: int, j: int|
            0 <= i < j < outputs.len() ==> (#[trigger] outputs[i]).0 != (#[trigger] outputs[j]).0,
    ensures
        forall|i: int|
            0 <= i < outputs.len() ==> #[trigger] after_writes(Map::empty(), outputs).contains_key(
                outputs[i].0,
            ) && after_writes(Map::empty(), outputs)[outputs[i].0] == outputs[i].1,
        forall|p: Seq<char>|
            #[trigger] after_writes(Map::empty(), outputs).contains_key(p) ==> exists|i: int|
                0 <= i < outputs.len() && p == (#[trigger] outputs[i]).0,
    decreases outputs.len(),
{
    if outputs.len() > 0 {
        let rest = outputs.drop_last();
        lemma_after_distinct_writes(rest);
        let w = after_writes(Map::empty(), outputs);
        assert forall|p: Seq<char>| #[trigger] w.contains_key(p) implies exists|i: int|
            0 <= i < outputs.len() && p == (#[trigger] outputs[i]).0 by {
            if p != outputs.last().0 {
                assert(after_writes(Map::empty(), rest).contains_key(p));
                let i = choose|i: int| 0 <= i < rest.len() && p == (#[trigger] rest[i]).0;
                assert(outputs[i] == rest[i]);
            }
        }
        assert forall|i: int| 0 <= i < outputs.len() implies #[trigger] w.contains_key(
            outputs[i].0,
        ) && w[outputs[i].0] == outputs[i].1 by {
            if i < outputs.len() - 1 {
                assert(outputs[i] == rest[i]);
                assert(after_writes(Map::empty(), rest).contains_key(rest[i].0));
                assert(outputs[i].0 != outputs[outputs.len() - 1].0);
            } else {
                assert(outputs[i] == outputs.last());
            }
        }
    }
}

/// Running twice is the same as running once: writing the files of a run
/// over a directory, then writing them again, leaves the same contents as
/// writing them once, whatever the directory held before.
pub proof fn lemma_run_twice(
    style: Style,
    input_dir: Seq<char>,
    paths: Seq<Seq<char>>,
    new_base_url: Seq<char>,
    output_dir: Seq<char>,
    files: Map<Seq<char>, Seq<char>>,
)
    ensures
        ({
            let o = planned(style, output_dir, entries_of(input_dir, paths, new_base_url));
            after_writes(after_writes(files, o), o) == after_writes(files, o)
        }),
{
    let o = planned(style, output_dir, entries_of(input_dir, paths, new_base_url));
    let w = after_writes(Map::empty(), o);
    lemma_after_writes_over(files, o);
    lemma_after_writes_over(after_writes(files, o), o);
    assert(files.union_prefer_right(w).union_prefer_right(w) =~= files.union_prefer_right(w));
}

/// Two paths beneath one directory are equal only when their relative forms are.
proof fn lemma_joined_cancels(dir: Seq<char>, a: Seq<char>, b: Seq<char>)
    requires
        joined(dir, a) == joined(dir, b),
    ensures
        a == b,
{
    let n = crate::paths::dir_base(dir).len() as int;
    assert(a =~= joined(dir, a).subrange(n, joined(dir, a).len() as int));
    assert(b =~= joined(dir, b).subrange(n, joined(dir, b).len() as int));
}

/// A path found beneath a directory is that directory joined with its
/// relative form.
proof fn lemma_joined_relative(dir: Seq<char>, path: Seq<char>)
    requires
        relative_of(dir, path) is Some,
    ensures
        path == joined(dir, relative_of(dir, path)->Some_0),
{
    let base = crate::paths::dir_base(dir);
    assert(path =~= path.subrange(0, base.len() as int) + path.subrange(
        base.len() as int,
        path.len() as int,
    ));
}

/// File style: for distinct files at `paths`, all found beneath `input_dir`,
/// a run writes exactly one file per input: the file at relative path `p`
/// gets, at `p` beneath `output_dir`, the redirect document for
/// `new_base_url/p`, and no other file is written.
pub proof fn lemma_file_style(
    input_dir: Seq<char>,
    paths: Seq<Seq<char>>,
    new_base_url: Seq<char>,
    output_dir: Seq<char>,
)
    requires
        all_beneath(input_dir, paths),
        paths.no_duplicates(),
    ensures
        ({
            let o = planned(Style::File, output_dir, entries_of(input_dir, paths, new_base_url));
            let w = after_writes(Map::empty(), o);
            &&& o.len() == paths.len()
            &&& forall|i: int|
                0 <= i < paths.len() ==> {
                    let rel = relative_of(input_dir, #[trigger] paths[i])->Some_0;
                    &&& paths[i] == joined(input_dir, rel)
                    &&& w.contains_key(joined(output_dir, rel))
                    &&& w[joined(output_dir, rel)] == document_of(target_of(new_base_url, rel))
                }
            &&& forall|p: Seq<char>| #[trigger]
                w.contains_key(p) ==> exists|i: int|
                    0 <= i < paths.len() && p == joined(
                        output_dir,
                        relative_of(input_dir, #[trigger] paths[i])->Some_0,
                    )
        }),
{
    let o = planned(Style::File, output_dir, entries_of(input_dir, paths, new_base_url));
    let w = after_writes(Map::empty(), o);
    assert forall|i: int| 0 <= i < paths.len() implies #[trigger] o[i] == (
        joined(output_dir, relative_of(input_dir, paths[i])->Some_0),
        document_of(target_of(new_base_url, relative_of(input_dir, paths[i])->Some_0)),
    ) && paths[i] == joined(input_dir, relative_of(input_dir, paths[i])->Some_0) by {
        assert(relative_of(input_dir, paths[i]) is Some);
        lemma_joined_relative(input_dir, paths[i]);
    }
    assert forall|i: int, j: int| 0 <= i < j < o.len() implies (#[trigger] o[i]).0 != (
    #[trigger] o[j]).0 by {
        let ri = relative_of(input_dir, paths[i])->Some_0;
        let rj = relative_of(input_dir, paths[j])->Some_0;
        assert(o[i].0 == joined(output_dir, ri));
        assert(o[j].0 == joined(output_dir, rj));
        if o[i].0 == o[j].0 {
            lemma_joined_cancels(output_dir, ri, rj);
            assert(paths[i] == paths[j]);
        }
    }
    lemma_after_distinct_writes(o);
    assert(o.len() == paths.len());
    assert forall|i: int| 0 <= i < paths.len() implies {
        let rel = relative_of(input_dir, #[trigger] paths[i])->Some_0;
        &&& paths[i] == joined(input_dir, rel)
        &&& w.contains_key(joined(output_dir, rel))
        &&& w[joined(output_dir, rel)] == document_of(target_of(new_base_url, rel))
    } by {
        assert(o[i].0 == joined(output_dir, relative_of(input_dir, paths[i])->Some_0));
    }
    assert forall|p: Seq<char>| #[trigger] w.contains_key(p) implies exists|i: int|
        0 <= i < paths.len() && p == joined(
            output_dir,
            relative_of(input_dir, #[trigger] paths[i])->Some_0,
        ) by {
        let i = choose|i: int| 0 <= i < o.len() && p == (#[trigger] o[i]).0;
        assert(o[i].0 == joined(output_dir, relative_of(input_dir, paths[i])->Some_0));
    }
}

/// Rule-table style: for the files at `paths`, all found beneath
/// `input_dir`, a run writes the single file `_redirects` beneath
/// `output_dir`. It holds an empty line, then one non-empty line per input
/// file, in the order of `paths`: `/p new_base_url/p 301` for the file at
/// relative path `p`. Neither a path nor the base URL may hold a newline,
/// which would break its line in two.
pub proof fn lemma_netlify_style(
    input_dir: Seq<char>,
    paths: Seq<Seq<char>>,
    new_base_url: Seq<char>,
    output_dir: Seq<char>,
)
    requires
        all_beneath(input_dir, paths),
        one_line(new_base_url),
        forall|i: int| 0 <= i < paths.len() ==> one_line(#[trigger] paths[i]),
    ensures
        ({
            let entries = entries_of(input_dir, paths, new_base_url);
            let o = planned(Style::Netlify, output_dir, entries);
            let rules = rules_of(entries);
            &&& o.len() == 1
            &&& o[0].0 == joined(output_dir, "_redirects"@)
            &&& o[0].1 == lines_joined(seq![Seq::empty()] + rules)
            &&& rules.len() == paths.len()
            &&& forall|i: int|
                0 <= i < paths.len() ==> {
                    let rel = relative_of(input_dir, #[trigger] paths[i])->Some_0;
                    &&& rules[i] == rule_of(rel, target_of(new_base_url, rel))
                    &&& rules[i].len() > 0
                    &&& one_line(rules[i])
                }
        }),
{
    let entries = entries_of(input_dir, paths, new_base_url);
    let rules = rules_of(entries);
    lemma_rules_text_lines(entries);
    assert forall|i: int| 0 <= i < paths.len() implies {
        let rel = relative_of(input_dir, #[trigger] paths[i])->Some_0;
        &&& rules[i] == rule_of(rel, target_of(new_base_url, rel))
        &&& rules[i].len() > 0
        &&& one_line(rules[i])
    } by {
        let path = paths[i];
        assert(relative_of(input_dir, path) is Some);
        let n = crate::paths::dir_base(input_dir).len() as int;
        let rel = relative_of(input_dir, path)->Some_0;
        assert(rel == path.subrange(n, path.len() as int));
        assert forall|k: int| 0 <= k < rel.len() implies rel[k] != '\n' by {
            assert(rel[k] == path[n + k]);
        }
        let t = target_of(new_base_url, rel);
        assert forall|k: int| 0 <= k < t.len() implies t[k] != '\n' by {
            if k > new_base_url.len() {
                assert(t[k] == rel[k - new_base_url.len() - 1]);
            } else if k < new_base_url.len() {
                assert(t[k] == new_base_url[k]);
            } else {
                assert(t[k] == '/');
            }
        }
        lemma_rule_one_line(rel, t);
    }
}

} // verus!
