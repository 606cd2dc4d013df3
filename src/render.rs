//! The two output styles: one HTML redirect document per file, or a single
//! rule table. Each renders the redirect map into the files to be written.
use vstd::prelude::*;
use crate::paths::{joined, join_path};
use crate::redirects::{Redirect, entries_view};

verus! {

/// A file to be written: its path and its whole contents.
pub struct OutputFile {
    pub path: String,
    pub contents: String,
}

impl View for OutputFile {
    type V = (Seq<char>, Seq<char>);

    open spec fn view(&self) -> (Seq<char>, Seq<char>) {
        (self.path@, self.contents@)
    }
}

/// The redirect document for `url`: a meta-refresh that navigates to it at
/// once, then, on a second line, a canonical link to it.
pub open spec fn document_of(url: Seq<char>) -> Seq<char> {
    "<meta http-equiv=\"refresh\" content=\"0; url="@ + url + "\">\n<link rel=\"canonical\" href=\""@
        + url + "\" />"@
}

/// The rule-table line that sends `/rel` to `target`.
pub open spec fn rule_of(rel: Seq<char>, target: Seq<char>) -> Seq<char> {
    "/"@ + rel + " "@ + target + " 301"@
}

/// The rule table for `entries`: each rule preceded by a newline.
pub open spec fn rules_text(entries: Seq<(Seq<char>, Seq<char>)>) -> Seq<char>
    decreases entries.len(),
{
    if entries.len() == 0 {
        Seq::empty()
    } else {
        let e = entries.last();
        rules_text(entries.drop_last()) + "\n"@ + rule_of(e.0, e.1)
    }
}

/// `lines` as one text, with a newline between each two.
pub open spec fn lines_joined(lines: Seq<Seq<char>>) -> Seq<char>
    decreases lines.len(),
{
    if lines.len() == 0 {
        Seq::empty()
    } else if lines.len() == 1 {
        lines[0]
    } else {
        lines_joined(lines.drop_last()) + "\n"@ + lines.last()
    }
}

/// The rule-table line of each entry.
pub open spec fn rules_of(entries: Seq<(Seq<char>, Seq<char>)>) -> Seq<Seq<char>> {
    entries.map_values(|e: (Seq<char>, Seq<char>)| rule_of(e.0, e.1))
}

/// Whether `s` holds no newline.
pub open spec fn one_line(s: Seq<char>) -> bool {
    forall|i: int| 0 <= i < s.len() ==> s[i] != '\n'
}

/// The rule table is an empty line followed by one line per entry.
pub proof fn lemma_rules_text_lines(entries: Seq<(Seq<char>, Seq<char>)>)
    ensures
        rules_text(entries) == lines_joined(seq![Seq::empty()] + rules_of(entries)),
    decreases entries.len(),
{
    let lines = seq![Seq::<char>::empty()] + rules_of(entries);
    if entries.len() > 0 {
        lemma_rules_text_lines(entries.drop_last());
        assert(lines.drop_last() =~= seq![Seq::<char>::empty()] + rules_of(entries.drop_last()));
    } else {
        assert(lines =~= seq![Seq::<char>::empty()]);
    }
}

/// A rule-table line is not empty, and holds no newline when neither the
/// relative path nor the target does.
pub proof fn lemma_rule_one_line(rel: Seq<char>, target: Seq<char>)
    requires
        one_line(rel),
        one_line(target),
    ensures
        rule_of(rel, target).len() > 0,
        one_line(rule_of(rel, target)),
{
    reveal_strlit("/");
    reveal_strlit(" ");
    reveal_strlit(" 301");
    let r = rule_of(rel, target);
    assert forall|i: int| 0 <= i < r.len() implies r[i] != '\n' by {
        let a = "/"@;
        let b = a + rel;
        let c = b + " "@;
        let d = c + target;
        if i >= d.len() {
            assert(r[i] == " 301"@[i - d.len()]);
        } else if i >= c.len() {
            assert(r[i] == target[i - c.len()]);
        } else if i >= b.len() {
            assert(r[i] == " "@[i - b.len()]);
        } else if i >= a.len() {
            assert(r[i] == rel[i - a.len()]);
        } else {
            assert(r[i] == a[i]);
        }
    }
}

/// The views of a sequence of output files.
pub open spec fn outputs_view(v: Seq<OutputFile>) -> Seq<(Seq<char>, Seq<char>)> {
    v.map_values(|f: OutputFile| f@)
}

/// File style: for each entry, its redirect document at its relative path
/// beneath `out_dir`.
pub open spec fn file_outputs(out_dir: Seq<char>, entries: Seq<(Seq<char>, Seq<char>)>) -> Seq<
    (Seq<char>, Seq<char>),
> {
    entries.map_values(|e: (Seq<char>, Seq<char>)| (joined(out_dir, e.0), document_of(e.1)))
}

/// Rule-table style: the single file `_redirects` beneath `out_dir`.
pub open spec fn netlify_output(out_dir: Seq<char>, entries: Seq<(Seq<char>, Seq<char>)>) -> (
    Seq<char>,
    Seq<char>,
) {
    (joined(out_dir, "_redirects"@), rules_text(entries))
}

/// The redirect document for `url`.
pub fn redirect_document(url: &str) -> (r: String)
    ensures
        r@ == document_of(url@),
{
    let mut r = String::from_str("<meta http-equiv=\"refresh\" content=\"0; url=");
    r.append(url);
    r.append("\">\n<link rel=\"canonical\" href=\"");
    r.append(url);
    r.append("\" />");
    r
}

/// The rule-table line for one redirect entry.
pub fn rule_line(redirect: &Redirect) -> (r: String)
    ensures
        r@ == rule_of(redirect.path@, redirect.target@),
{
    let mut r = String::from_str("/");
    r.append(redirect.path.as_str());
    r.append(" ");
    r.append(redirect.target.as_str());
    r.append(" 301");
    r
}

/// The rule table for `redirects`, one line per entry in their order, each
/// line preceded by a newline (so the table starts with an empty line).
pub fn netlify_rules(redirects: &Vec<Redirect>) -> (r: String)
    ensures
        r@ == rules_text(entries_view(redirects@)),
{
    let mut r = String::new();
    let mut i: usize = 0;
    while i < redirects.len()
        invariant
            i <= redirects@.len(),
            r@ == rules_text(entries_view(redirects@.subrange(0, i as int))),
        decreases redirects@.len() - i,
    {
        let line = rule_line(&redirects[i]);
        r.append("\n");
        r.append(line.as_str());
        proof {
            let next = entries_view(redirects@.subrange(0, i + 1));
            assert(next.drop_last() =~= entries_view(redirects@.subrange(0, i as int)));
        }
        i = i + 1;
    }
    assert(redirects@.subrange(0, i as int) =~= redirects@);
    r
}

/// File style: one redirect document per entry, at the entry's relative path
/// beneath `output_dir`, in the entries' order.
pub fn redirect_files(redirects: &Vec<Redirect>, output_dir: &str) -> (r: Vec<OutputFile>)
    ensures
        outputs_view(r@) == file_outputs(output_dir@, entries_view(redirects@)),
{
    let mut v: Vec<OutputFile> = Vec::new();
    let mut i: usize = 0;
    while i < redirects.len()
        invariant
            i <= redirects@.len(),
            v@.len() == i,
            forall|k: int|
                0 <= k < i ==> #[trigger] v@[k]@ == (
                    joined(output_dir@, redirects@[k].path@),
                    document_of(redirects@[k].target@),
                ),
        decreases redirects@.len() - i,
    {
        let path = join_path(output_dir, redirects[i].path.as_str());
        let contents = redirect_document(redirects[i].target.as_str());
        v.push(OutputFile { path, contents });
        i = i + 1;
    }
    assert(outputs_view(v@) =~= file_outputs(output_dir@, entries_view(redirects@)));
    v
}

/// Rule-table style: the file `_redirects` beneath `output_dir`, holding the
/// rule table for `redirects`.
pub fn netlify_redirects(redirects: &Vec<Redirect>, output_dir: &str) -> (r: OutputFile)
    ensures
        r@ == netlify_output(output_dir@, entries_view(redirects@)),
{
    let path = join_path(output_dir, "_redirects");
    let contents = netlify_rules(redirects);
    OutputFile { path, contents }
}

} // verus!
