//! The output style, chosen by name without regard to ASCII case.
use vstd::prelude::*;

verus! {

/// Which renderer produces the output.
#[derive(Clone, Copy, Debug, PartialEq, Eq, Structural)]
pub enum Style {
    /// One HTML redirect document per input file.
    File,
    /// A single `_redirects` rule table.
    Netlify,
}

/// The code of `c` with ASCII upper-case letters taken to lower case.
pub open spec fn folded_code(c: char) -> u32 {
    if 65 <= (c as u32) <= 90 {
        (c as u32 + 32) as u32
    } else {
        c as u32
    }
}

/// Whether `a` and `b` are equal once ASCII letters are taken to one case.
pub open spec fn same_ignoring_ascii_case(a: Seq<char>, b: Seq<char>) -> bool {
    a.len() == b.len() && forall|i: int| 0 <= i < a.len() ==> folded_code(a[i]) == folded_code(b[i])
}

/// The style named by `name`, if any.
pub open spec fn style_named(name: Seq<char>) -> Option<Style> {
    if same_ignoring_ascii_case(name, "file"@) {
        Some(Style::File)
    } else if same_ignoring_ascii_case(name, "netlify"@) {
        Some(Style::Netlify)
    } else {
        None
    }
}

fn fold_code(c: char) -> (r: u32)
    ensures
        r == folded_code(c),
{
    let n = c as u32;
    if 65 <= n && n <= 90 {
        n + 32
    } else {
        n
    }
}

/// Whether `a` and `b` are equal once ASCII letters are taken to one case.
pub fn eq_ignoring_ascii_case(a: &str, b: &str) -> (r: bool)
    ensures
        r == same_ignoring_ascii_case(a@, b@),
{
    let n = a.unicode_len();
    if n != b.unicode_len() {
        return false;
    }
    let mut i: usize = 0;
    while i < n
        invariant
            n == a@.len(),
            n == b@.len(),
            i <= n,
            forall|k: int| 0 <= k < i ==> folded_code(a@[k]) == folded_code(b@[k]),
        decreases n - i,
    {
        if fold_code(a.get_char(i)) != fold_code(b.get_char(i)) {
            return false;
        }
        i = i + 1;
    }
    true
}

impl Style {
    /// The style named `name`: `file` or `netlify`, in any ASCII case.
    pub fn parse(name: &str) -> (r: Option<Style>)
        ensures
            r == style_named(name@),
    {
        if eq_ignoring_ascii_case(name, "file") {
            Some(Style::File)
        } else if eq_ignoring_ascii_case(name, "netlify") {
            Some(Style::Netlify)
        } else {
            None
        }
    }
}

} // verus!
