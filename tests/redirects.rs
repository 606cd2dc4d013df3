use html_redirects::paths::{dir_base_of, join_path, relative_path};
use html_redirects::plan::{plan_outputs, redirect_outputs};
use html_redirects::redirects::{build_redirects, redirect_target, Redirect};
use html_redirects::render::{
    netlify_redirects, netlify_rules, redirect_document, redirect_files, rule_line, OutputFile,
};
use html_redirects::style::{eq_ignoring_ascii_case, Style};
use html_redirects::validate::{check_input_dir, check_output_dir};

fn strings(v: &[&str]) -> Vec<String> {
    v.iter().map(|s| s.to_string()).collect()
}

fn pairs(files: &[OutputFile]) -> Vec<(String, String)> {
    files.iter().map(|f| (f.path.clone(), f.contents.clone())).collect()
}

fn document(url: &str) -> String {
    format!(
        "<meta http-equiv=\"refresh\" content=\"0; url={url}\">\n<link rel=\"canonical\" href=\"{url}\" />"
    )
}

#[test]
fn input_dir_missing_is_rejected() {
    assert_eq!(
        check_input_dir("site", false, false),
        Err("site does not exist or exists and is a file".to_string())
    );
}

#[test]
fn input_dir_that_is_a_file_is_rejected() {
    assert_eq!(
        check_input_dir("index.html", true, false),
        Err("index.html does not exist or exists and is a file".to_string())
    );
}

#[test]
fn input_dir_that_is_a_directory_is_accepted() {
    assert_eq!(check_input_dir("site", true, true), Ok(()));
}

#[test]
fn output_dir_that_is_a_file_is_rejected() {
    assert_eq!(
        check_output_dir("out.txt", true, false),
        Err("output_dir out.txt exists and is not a directory".to_string())
    );
}

#[test]
fn output_dir_absent_or_directory_is_accepted() {
    assert_eq!(check_output_dir("out", false, false), Ok(()));
    assert_eq!(check_output_dir("out", true, true), Ok(()));
}

#[test]
fn nested_path_is_made_relative() {
    assert_eq!(relative_path("D", "D/a/b/c.html"), Some("a/b/c.html".to_string()));
    assert_eq!(relative_path("D/", "D/a/b/c.html"), Some("a/b/c.html".to_string()));
}

#[test]
fn path_outside_directory_has_no_relative_form() {
    assert_eq!(relative_path("D", "E/a.html"), None);
    assert_eq!(relative_path("D", "Dx/a.html"), None);
    assert_eq!(relative_path("D", "D/"), None);
    assert_eq!(relative_path("D", "D"), None);
}

#[test]
fn join_adds_one_separator() {
    assert_eq!(dir_base_of("out"), "out/");
    assert_eq!(dir_base_of("out/"), "out/");
    assert_eq!(dir_base_of(""), "");
    assert_eq!(join_path("out", "a/b/c.html"), "out/a/b/c.html");
    assert_eq!(join_path("out/", "a.html"), "out/a.html");
}

#[test]
fn target_joins_base_and_path() {
    assert_eq!(
        redirect_target("https://example.com", "blog/post.html"),
        "https://example.com/blog/post.html"
    );
}

#[test]
fn build_redirects_maps_each_path() {
    let paths = strings(&["in/index.html", "in/blog/post.html"]);
    let r = build_redirects("in", &paths, "https://example.com").unwrap();
    assert_eq!(r.len(), 2);
    assert_eq!(r[0].path, "index.html");
    assert_eq!(r[0].target, "https://example.com/index.html");
    assert_eq!(r[1].path, "blog/post.html");
    assert_eq!(r[1].target, "https://example.com/blog/post.html");
}

#[test]
fn build_redirects_of_nothing_is_empty() {
    let r = build_redirects("in", &Vec::new(), "https://example.com").unwrap();
    assert!(r.is_empty());
}

#[test]
fn build_redirects_rejects_path_outside() {
    let paths = strings(&["in/a.html", "other/b.html"]);
    assert_eq!(
        build_redirects("in", &paths, "https://example.com").err(),
        Some("other/b.html does not lie beneath in".to_string())
    );
}

#[test]
fn redirect_document_has_refresh_and_canonical() {
    assert_eq!(
        redirect_document("https://example.com/index.html"),
        "<meta http-equiv=\"refresh\" content=\"0; url=https://example.com/index.html\">\n<link rel=\"canonical\" href=\"https://example.com/index.html\" />"
    );
}

#[test]
fn rule_line_format() {
    let r = Redirect {
        path: "index.html".to_string(),
        target: "https://example.com/index.html".to_string(),
    };
    assert_eq!(rule_line(&r), "/index.html https://example.com/index.html 301");
}

#[test]
fn netlify_rules_start_with_empty_line() {
    let paths = strings(&["in/index.html", "in/blog/post.html"]);
    let r = build_redirects("in", &paths, "https://example.com").unwrap();
    assert_eq!(
        netlify_rules(&r),
        "\n/index.html https://example.com/index.html 301\n/blog/post.html https://example.com/blog/post.html 301"
    );
    assert_eq!(netlify_rules(&Vec::new()), "");
}

#[test]
fn file_style_example() {
    let paths = strings(&["in/index.html", "in/blog/post.html"]);
    let out = redirect_outputs(Style::File, "in", &paths, "https://example.com", "O").unwrap();
    assert_eq!(
        pairs(&out),
        vec![
            ("O/index.html".to_string(), document("https://example.com/index.html")),
            ("O/blog/post.html".to_string(), document("https://example.com/blog/post.html")),
        ]
    );
}

#[test]
fn netlify_style_example() {
    let paths = strings(&["in/index.html", "in/blog/post.html"]);
    let out = redirect_outputs(Style::Netlify, "in", &paths, "https://example.com", "O").unwrap();
    assert_eq!(out.len(), 1);
    assert_eq!(out[0].path, "O/_redirects");
    let mut lines: Vec<&str> = out[0].contents.lines().filter(|l| !l.is_empty()).collect();
    lines.sort();
    let mut expected = vec![
        "/index.html https://example.com/index.html 301",
        "/blog/post.html https://example.com/blog/post.html 301",
    ];
    expected.sort();
    assert_eq!(lines, expected);
}

#[test]
fn nested_file_lands_at_same_relative_path() {
    let paths = strings(&["D/a/b/c.html"]);
    let out = redirect_outputs(Style::File, "D", &paths, "https://x.org", "O").unwrap();
    assert_eq!(pairs(&out), vec![("O/a/b/c.html".to_string(), document("https://x.org/a/b/c.html"))]);
}

#[test]
fn two_runs_give_identical_files() {
    let paths = strings(&["in/index.html", "in/blog/post.html", "in/a/b/c.html"]);
    for style in [Style::File, Style::Netlify] {
        let first = redirect_outputs(style, "in", &paths, "https://example.com", "O").unwrap();
        let second = redirect_outputs(style, "in", &paths, "https://example.com", "O").unwrap();
        assert_eq!(pairs(&first), pairs(&second));
    }
    let first = redirect_outputs(Style::File, "in", &paths, "https://example.com", "O").unwrap();
    let mut written: Vec<&str> = first.iter().map(|f| f.path.as_str()).collect();
    written.sort();
    written.dedup();
    assert_eq!(written.len(), paths.len());
}

#[test]
fn redirect_outputs_reports_path_outside() {
    let paths = strings(&["x/a.html"]);
    assert_eq!(
        redirect_outputs(Style::Netlify, "in", &paths, "https://example.com", "O").err(),
        Some("x/a.html does not lie beneath in".to_string())
    );
}

#[test]
fn plan_outputs_follows_style() {
    let paths = strings(&["in/a.html"]);
    let r = build_redirects("in", &paths, "https://e.com").unwrap();
    assert_eq!(pairs(&plan_outputs(Style::File, &r, "O")), pairs(&redirect_files(&r, "O")));
    let one = netlify_redirects(&r, "O");
    assert_eq!(
        pairs(&plan_outputs(Style::Netlify, &r, "O")),
        vec![(one.path.clone(), one.contents.clone())]
    );
    assert_eq!(one.contents, "\n/a.html https://e.com/a.html 301");
}

#[test]
fn style_names_ignore_ascii_case() {
    assert_eq!(Style::parse("file"), Some(Style::File));
    assert_eq!(Style::parse("FILE"), Some(Style::File));
    assert_eq!(Style::parse("Netlify"), Some(Style::Netlify));
    assert_eq!(Style::parse("nEtLiFy"), Some(Style::Netlify));
    assert_eq!(Style::parse("netlif"), None);
    assert_eq!(Style::parse(""), None);
    assert!(eq_ignoring_ascii_case("AbC", "aBc"));
    assert!(!eq_ignoring_ascii_case("a[", "a{"));
}
