use release_engine::paths::{belongs_to, matches_pattern, wild_match};
use release_engine::text::chars_of;

fn matches(pattern: &str, path: &str) -> bool {
    matches_pattern(&chars_of(pattern), &chars_of(path))
}

fn whole(pattern: &str, text: &str) -> bool {
    let s = chars_of(text);
    wild_match(&chars_of(pattern), &s, 0, s.len())
}

fn list(items: &[&str]) -> Vec<String> {
    items.iter().map(|i| i.to_string()).collect()
}

#[test]
fn stars_and_question_marks_stay_within_a_part() {
    assert!(whole("", ""));
    assert!(!whole("", "a"));
    assert!(whole("*", ""));
    assert!(whole("*", "abc"));
    assert!(!whole("*", "a/b"));
    assert!(whole("*.rs", "lib.rs"));
    assert!(!whole("*.rs", "lib.rsx"));
    assert!(whole("a*b*c", "aXXbYYc"));
    assert!(whole("a*b*c", "abc"));
    assert!(!whole("a*b*c", "acb"));
    assert!(whole("?", "x"));
    assert!(!whole("?", ""));
    assert!(!whole("?", "/"));
    assert!(whole("src/*/mod.rs", "src/git/mod.rs"));
    assert!(!whole("src/*/mod.rs", "src/a/b/mod.rs"));
    assert!(whole("**", "abc"));
}

#[test]
fn a_part_of_the_text_can_be_matched() {
    let s = chars_of("src/lib.rs");
    assert!(wild_match(&chars_of("src"), &s, 0, 3));
    assert!(wild_match(&chars_of("lib.*"), &s, 4, 10));
    assert!(!wild_match(&chars_of("lib.*"), &s, 3, 10));
    assert!(wild_match(&chars_of(""), &s, 5, 5));
}

#[test]
fn a_pattern_with_a_leading_slash_starts_at_the_package() {
    assert!(matches("/src", "src/lib.rs"));
    assert!(matches("/src", "src"));
    assert!(matches("/src/", "src/a/b.rs"));
    assert!(!matches("/src", "crates/src/lib.rs"));
    assert!(!matches("/src", "srcs/lib.rs"));
    assert!(!matches("/README.md", "docs/README.md"));
    assert!(matches("/*.md", "README.md"));
}

#[test]
fn a_pattern_without_a_leading_slash_may_start_at_any_part() {
    assert!(matches("README.md", "README.md"));
    assert!(matches("README.md", "docs/README.md"));
    assert!(!matches("README.md", "docs/XREADME.md"));
    assert!(matches("*.rs", "src/git/mod.rs"));
    assert!(matches("target", "a/target/debug/x"));
    assert!(matches("git/*.rs", "src/git/mod.rs"));
    assert!(!matches("*.rs", "src/git/mod.rs.bak"));
    assert!(!matches("", "a"));
}

#[test]
fn files_belong_to_the_package_they_lie_in() {
    let none: Vec<String> = Vec::new();
    assert!(belongs_to("crates/a", &none, &none, "crates/a/src/lib.rs"));
    assert!(!belongs_to("crates/a", &none, &none, "crates/ab/src/lib.rs"));
    assert!(!belongs_to("crates/a", &none, &none, "crates/a"));
    assert!(!belongs_to("crates/a", &none, &none, "README.md"));
    assert!(belongs_to("", &none, &none, "README.md"));
    assert!(belongs_to(".", &none, &none, "src/lib.rs"));
}

#[test]
fn patterns_take_files_in_and_leave_files_out() {
    let none: Vec<String> = Vec::new();
    assert!(belongs_to("", &list(&["/src"]), &none, "src/lib.rs"));
    assert!(!belongs_to("", &list(&["/src"]), &none, "README.md"));
    assert!(belongs_to("pkg", &list(&["/src", "*.md"]), &none, "pkg/docs/x.md"));
    assert!(!belongs_to("pkg", &none, &list(&["*.md"]), "pkg/docs/x.md"));
    assert!(belongs_to("pkg", &none, &list(&["*.md"]), "pkg/src/lib.rs"));
    assert!(!belongs_to("pkg", &list(&["/src"]), &list(&["/src/gen"]), "pkg/src/gen/a.rs"));
    assert!(belongs_to("pkg", &list(&["/src"]), &list(&["/src/gen"]), "pkg/src/a.rs"));
}
