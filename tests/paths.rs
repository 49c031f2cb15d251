use devgpt::paths::{components, paths_equal};
use std::path::Path;

fn parts(p: &str) -> Vec<String> {
    components(p).into_iter().map(|c| c.into_iter().collect()).collect()
}

#[test]
fn components_skip_empty_and_dot_segments() {
    assert_eq!(parts("src//a/./b.rs/"), vec!["src", "a", "b.rs"]);
    assert_eq!(parts("/usr/../lib"), vec!["usr", "..", "lib"]);
    assert_eq!(parts("./a"), vec!["a"]);
    assert!(parts("").is_empty());
    assert!(parts("/").is_empty());
}

#[test]
fn paths_compare_like_std_paths() {
    let cases = [
        ("src/a.rs", "src/a.rs"),
        ("src/a.rs", "src//a.rs"),
        ("src/a.rs", "src/a.rs/"),
        ("src/a.rs", "src/./a.rs"),
        ("src/a.rs", "./src/a.rs"),
        ("src/a.rs", "/src/a.rs"),
        ("./a", "./a"),
        ("./a", ".//a"),
        (".", "./"),
        (".", ""),
        ("/", "//"),
        ("a/..", "a"),
        ("a", "A"),
        (".a", "a"),
        ("/./a", "/a"),
        ("a/b/.", "a/b"),
    ];
    for (a, b) in cases {
        assert_eq!(paths_equal(a, b), Path::new(a) == Path::new(b), "{a:?} vs {b:?}");
        assert_eq!(paths_equal(b, a), Path::new(b) == Path::new(a), "{b:?} vs {a:?}");
    }
}
