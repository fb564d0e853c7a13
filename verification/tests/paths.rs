use hashcards::paths::join_str;
use hashcards::paths::path_strip_prefix;
use std::path::Path;

fn strip(p: &str, base: &str) -> Option<String> {
    let pc: Vec<char> = p.chars().collect();
    let bc: Vec<char> = base.chars().collect();
    path_strip_prefix(&pc, &bc).map(|v| v.into_iter().collect())
}

#[test]
fn test_join_agrees_with_std() {
    for (a, b) in [("a", "b"), ("a/", "b"), ("/c//", "x/y"), ("", "b"), ("a", "/b"), ("a/b", "./c"), ("a", "")] {
        assert_eq!(join_str(a, b), Path::new(a).join(b).to_str().unwrap(), "{a} + {b}");
    }
}

#[test]
fn test_strip_prefix_agrees_with_std() {
    let cases = [
        ("/c/x/y", "/c"),
        ("/c/x/y", "/c/"),
        ("/c//x/./y/", "/c"),
        ("/c", "/c/"),
        ("/cc/x", "/c"),
        ("/c/x", "/d"),
        ("c/x", "c"),
        ("/c/../x", "/c"),
    ];
    for (p, base) in cases {
        let expected = Path::new(p).strip_prefix(base).ok().map(|r| r.to_str().unwrap().to_string());
        assert_eq!(strip(p, base), expected, "{p} - {base}");
    }
}
