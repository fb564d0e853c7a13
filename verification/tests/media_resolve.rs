use hashcards::media::resolve::resolution_outcome;
use hashcards::media::resolve::MediaResolver;
use hashcards::media::resolve::ResolveError;

const ROOT: &str = "/tmp/hashcards-test-collection";

fn resolver() -> MediaResolver {
    MediaResolver { root: ROOT.to_string() }
}

fn join(a: &str, b: &str) -> String {
    format!("{a}/{b}")
}

#[test]
fn test_normalize_deck_relative_path() {
    let deck_path = join(ROOT, "foo/bar/deck.md");
    let result = resolver().normalize_path("img/test.jpg", &deck_path).unwrap();
    assert_eq!(result, "foo/bar/img/test.jpg");
}

#[test]
fn test_normalize_collection_relative_path() {
    let deck_path = join(ROOT, "foo/bar/deck.md");
    let result = resolver().normalize_path("@/img/test.jpg", &deck_path).unwrap();
    assert_eq!(result, "img/test.jpg");
}

#[test]
fn test_normalize_path_with_parent_dir() {
    let deck_path = join(ROOT, "foo/bar/deck.md");
    let result = resolver().normalize_path("../img/test.jpg", &deck_path).unwrap();
    assert_eq!(result, "foo/img/test.jpg");
}

#[test]
fn test_normalize_path_escaping() {
    let deck_path = join(ROOT, "deck.md");
    let result = resolver().normalize_path("../../../etc/passwd", &deck_path);
    assert_eq!(result, Err(ResolveError::OutsideDirectory));
}

#[test]
fn test_validate_file_path_not_found() {
    let result = resolver().resolve("nonexistent.jpg");
    assert_eq!(result, Err(ResolveError::NotFound));
}

#[test]
fn test_validate_file_path_with_dot_dot() {
    let result = resolver().resolve("../etc/passwd");
    assert_eq!(result, Err(ResolveError::InvalidPath));
}

#[test]
fn test_validate_file_path_with_dot_dot_middle() {
    let result = resolver().resolve("images/../../../etc/passwd");
    assert_eq!(result, Err(ResolveError::InvalidPath));
}

#[test]
fn test_validate_file_path_absolute() {
    let result = resolver().resolve("/etc/passwd");
    assert_eq!(result, Err(ResolveError::AbsolutePath));
}

#[test]
fn test_validate_file_path_url_encoded_dot_dot() {
    let result = resolver().resolve("..%2F..%2Fetc%2Fpasswd");
    assert_eq!(result, Err(ResolveError::InvalidPath));
}

#[test]
fn test_validate_file_path_empty_string() {
    let result = resolver().resolve("");
    assert_eq!(result, Err(ResolveError::Empty));
}

#[test]
fn test_normalize_rejects_empty_and_urls() {
    let deck_path = join(ROOT, "deck.md");
    assert_eq!(resolver().normalize_path("  ", &deck_path), Err(ResolveError::Empty));
    assert_eq!(resolver().normalize_path("http://x/y.png", &deck_path), Err(ResolveError::ExternalUrl));
    assert_eq!(resolver().normalize_path("/abs.png", &deck_path), Err(ResolveError::AbsolutePath));
}

#[test]
fn test_normalize_without_parent_is_invalid() {
    assert_eq!(resolver().normalize_path("x.png", ""), Err(ResolveError::InvalidPath));
    assert_eq!(resolver().normalize_path("x.png", "/"), Err(ResolveError::InvalidPath));
}

#[test]
fn test_normalize_deck_outside_root_is_invalid() {
    assert_eq!(resolver().normalize_path("x.png", "/elsewhere/deck.md"), Err(ResolveError::InvalidPath));
}

#[test]
fn test_normalize_dots_and_slashes() {
    let deck_path = join(ROOT, "a/deck.md");
    assert_eq!(resolver().normalize_path("./b//c/./d.png", &deck_path).unwrap(), "a/b/c/d.png");
    assert_eq!(resolver().normalize_path("@@//x/../y.png", &deck_path).unwrap(), "y.png");
    assert_eq!(resolver().normalize_path("@/../y.png", &deck_path), Err(ResolveError::OutsideDirectory));
}

#[test]
fn test_resolve_external_url() {
    assert_eq!(resolver().resolve("https://a/b.png"), Err(ResolveError::ExternalUrl));
}

#[test]
fn test_resolve_for_deck_normalizes_first() {
    let deck_path = join(ROOT, "deck.md");
    assert_eq!(resolver().resolve_for_deck("../x.png", &deck_path), Err(ResolveError::OutsideDirectory));
    assert_eq!(resolver().resolve_for_deck("missing.png", &deck_path), Err(ResolveError::NotFound));
}

#[test]
fn test_resolution_outcome() {
    let s = |x: &str| Some(x.to_string());
    assert_eq!(resolution_outcome(true, s("/c/a.png"), s("/c")), Err(ResolveError::Symlink));
    assert_eq!(resolution_outcome(false, None, s("/c")), Err(ResolveError::NotFound));
    assert_eq!(resolution_outcome(false, s("/c/a.png"), None), Err(ResolveError::NotFound));
    assert_eq!(resolution_outcome(false, s("/d/a.png"), s("/c")), Err(ResolveError::OutsideDirectory));
    assert_eq!(resolution_outcome(false, s("/c/x/a.png"), s("/c")), Ok("/c/x/a.png".to_string()));
}
