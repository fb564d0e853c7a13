use hashcards::media::load::disk_outcome;
use hashcards::media::canon::MediaCanonicalizer;
use hashcards::media::extract_media_paths;
use hashcards::media::report_missing;
use hashcards::media::validate_media_files;
use hashcards::media::MissingMedia;
use hashcards::media::load::MediaLoader;
use hashcards::media::load::MediaLoaderError;
use hashcards::media::new_resolve::MediaResolver;
use hashcards::media::new_resolve::MediaResolverBuilder;
use hashcards::media::new_resolve::ResolveError;
use hashcards::types::card::Card;
use hashcards::types::card::CardContent;

const ROOT: &str = "/tmp/hashcards-test-media";

fn join(a: &str, b: &str) -> String {
    format!("{a}/{b}")
}

#[test]
fn test_abs_rejected() {
    let loader = MediaLoader::new(ROOT.to_string());
    assert_eq!(loader.validate("/etc/passwd"), Err(MediaLoaderError::Absolute));
}

#[test]
fn test_parent() {
    let loader = MediaLoader::new(ROOT.to_string());
    assert_eq!(
        loader.validate("../../../../../../../../../../etc/passwd"),
        Err(MediaLoaderError::ParentComponent)
    );
}

#[test]
fn test_loader_missing_file() {
    let loader = MediaLoader::new(ROOT.to_string());
    assert_eq!(loader.validate("nothing/here.png"), Err(MediaLoaderError::NotFound));
    // `a/../b` has a parent component even though it stays inside.
    assert_eq!(loader.validate("a/../b.png"), Err(MediaLoaderError::ParentComponent));
}

#[test]
fn test_empty_strings_are_rejected() {
    let coll_path = ROOT.to_string();
    let deck_path = join(&coll_path, "deck.md");
    let r: MediaResolver = MediaResolverBuilder::new()
        .with_collection_path(coll_path)
        .with_deck_path(deck_path)
        .build();
    assert_eq!(r.resolve(""), Err(ResolveError::Empty));
    assert_eq!(r.resolve(" "), Err(ResolveError::Empty));
}

#[test]
fn test_new_resolver_collection_relative() {
    let r = MediaResolverBuilder::new()
        .with_collection_path(ROOT.to_string())
        .with_deck_path("deck.md".to_string())
        .build();
    assert_eq!(r.resolve(" @/img/a.png "), Ok("img/a.png".to_string()));
    assert_eq!(r.resolve("@//etc/passwd"), Err(ResolveError::AbsolutePath));
    assert_eq!(r.resolve("https://x/y.png"), Err(ResolveError::ExternalUrl));
    assert_eq!(r.resolve("missing-file-here.png"), Err(ResolveError::InvalidPath));
}

#[test]
fn test_canonicalize_path_external_url() {
    let root = ROOT.to_string();
    let canonicalizer = MediaCanonicalizer::new(root.clone());
    let deck_file_dir = join(&root, "decks");
    let url = "https://example.com/image.jpg";
    let result = canonicalizer.canonicalize_path(url, &deck_file_dir).ok().unwrap();
    assert_eq!(result, url);
}

#[test]
fn test_canonicalize_path_already_canonical() {
    let root = ROOT.to_string();
    let canonicalizer = MediaCanonicalizer::new(root.clone());
    let deck_file_dir = join(&root, "decks");
    let path = "@/images/photo.jpg";
    let result = canonicalizer.canonicalize_path(path, &deck_file_dir).ok().unwrap();
    assert_eq!(result, path);
}

#[test]
fn test_canonicalize_path_relative() {
    let root = ROOT.to_string();
    let canonicalizer = MediaCanonicalizer::new(root.clone());
    let deck_file_dir = join(&root, "decks");
    let result = canonicalizer.canonicalize_path("image.jpg", &deck_file_dir).ok().unwrap();
    assert_eq!(result, "@/decks/image.jpg");
}

#[test]
fn test_canonicalize_path_relative_subdirectory() {
    let root = ROOT.to_string();
    let canonicalizer = MediaCanonicalizer::new(root.clone());
    let deck_file_dir = join(&root, "decks");
    let result = canonicalizer.canonicalize_path("images/photo.jpg", &deck_file_dir).ok().unwrap();
    assert_eq!(result, "@/decks/images/photo.jpg");
}

#[test]
fn test_canonicalize_path_relative_parent() {
    let root = ROOT.to_string();
    let deck_dir = join(&join(&root, "decks"), "subdeck");
    let canonicalizer = MediaCanonicalizer::new(root.clone());
    let result = canonicalizer.canonicalize_path("../image.jpg", &deck_dir).ok().unwrap();
    assert_eq!(result, "@/decks/image.jpg");
}

#[test]
fn test_canonicalize_path_folds_dots() {
    let canonicalizer = MediaCanonicalizer::new("/c".to_string());
    let r = |p: &str, d: &str| canonicalizer.canonicalize_path(p, d).ok().unwrap();
    assert_eq!(r("./a/../b/./x.jpg", "/c/decks"), "@/decks/b/x.jpg");
    assert_eq!(r("../../x.jpg", "/c/decks/sub"), "@/x.jpg");
    // Climbing above the root leaves the collection.
    let outside = canonicalizer.canonicalize_path("../../x.jpg", "/c/decks");
    match outside {
        Err(e) => assert_eq!(
            e.message_text(),
            "Path /c/decks/../../x.jpg is outside the collection directory"
        ),
        Ok(_) => panic!("expected an error"),
    }
}

#[test]
fn test_canonicalize_path_outside() {
    let canonicalizer = MediaCanonicalizer::new("/c".to_string());
    let result = canonicalizer.canonicalize_path("x.jpg", "/elsewhere");
    match result {
        Err(e) => assert_eq!(
            e.message_text(),
            "Path /elsewhere/x.jpg is outside the collection directory"
        ),
        Ok(_) => panic!("expected an error"),
    }
}

#[test]
fn test_canonicalize_markdown_basic() {
    let root = ROOT.to_string();
    let deck_dir = join(&root, "decks");
    let canonicalizer = MediaCanonicalizer::new(root.clone());
    let markdown = "Here is an image: ![alt](image.jpg) and another ![](photo.png)";
    let result = canonicalizer.canonicalize_markdown(markdown, &deck_dir).ok().unwrap();
    assert_eq!(
        result,
        "Here is an image: ![alt](@/decks/image.jpg) and another ![](@/decks/photo.png)"
    );
}

#[test]
fn test_canonicalize_markdown_mixed_paths() {
    let root = ROOT.to_string();
    let deck_dir = join(&root, "decks");
    let canonicalizer = MediaCanonicalizer::new(root.clone());
    let markdown =
        "External: ![](https://example.com/img.jpg) Canonical: ![](@/media/img.jpg) Relative: ![](local.jpg)";
    let result = canonicalizer.canonicalize_markdown(markdown, &deck_dir).ok().unwrap();
    assert_eq!(
        result,
        "External: ![](https://example.com/img.jpg) Canonical: ![](@/media/img.jpg) Relative: ![](@/decks/local.jpg)"
    );
}

#[test]
fn test_canonicalize_markdown_outside_collection() {
    let canonicalizer = MediaCanonicalizer::new("/c".to_string());
    let result = canonicalizer.canonicalize_markdown("![](a.png) ![](b.png)", "/d");
    match result {
        Err(e) => assert_eq!(e.message_text(), "Path /d/a.png is outside the collection directory"),
        Ok(_) => panic!("expected an error"),
    }
}

#[test]
fn test_canonicalize_card_basic() {
    let root = ROOT.to_string();
    let deck_file = join(&join(&root, "decks"), "test.md");
    let canonicalizer = MediaCanonicalizer::new(root.clone());
    let card = Card::new(
        "test".to_string(),
        deck_file.clone(),
        (1, 10),
        CardContent::new_basic("What is this? ![](question.jpg)", "Answer: ![](answer.jpg)"),
    );
    let result = canonicalizer.canonicalize_card(card).ok().unwrap();
    match result.content() {
        CardContent::Basic { question, answer } => {
            assert_eq!(question, "What is this? ![](@/decks/question.jpg)");
            assert_eq!(answer, "Answer: ![](@/decks/answer.jpg)");
        }
        _ => panic!("Expected Basic card"),
    }
}

#[test]
fn test_canonicalize_card_cloze() {
    let root = ROOT.to_string();
    let deck_file = join(&join(&root, "decks"), "test.md");
    let canonicalizer = MediaCanonicalizer::new(root.clone());
    let text = "The [capital] of France is Paris";
    let card = Card::new(
        "test".to_string(),
        deck_file.clone(),
        (1, 10),
        CardContent::new_cloze(text, 5, 11),
    );
    let result = canonicalizer.canonicalize_card(card).ok().unwrap();
    match result.content() {
        CardContent::Cloze { text, start, end } => {
            assert_eq!(text, "The [capital] of France is Paris");
            assert_eq!(*start, 5);
            assert_eq!(*end, 11);
        }
        _ => panic!("Expected Cloze card"),
    }
}

#[test]
fn test_canonicalize_card_cloze_with_image() {
    let root = ROOT.to_string();
    let deck_file = join(&join(&root, "decks"), "test.md");
    let canonicalizer = MediaCanonicalizer::new(root.clone());
    let text = "See ![](img.jpg) The [capital] of France";
    let start = 21;
    let end = 27;
    let card = Card::new(
        "test".to_string(),
        deck_file.clone(),
        (1, 10),
        CardContent::new_cloze(text, start, end),
    );
    let result = canonicalizer.canonicalize_card(card).ok().unwrap();
    match result.content() {
        CardContent::Cloze { text: new_text, start: new_start, end: new_end } => {
            assert_eq!(new_text, "See ![](@/decks/img.jpg) The [capital] of France");
            assert_eq!(*new_start, start + 8);
            assert_eq!(*new_end, end + 8);
        }
        _ => panic!("Expected Cloze card"),
    }
}

#[test]
fn test_canonicalize_card_cloze_image_after_deletion() {
    // An image after the deletion leaves its positions unchanged.
    let canonicalizer = MediaCanonicalizer::new("/c".to_string());
    let card = Card::new(
        "d".to_string(),
        "/c/decks/d.md".to_string(),
        (0, 1),
        CardContent::new_cloze("The [x] and ![](i.png)", 5, 5),
    );
    let result = canonicalizer.canonicalize_card(card).ok().unwrap();
    match result.content() {
        CardContent::Cloze { text, start, end } => {
            assert_eq!(text, "The [x] and ![](@/decks/i.png)");
            assert_eq!(*start, 5);
            assert_eq!(*end, 5);
        }
        _ => panic!("Expected Cloze card"),
    }
}

#[test]
fn test_canonicalize_cards_batch() {
    let root = ROOT.to_string();
    let deck_file = join(&join(&root, "decks"), "test.md");
    let canonicalizer = MediaCanonicalizer::new(root.clone());
    let cards = vec![
        Card::new(
            "test".to_string(),
            deck_file.clone(),
            (1, 5),
            CardContent::new_basic("Q: ![](q1.jpg)", "A: ![](a1.jpg)"),
        ),
        Card::new(
            "test".to_string(),
            deck_file.clone(),
            (6, 10),
            CardContent::new_basic("Q: ![](q2.jpg)", "A: ![](a2.jpg)"),
        ),
    ];
    let results = canonicalizer.canonicalize_cards(cards).ok().unwrap();
    assert_eq!(results.len(), 2);
    match results[0].content() {
        CardContent::Basic { question, answer } => {
            assert_eq!(question, "Q: ![](@/decks/q1.jpg)");
            assert_eq!(answer, "A: ![](@/decks/a1.jpg)");
        }
        _ => panic!("Expected Basic card"),
    }
    match results[1].content() {
        CardContent::Basic { question, answer } => {
            assert_eq!(question, "Q: ![](@/decks/q2.jpg)");
            assert_eq!(answer, "A: ![](@/decks/a2.jpg)");
        }
        _ => panic!("Expected Basic card"),
    }
}

#[test]
fn test_canonicalize_cards_checked_without_parent() {
    // A card whose file path has no parent directory is refused.
    let canonicalizer = MediaCanonicalizer::new("/c".to_string());
    let cards = vec![Card::new(
        "d".to_string(),
        "/".to_string(),
        (0, 1),
        CardContent::new_basic("Q", "A"),
    )];
    assert!(canonicalizer.canonicalize_cards_checked(cards).is_none());
}

#[test]
fn test_extract_media_paths() {
    let markdown = "Here is an image: ![alt](foo.jpg)\nAnd another: ![](bar.png)";
    let paths = extract_media_paths(markdown);
    assert_eq!(paths, vec!["foo.jpg", "bar.png"]);
}

#[test]
fn test_extract_media_paths_with_audio() {
    let markdown = "Audio file: ![](sound.mp3)";
    let paths = extract_media_paths(markdown);
    assert_eq!(paths, vec!["sound.mp3"]);
}

#[test]
fn test_extract_media_paths_no_media() {
    let markdown = "Just some **bold** text.";
    let paths = extract_media_paths(markdown);
    assert!(paths.is_empty());
}

#[test]
fn test_extract_media_paths_with_urls() {
    let markdown = "![](https://example.com/image.jpg) and ![](local.png)";
    let paths = extract_media_paths(markdown);
    assert_eq!(paths, vec!["https://example.com/image.jpg", "local.png"]);
}

fn missing(path: &str, file: &str, lines: (usize, usize)) -> MissingMedia {
    MissingMedia { file_path: path.to_string(), card_file: file.to_string(), card_lines: lines }
}

#[test]
fn test_report_missing_empty_is_ok() {
    assert!(report_missing(&Vec::new()).is_ok());
}

#[test]
fn test_report_missing_sorted_and_deduplicated() {
    let ms = vec![
        missing("z.png", "/c/b.md", (3, 4)),
        missing("y.png", "/c/a.md", (7, 8)),
        missing("x.png", "/c/a.md", (7, 8)),
        missing("z.png", "/c/b.md", (3, 4)),
        missing("w.png", "/c/a.md", (1, 2)),
    ];
    let err = report_missing(&ms).err().unwrap();
    assert_eq!(
        err.message_text(),
        "Missing media files referenced in cards:\n  - w.png (referenced in /c/a.md:1)\n  - x.png (referenced in /c/a.md:7)\n  - y.png (referenced in /c/a.md:7)\n  - z.png (referenced in /c/b.md:3)\n"
    );
}

#[test]
fn test_validate_media_files_reports_missing_local_files() {
    let cards = vec![Card::new(
        "d".to_string(),
        "/c/d.md".to_string(),
        (2, 3),
        CardContent::new_basic("![](https://example.com/a.png)", "![](hashcards-no-such-file.png)"),
    )];
    let err = validate_media_files(&cards, "/hashcards-no-such-dir").err().unwrap();
    assert_eq!(
        err.message_text(),
        "Missing media files referenced in cards:\n  - hashcards-no-such-file.png (referenced in /c/d.md:2)\n"
    );
}

#[test]
fn test_validate_media_files_urls_only() {
    let cards = vec![Card::new(
        "d".to_string(),
        "/c/d.md".to_string(),
        (2, 3),
        CardContent::new_cloze("[x] ![](https://example.com/a.png)", 1, 1),
    )];
    assert!(validate_media_files(&cards, "/hashcards-no-such-dir").is_ok());
}

#[test]
fn test_relative_to_collection() {
    let r: MediaResolver = MediaResolverBuilder::new()
        .with_collection_path("/notes/coll".to_string())
        .with_deck_path("deck.md".to_string())
        .build();
    assert_eq!(r.relative_to_collection("/notes/coll/img/a.png"), Ok("img/a.png".to_string()));
    assert_eq!(r.relative_to_collection("/notes/coll/./b.png"), Ok("b.png".to_string()));
    assert_eq!(r.relative_to_collection("/notes/collection/a.png"), Err(ResolveError::InvalidPath));
    assert_eq!(r.relative_to_collection("/etc/passwd"), Err(ResolveError::InvalidPath));
}

#[test]
fn test_loader_disk_outcome() {
    let p = || "/c/a.png".to_string();
    assert_eq!(disk_outcome(p(), false, false, false), Err(MediaLoaderError::NotFound));
    assert_eq!(disk_outcome(p(), true, false, true), Err(MediaLoaderError::NotFile));
    assert_eq!(disk_outcome(p(), true, true, true), Err(MediaLoaderError::SymbolicLink));
    assert_eq!(disk_outcome(p(), true, true, false), Ok("/c/a.png".to_string()));
}

#[test]
fn test_canonicalize_card_cloze_byte_positions() {
    // The URL starts at character 7 but byte 9: positions are bytes, so a
    // deletion at byte 8 stays put, one at byte 9 moves by the byte growth.
    let canonicalizer = MediaCanonicalizer::new("/c".to_string());
    let text = "éé ![](i.jpg) X";
    let moved = |start: usize, end: usize| {
        let card = Card::new(
            "d".to_string(),
            "/c/decks/d.md".to_string(),
            (0, 1),
            CardContent::new_cloze(text, start, end),
        );
        match canonicalizer.canonicalize_card(card).ok().unwrap().content() {
            CardContent::Cloze { text, start, end } => (text.clone(), *start, *end),
            _ => panic!("Expected Cloze card"),
        }
    };
    let (t, s, e) = moved(8, 8);
    assert_eq!(t, "éé ![](@/decks/i.jpg) X");
    assert_eq!((s, e), (8, 8));
    assert_eq!(moved(9, 9).1, 9 + 8);
    assert_eq!(moved(2, 9), (t.clone(), 2, 9 + 8));
}

#[test]
fn test_resolve_relative_to_deck_directory() {
    // A deck-relative path is taken from the directory of the deck file.
    let r: MediaResolver = MediaResolverBuilder::new()
        .with_collection_path("/usr".to_string())
        .with_deck_path("bin/deck.md".to_string())
        .build();
    assert_eq!(r.resolve("."), Ok("bin".to_string()));
    assert_eq!(r.resolve("../lib"), Ok("lib".to_string()));
    assert_eq!(r.resolve("../.."), Err(ResolveError::InvalidPath));
    assert_eq!(r.resolve("@/img/a.png"), Ok("img/a.png".to_string()));
    assert_eq!(r.resolve("https://x.org/a.png"), Err(ResolveError::ExternalUrl));
    assert_eq!(r.resolve("@//etc/passwd"), Err(ResolveError::AbsolutePath));
}
