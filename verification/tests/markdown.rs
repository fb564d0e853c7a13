use hashcards::markdown::ImageQueue;
use hashcards::markdown::ImageRender;
use hashcards::markdown::is_audio_file;
use hashcards::markdown::markdown_to_html;
use hashcards::markdown::markdown_to_html_inline;

fn join(a: &str, b: &str) -> String {
    format!("{a}/{b}")
}

#[test]
fn test_markdown_to_html() {
    let collection_root = "/tmp/collection".to_string();
    let deck_path = join(&collection_root, "deck.md");
    let markdown = "![alt](image.png)";
    let html = markdown_to_html(markdown, 1234, &collection_root, &deck_path);
    assert_eq!(
        html,
        "<p><img src=\"http://localhost:1234/file/image.png\" alt=\"alt\" /></p>\n"
    );
}

#[test]
fn test_markdown_to_html_inline() {
    let collection_root = "/tmp/collection".to_string();
    let deck_path = join(&collection_root, "deck.md");
    let markdown = "This is **bold** text.";
    let html = markdown_to_html_inline(markdown, 0, &collection_root, &deck_path);
    assert_eq!(html, "This is <strong>bold</strong> text.");
}

#[test]
fn test_markdown_to_html_inline_heading() {
    let collection_root = "/tmp/collection".to_string();
    let deck_path = join(&collection_root, "deck.md");
    let markdown = "# Foo";
    let html = markdown_to_html_inline(markdown, 0, &collection_root, &deck_path);
    assert_eq!(html, "<h1>Foo</h1>\n");
}

#[test]
fn test_external_url_is_unchanged() {
    let collection_root = "/tmp/collection".to_string();
    let deck_path = join(&collection_root, "deck.md");
    let url = "https://upload.wikimedia.org/wikipedia/commons/6/63/Circe_Invidiosa_-_John_William_Waterhouse.jpg";
    let markdown = format!("![alt]({url})");
    let html = markdown_to_html(&markdown, 1234, &collection_root, &deck_path);
    assert_eq!(html, format!("<p><img src=\"{url}\" alt=\"alt\" /></p>\n"));
}

#[test]
fn test_deck_relative_path() {
    let collection_root = "/tmp/collection".to_string();
    let deck_path = join(&collection_root, "foo/bar/deck.md");
    let markdown = "![alt](img/test.jpg)";
    let html = markdown_to_html(markdown, 1234, &collection_root, &deck_path);
    assert_eq!(
        html,
        "<p><img src=\"http://localhost:1234/file/foo/bar/img/test.jpg\" alt=\"alt\" /></p>\n"
    );
}

#[test]
fn test_collection_relative_path() {
    let collection_root = "/tmp/collection".to_string();
    let deck_path = join(&collection_root, "foo/bar/deck.md");
    let markdown = "![alt](@/img/test.jpg)";
    let html = markdown_to_html(markdown, 1234, &collection_root, &deck_path);
    assert_eq!(
        html,
        "<p><img src=\"http://localhost:1234/file/img/test.jpg\" alt=\"alt\" /></p>\n"
    );
}

#[test]
fn test_audio_rendered_as_audio_element() {
    let html = markdown_to_html("![](sound.mp3 \"Hi\")", 80, "/c", "/c/deck.md");
    assert_eq!(
        html,
        "<p><audio controls src=\"http://localhost:80/file/sound.mp3\" title=\"Hi\"></audio></p>\n"
    );
}

#[test]
fn test_is_audio_file_extensions() {
    assert!(is_audio_file("a/b.mp3"));
    assert!(is_audio_file("x.wav"));
    assert!(is_audio_file("x.ogg"));
    assert!(!is_audio_file("x.png"));
    // A name without a dot is its own extension.
    assert!(is_audio_file("mp3"));
}

#[test]
fn test_inline_keeps_multiple_paragraphs() {
    // "<p>a</p>\n<p>b</p>\n" begins with "<p>" and ends with "</p>\n", so
    // the outer tags go.
    let html = markdown_to_html_inline("a\n\nb", 0, "/c", "/c/d.md");
    assert_eq!(html, "a</p>\n<p>b");
}

#[test]
fn test_image_queue_hands_out_in_order() {
    let mut q = ImageQueue::new(vec![
        ImageRender::Html("<audio/>".to_string()),
        ImageRender::Image("/file/a.png".to_string()),
    ]);
    assert!(matches!(q.next_render(), Some(ImageRender::Html(h)) if h == "<audio/>"));
    assert!(matches!(q.next_render(), Some(ImageRender::Image(u)) if u == "/file/a.png"));
    assert!(q.next_render().is_none());
    assert!(q.next_render().is_none());
}
