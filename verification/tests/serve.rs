use hashcards::cmd::serve::hedgedoc::record_sync;
use hashcards::cmd::serve::state::HedgedocSource;
use hashcards::cmd::serve::hedgedoc::with_hedgedoc_entries;
use hashcards::cmd::serve::config::ResolvedCollection;
use hashcards::cmd::serve::session::find_collection;
use hashcards::cmd::serve::config::collection_for_directory;
use hashcards::cmd::serve::config::ResolvedServeConfig;
use hashcards::cmd::serve::git::collection_counts;
use hashcards::cmd::serve::git::unknown_card_hashes;
use hashcards::cmd::serve::hedgedoc::download_url;
use hashcards::error::ErrorReport;
use hashcards::media::file_extension;
use hashcards::types::card::Card;
use hashcards::types::card::CardContent;
use hashcards::types::date::Timestamp;
use std::collections::HashSet;

fn card(q: &str) -> Card {
    Card::new("d".to_string(), "d.md".to_string(), (0, 1), CardContent::new_basic(q, "a"))
}

#[test]
fn test_download_url() {
    assert_eq!(download_url("https://notes.example.com/abc"), "https://notes.example.com/abc/download");
    assert_eq!(download_url("https://notes.example.com/abc//"), "https://notes.example.com/abc/download");
}

#[test]
fn test_unknown_card_hashes_and_counts() {
    let cards = vec![card("1"), card("2"), card("3")];
    let known: HashSet<u64> = [cards[1].hash().value].into_iter().collect();
    assert_eq!(unknown_card_hashes(&cards, &known), vec![cards[0].hash().value, cards[2].hash().value]);
    assert_eq!(collection_counts(&cards, &known), (3, 1));
}

#[test]
fn test_collection_for_directory() {
    let rc = collection_for_directory("/home/me/My Cards", "cards");
    assert_eq!(rc.name, "My Cards");
    assert_eq!(rc.slug, "My Cards");
    assert_eq!(rc.coll_dir, "/home/me/My Cards");
    assert_eq!(rc.db_path, "/home/me/My Cards/hashcards.db");
    let rc = collection_for_directory("/", "root");
    assert_eq!(rc.name, "root");
    let config = ResolvedServeConfig::from_collections(vec![rc], "0.0.0.0".to_string(), 8000);
    assert!(config.git.is_none());
    assert!(config.defaults.bury_siblings);
    assert_eq!(config.collections.len(), 1);
}

#[test]
fn test_timestamp_parse() {
    let t = Timestamp::parse("2025-03-04T05:06:07").unwrap();
    assert_eq!(t.to_string(), "2025-03-04T05:06:07");
    assert!(Timestamp::parse("2025-03-04 05:06:07").is_none());
}

#[test]
fn test_file_extension() {
    assert_eq!(file_extension("/a/b.tar.gz"), "gz");
    assert_eq!(file_extension("/a/.hidden"), "");
    assert_eq!(file_extension("/a/b."), "");
    assert_eq!(file_extension("/"), "");
}

#[test]
fn test_error_report_text() {
    let e = ErrorReport::new("directory does not exist.");
    assert_eq!(e.to_string(), "error: directory does not exist.");
}

#[test]
fn test_find_collection_by_slug() {
    let rc = |name: &str, slug: &str| ResolvedCollection {
        name: name.to_string(),
        slug: slug.to_string(),
        coll_dir: format!("/data/{slug}"),
        db_path: format!("/data/{slug}.db"),
    };
    let cs = vec![rc("Maths", "maths"), rc("Notes", "notes"), rc("Other", "notes")];
    assert_eq!(find_collection(&cs, "notes").map(|c| c.name.as_str()), Some("Notes"));
    assert_eq!(find_collection(&cs, "maths").map(|c| c.name.as_str()), Some("Maths"));
    assert!(find_collection(&cs, "nothing").is_none());
    assert!(find_collection(&Vec::new(), "maths").is_none());
}

#[test]
fn test_with_hedgedoc_entries_sets_and_keeps() {
    let text = "[server]\nhost = \"0.0.0.0\"\nport = 8000\n\n[[hedgedoc]]\nurl = \"https://old.example/x\"\n";
    let urls = vec!["https://a.example/1".to_string(), "https://b.example/2".to_string()];
    let out = with_hedgedoc_entries(text, &urls).ok().unwrap();
    let doc: toml::Value = toml::from_str(&out).unwrap();
    let t = doc.as_table().unwrap();
    assert_eq!(t["server"]["host"].as_str(), Some("0.0.0.0"));
    assert_eq!(t["server"]["port"].as_integer(), Some(8000));
    let arr = t["hedgedoc"].as_array().unwrap();
    assert_eq!(arr.len(), 2);
    assert_eq!(arr[0]["url"].as_str(), Some("https://a.example/1"));
    assert_eq!(arr[1]["url"].as_str(), Some("https://b.example/2"));
}

#[test]
fn test_with_hedgedoc_entries_removes_when_empty() {
    let text = "title = \"x\"\n\n[[hedgedoc]]\nurl = \"https://old.example/x\"\n";
    let out = with_hedgedoc_entries(text, &Vec::new()).ok().unwrap();
    let doc: toml::Value = toml::from_str(&out).unwrap();
    let t = doc.as_table().unwrap();
    assert!(t.get("hedgedoc").is_none());
    assert_eq!(t["title"].as_str(), Some("x"));
}

#[test]
fn test_with_hedgedoc_entries_rejects_bad_toml() {
    assert!(with_hedgedoc_entries("this is = = not toml", &Vec::new()).is_err());
}

#[test]
fn test_record_sync() {
    let src = |url: &str, name: &str| HedgedocSource {
        url: url.to_string(),
        collection: ResolvedCollection {
            name: name.to_string(),
            slug: name.to_string(),
            coll_dir: format!("/d/{name}"),
            db_path: format!("/d/{name}.db"),
        },
        last_error: Some("old".to_string()),
    };
    let mut ss = vec![src("https://h/a", "a"), src("https://h/b", "b"), src("https://h/b", "b2")];
    record_sync(&mut ss, "https://h/b", Ok("Title".to_string()));
    assert_eq!(ss[1].collection.name, "Title");
    assert_eq!(ss[1].last_error, None);
    assert_eq!(ss[2].collection.name, "b2");
    assert_eq!(ss[2].last_error.as_deref(), Some("old"));
    assert_eq!(ss[0].collection.name, "a");
    record_sync(&mut ss, "https://h/a", Err(ErrorReport::new("boom")));
    assert_eq!(ss[0].last_error.as_deref(), Some("error: boom"));
    assert_eq!(ss[0].collection.name, "a");
    record_sync(&mut ss, "https://h/none", Ok("X".to_string()));
    assert_eq!(ss.len(), 3);
    assert_eq!(ss[0].collection.name, "a");
}
