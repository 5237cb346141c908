use meme_server::{list_templates, matches_folded, search_memes, FileEntry, SearchQuery};

fn entry(name: &str, size: Option<u64>) -> FileEntry {
    FileEntry {
        name: name.to_string(),
        path: format!("memes/{}", name),
        size,
        modified_secs: None,
    }
}

#[test]
fn listing_keeps_only_images() {
    let entries = vec![
        entry("a.JPG", Some(3)),
        entry("notes.txt", Some(1)),
        entry("b.gif", None),
        entry("c.webp", Some(2)),
    ];
    let r = list_templates(&entries);
    assert_eq!(r.total_count, 1);
    assert_eq!(r.templates.len(), 1);
    assert_eq!(r.templates[0].name, "a.JPG");
    assert_eq!(r.templates[0].path, "memes/a.JPG");
    assert_eq!(r.templates[0].file_type, "jpg");
    assert_eq!(r.templates[0].size_bytes, 3);
    assert_eq!(r.templates[0].last_modified, None);
}

#[test]
fn listing_leaves_out_unreadable_entries() {
    let entries = vec![entry("a.png", None), entry("b.png", Some(0)), entry("c.gif", None)];
    let r = list_templates(&entries);
    assert_eq!(r.total_count, 1);
    assert_eq!(r.templates[0].name, "b.png");
    assert_eq!(r.templates[0].size_bytes, 0);
}

#[test]
fn listing_is_sorted_by_name() {
    let entries = vec![
        entry("b.png", Some(1)),
        entry("a.png", Some(2)),
        entry("A.png", Some(3)),
        entry("ab.gif", Some(4)),
    ];
    let r = list_templates(&entries);
    let names: Vec<&str> = r.templates.iter().map(|t| t.name.as_str()).collect();
    assert_eq!(names, vec!["A.png", "a.png", "ab.gif", "b.png"]);
    assert_eq!(r.templates[1].size_bytes, 2);
}

#[test]
fn listing_of_empty_directory() {
    let r = list_templates(&Vec::new());
    assert_eq!(r.total_count, 0);
    assert!(r.templates.is_empty());
}

#[test]
fn modification_time_is_rendered() {
    let mut e = entry("t.png", Some(1));
    e.modified_secs = Some(0);
    let r = list_templates(&vec![e]);
    assert_eq!(r.templates[0].last_modified, Some("1970-01-01T00:00:00+00:00".to_string()));
}

#[test]
fn modification_time_out_of_range_is_dropped() {
    let mut e = entry("t.png", Some(1));
    e.modified_secs = Some(i64::MAX);
    let r = list_templates(&vec![e]);
    assert_eq!(r.templates[0].last_modified, None);
}

#[test]
fn search_is_case_insensitive_substring() {
    let entries = vec![
        entry("Cat1.png", Some(1)),
        entry("dog.png", Some(2)),
        entry("scatter.jpg", Some(3)),
    ];
    let r = search_memes(&SearchQuery { q: "cat".to_string() }, &entries);
    assert_eq!(r.query, "cat");
    assert_eq!(r.count, 2);
    let names: Vec<&str> = r.results.iter().map(|t| t.name.as_str()).collect();
    assert_eq!(names, vec!["Cat1.png", "scatter.jpg"]);
}

#[test]
fn search_folds_the_term() {
    let entries = vec![entry("cat.png", Some(1)), entry("cat.txt", Some(1))];
    let r = search_memes(&SearchQuery { q: "CAT".to_string() }, &entries);
    assert_eq!(r.query, "cat");
    assert_eq!(r.count, 1);
    assert_eq!(r.results[0].name, "cat.png");
}

#[test]
fn empty_term_matches_every_image() {
    let entries = vec![entry("a.png", Some(1)), entry("b.gif", Some(2)), entry("c.doc", Some(3))];
    let r = search_memes(&SearchQuery { q: String::new() }, &entries);
    assert_eq!(r.count, 2);
}

#[test]
fn search_leaves_out_unreadable_entries() {
    let entries = vec![entry("cat.png", None), entry("bobcat.gif", Some(8))];
    let r = search_memes(&SearchQuery { q: "Cat".to_string() }, &entries);
    assert_eq!(r.count, 1);
    assert_eq!(r.results[0].name, "bobcat.gif");
    assert_eq!(r.results[0].size_bytes, 8);
}

#[test]
fn folded_matching() {
    assert!(matches_folded("cat", "scatter.jpg"));
    assert!(matches_folded("cat", "cat"));
    assert!(matches_folded("", "x"));
    assert!(!matches_folded("cat", "ca"));
    assert!(!matches_folded("cat", "dog.png"));
    assert!(!matches_folded("cat", "Cat1.png"));
}
