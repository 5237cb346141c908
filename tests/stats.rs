use meme_server::{get_meme_stats, stats_fit, FileEntry};

fn entry(name: &str, size: Option<u64>) -> FileEntry {
    FileEntry {
        name: name.to_string(),
        path: format!("memes/{}", name),
        size,
        modified_secs: None,
    }
}

#[test]
fn stats_of_three_sizes() {
    let entries = vec![entry("a.png", Some(10)), entry("b.jpg", Some(5)), entry("c.gif", Some(20))];
    assert!(stats_fit(&entries));
    let s = get_meme_stats(&entries);
    assert_eq!(s.total_memes, 3);
    assert_eq!(s.total_size_bytes, 35);
    assert_eq!(s.average_file_size, 11);
    assert_eq!(s.largest_file_size, 20);
    assert_eq!(s.largest_file_name, "c.gif");
    assert_eq!(s.smallest_file_size, 5);
    assert_eq!(s.smallest_file_name, "b.jpg");
}

#[test]
fn stats_of_empty_directory() {
    let s = get_meme_stats(&Vec::new());
    assert_eq!(s.total_memes, 0);
    assert_eq!(s.total_size_bytes, 0);
    assert_eq!(s.average_file_size, 0);
    assert_eq!(s.largest_file_name, "");
    assert_eq!(s.smallest_file_size, 0);
    assert!(s.file_types.is_empty());
}

#[test]
fn stats_merge_jpg_into_jpeg() {
    let entries = vec![
        entry("a.jpg", Some(1)),
        entry("b.JPEG", Some(1)),
        entry("c.gif", Some(1)),
        entry("d.txt", Some(100)),
    ];
    let s = get_meme_stats(&entries);
    assert_eq!(s.total_memes, 3);
    assert_eq!(s.total_size_bytes, 3);
    assert_eq!(s.file_types, vec![("jpeg".to_string(), 2), ("gif".to_string(), 1)]);
}

#[test]
fn stats_tie_keeps_first_largest() {
    let entries = vec![entry("a.png", Some(7)), entry("b.png", Some(7))];
    let s = get_meme_stats(&entries);
    assert_eq!(s.largest_file_name, "a.png");
    assert_eq!(s.smallest_file_name, "a.png");
    assert_eq!(s.file_types, vec![("png".to_string(), 2)]);
}

#[test]
fn stats_zero_byte_file_is_replaced_as_smallest() {
    let entries = vec![entry("empty.png", Some(0)), entry("big.png", Some(9))];
    let s = get_meme_stats(&entries);
    assert_eq!(s.smallest_file_size, 9);
    assert_eq!(s.smallest_file_name, "big.png");
}

#[test]
fn stats_unreadable_size_counts_but_adds_nothing() {
    let entries = vec![entry("a.png", None), entry("b.png", Some(4))];
    let s = get_meme_stats(&entries);
    assert_eq!(s.total_memes, 2);
    assert_eq!(s.total_size_bytes, 4);
    assert_eq!(s.average_file_size, 2);
}

#[test]
fn stats_that_would_overflow_do_not_fit() {
    let entries = vec![entry("a.png", Some(u64::MAX)), entry("b.png", Some(1))];
    assert!(!stats_fit(&entries));
    let ok = vec![entry("a.png", Some(u64::MAX)), entry("b.txt", Some(1))];
    assert!(stats_fit(&ok));
}
