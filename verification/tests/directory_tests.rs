use bevy_asset_preview::directory::alphabetical_sort;
use bevy_asset_preview::directory::has_to_stand_behind;
use bevy_asset_preview::directory::is_text_before;
use bevy_asset_preview::directory::reverse_alphabetical_sort;
use bevy_asset_preview::AssetBrowserLocation;
use bevy_asset_preview::DirectoryContent;
use bevy_asset_preview::DirectoryContentOrder;
use bevy_asset_preview::Entry;
use std::cmp::Ordering;

fn folder(name: &str) -> Entry {
    Entry::Folder(String::from(name))
}

fn file(name: &str) -> Entry {
    Entry::File(String::from(name))
}

#[test]
fn texts_are_ordered_like_strings() {
    let texts = ["", "a", "B", "ab", "abc", "b", "ä", "z", "Z", "aa", "a b", "10", "9"];
    for a in texts {
        for b in texts {
            assert_eq!(is_text_before(a, b), a < b, "{a:?} before {b:?}");
        }
    }
}

#[test]
fn entries_compare_by_kind_then_name() {
    assert_eq!(alphabetical_sort(&folder("b"), &folder("a")), Ordering::Greater);
    assert_eq!(alphabetical_sort(&folder("a"), &folder("b")), Ordering::Less);
    assert_eq!(alphabetical_sort(&file("a"), &file("a")), Ordering::Equal);
    assert_eq!(alphabetical_sort(&file("a"), &folder("z")), Ordering::Greater);
    assert_eq!(alphabetical_sort(&folder("z"), &file("a")), Ordering::Less);
    assert_eq!(reverse_alphabetical_sort(&folder("b"), &folder("a")), Ordering::Less);
    assert_eq!(reverse_alphabetical_sort(&file("a"), &file("b")), Ordering::Greater);
    assert_eq!(reverse_alphabetical_sort(&file("a"), &folder("z")), Ordering::Greater);
    assert_eq!(reverse_alphabetical_sort(&folder("z"), &file("a")), Ordering::Less);
    let source = Entry::Source(String::from("default"));
    assert_eq!(alphabetical_sort(&source, &file("a")), Ordering::Equal);
    assert_eq!(alphabetical_sort(&folder("a"), &source), Ordering::Equal);
    assert_eq!(reverse_alphabetical_sort(&source, &source), Ordering::Equal);
    assert!(has_to_stand_behind(DirectoryContentOrder::Alphabetical, &file("a"), &folder("b")));
    assert!(!has_to_stand_behind(DirectoryContentOrder::Alphabetical, &folder("b"), &file("a")));
}

#[test]
fn directory_is_sorted_folders_first() {
    let mut content = DirectoryContent(vec![
        file("zebra.png"),
        folder("textures"),
        file("apple.png"),
        folder("audio"),
        file("apple.png"),
        folder("models"),
    ]);
    DirectoryContentOrder::Alphabetical.sort(&mut content);
    assert_eq!(
        content,
        DirectoryContent(vec![
            folder("audio"),
            folder("models"),
            folder("textures"),
            file("apple.png"),
            file("apple.png"),
            file("zebra.png"),
        ])
    );
    DirectoryContentOrder::ReverseAlphabetical.sort(&mut content);
    assert_eq!(
        content,
        DirectoryContent(vec![
            folder("textures"),
            folder("models"),
            folder("audio"),
            file("zebra.png"),
            file("apple.png"),
            file("apple.png"),
        ])
    );
}

#[test]
fn sorting_matches_the_standard_sort() {
    let names = ["m", "a", "z", "ab", "", "B", "ä", "a", "zz"];
    let mut entries = Vec::new();
    for (i, name) in names.iter().enumerate() {
        entries.push(if i % 3 == 0 { folder(name) } else { file(name) });
    }
    let mut expected = entries.clone();
    expected.sort_by(alphabetical_sort);
    let mut content = DirectoryContent(entries.clone());
    DirectoryContentOrder::Alphabetical.sort(&mut content);
    assert_eq!(content.0, expected);

    let mut expected = entries.clone();
    expected.sort_by(reverse_alphabetical_sort);
    let mut content = DirectoryContent(entries);
    DirectoryContentOrder::ReverseAlphabetical.sort(&mut content);
    assert_eq!(content.0, expected);
}

#[test]
fn sources_keep_their_entries() {
    let mut content = DirectoryContent(vec![
        Entry::Source(String::from("embedded")),
        Entry::Source(String::from("default")),
    ]);
    DirectoryContentOrder::Alphabetical.sort(&mut content);
    assert_eq!(content.0.len(), 2);
    assert!(content.0.contains(&Entry::Source(String::from("embedded"))));
    assert!(content.0.contains(&Entry::Source(String::from("default"))));

    let mut empty = DirectoryContent::default();
    DirectoryContentOrder::default().sort(&mut empty);
    assert!(empty.0.is_empty());
}

#[test]
fn browser_starts_at_the_root_of_the_default_source() {
    let location = AssetBrowserLocation::default();
    assert_eq!(location.source_id, Some(String::from("default")));
    assert_eq!(location.path, "");
    assert_eq!(DirectoryContentOrder::default(), DirectoryContentOrder::Alphabetical);
}
