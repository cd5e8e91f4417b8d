use dir_index::media::{extension_of, file_type_of, top_level_type};
use dir_index::mtime::{get_time, whole_seconds, FIRST_SECOND, LAST_SECOND};
use dir_index::{
    list, readdir, request_action, Child, ChildKind, ChildMetadata, DirectoryPath, InvalidPath,
    ListError, ListingEntry, RequestAction, SegmentError,
};

const ROOT: &str = "/srv/www";

fn file(name: &str, bytes: u64, modified: Option<i64>) -> Child {
    Child {
        name: Some(name.to_string()),
        metadata: Some(ChildMetadata {
            kind: ChildKind::File,
            size: pretty_bytes::converter::convert(bytes as f64),
            modified,
        }),
    }
}

fn of_kind(name: &str, kind: ChildKind) -> Child {
    Child {
        name: Some(name.to_string()),
        metadata: Some(ChildMetadata { kind, size: "4.1 kB".to_string(), modified: Some(0) }),
    }
}

fn unreadable(name: &str) -> Child {
    Child { name: Some(name.to_string()), metadata: None }
}

fn listed(dir: &str, children: Vec<Child>) -> Vec<ListingEntry> {
    readdir(&DirectoryPath::from_str(dir), ROOT, Ok(children), 0).unwrap()
}

#[test]
fn unreadable_entries_are_left_out() {
    let children = vec![
        file("report.txt", 2048, Some(1431648000)),
        of_kind("photos", ChildKind::Directory),
        unreadable("locked"),
    ];
    let listing = list(&DirectoryPath::from_str("/srv/www/docs"), ROOT, Ok(children), 0);
    let context = match listing {
        Ok(context) => context,
        Err(_) => panic!("the listing failed"),
    };
    assert_eq!(context.path(), "/docs");
    let items = context.items();
    assert_eq!(items.len(), 2);

    assert_eq!(items[0].name(), "report.txt");
    assert_eq!(items[0].size(), "2.05 kB");
    assert_eq!(items[0].file_type(), "text");
    assert_eq!(items[0].mtime(), "15/05/2015 00h00");
    assert!(!items[0].is_dir());
    assert!(!items[0].is_symlink());
    assert_eq!(items[0].path(), "/docs/report.txt");
    assert_eq!(items[0].ext(), "txt");

    assert_eq!(items[1].name(), "photos");
    assert_eq!(items[1].size(), "-");
    assert_eq!(items[1].file_type(), "directory");
    assert_eq!(items[1].mtime(), "01/01/1970 00h00");
    assert!(items[1].is_dir());
    assert!(!items[1].is_symlink());
    assert_eq!(items[1].path(), "/docs/photos");
    assert_eq!(items[1].ext(), "");
}

#[test]
fn entries_keep_the_order_of_the_children() {
    let names = ["zeta", "alpha", "Mid", "beta"];
    let children = names.iter().map(|n| file(n, 1, Some(0))).collect();
    let entries = listed(ROOT, children);
    let found: Vec<&str> = entries.iter().map(|e| e.name()).collect();
    assert_eq!(found, names);
    assert_eq!(entries[0].path(), "/zeta");
}

#[test]
fn children_without_a_name_are_left_out() {
    let nameless = Child {
        name: None,
        metadata: Some(ChildMetadata {
            kind: ChildKind::File,
            size: "1 B".to_string(),
            modified: None,
        }),
    };
    let entries = listed(ROOT, vec![nameless, file("kept", 1, None)]);
    assert_eq!(entries.len(), 1);
    assert_eq!(entries[0].name(), "kept");
}

#[test]
fn a_child_that_leads_up_is_left_out() {
    let entries = listed(ROOT, vec![file("..", 1, None), file("a..b", 1, None)]);
    assert_eq!(entries.len(), 1);
    assert_eq!(entries[0].path(), "/a..b");
}

#[test]
fn unknown_extensions_get_the_default_kind() {
    let entries = listed(
        ROOT,
        vec![
            file("README", 10, Some(0)),
            file("data.zzzunknownzzz", 10, Some(0)),
            file(".profile", 10, Some(0)),
            file("trailing.", 10, Some(0)),
        ],
    );
    assert_eq!(entries.len(), 4);
    for entry in &entries {
        assert_eq!(entry.file_type(), "application");
    }
    assert_eq!(entries[0].ext(), "");
    assert_eq!(entries[1].ext(), "zzzunknownzzz");
    assert_eq!(entries[2].ext(), "");
    assert_eq!(entries[3].ext(), "");
}

#[test]
fn known_extensions_give_the_top_level_type() {
    let entries = listed(
        ROOT,
        vec![
            file("a.png", 1, Some(0)),
            file("b.MP3", 1, Some(0)),
            file("c.tar.gz", 1, Some(0)),
            file("d.html", 1, Some(0)),
            file("e.mp4", 1, Some(0)),
        ],
    );
    let kinds: Vec<&str> = entries.iter().map(|e| e.file_type()).collect();
    assert_eq!(kinds, ["image", "audio", "application", "text", "video"]);
    assert_eq!(entries[2].ext(), "gz");
}

#[test]
fn a_directory_ignores_its_extension_and_size() {
    let entries = listed(ROOT, vec![of_kind("pictures.png", ChildKind::Directory)]);
    assert_eq!(entries[0].file_type(), "directory");
    assert_eq!(entries[0].size(), "-");
    assert_eq!(entries[0].ext(), "png");
    assert!(entries[0].is_dir());
}

#[test]
fn a_symlink_is_marked_and_sized_as_a_file() {
    let entries = listed(ROOT, vec![of_kind("link.txt", ChildKind::Symlink)]);
    assert!(entries[0].is_symlink());
    assert!(!entries[0].is_dir());
    assert_eq!(entries[0].size(), "4.1 kB");
    assert_eq!(entries[0].file_type(), "text");
}

#[test]
fn a_missing_time_falls_back_to_now() {
    let dir = DirectoryPath::from_str(ROOT);
    let entries = readdir(&dir, ROOT, Ok(vec![file("a", 1, None)]), 86400 + 3600 * 13 + 60 * 7)
        .unwrap();
    assert_eq!(entries[0].mtime(), "02/01/1970 13h07");
}

#[test]
fn times_are_written_day_first() {
    assert_eq!(get_time(Some(0), 99), Some("01/01/1970 00h00".to_string()));
    assert_eq!(get_time(Some(1491137432), 0), Some("02/04/2017 12h50".to_string()));
    assert_eq!(get_time(Some(-1), 0), Some("31/12/1969 23h59".to_string()));
    assert_eq!(get_time(None, 951782400), Some("29/02/2000 00h00".to_string()));
}

#[test]
fn a_time_out_of_range_leaves_the_child_out() {
    assert_eq!(get_time(Some(i64::MAX), 0), None);
    assert_eq!(get_time(None, i64::MIN), None);
    let entries = listed(ROOT, vec![file("old", 1, Some(i64::MIN)), file("new", 1, Some(0))]);
    assert_eq!(entries.len(), 1);
    assert_eq!(entries[0].name(), "new");
}

#[test]
fn a_directory_that_cannot_be_read_fails_the_listing() {
    let dir = DirectoryPath::from_str("/srv/www/a");
    match list(&dir, ROOT, Err("permission denied".to_string()), 0) {
        Err(ListError::EnumerationFailed(words)) => assert_eq!(words, "permission denied"),
        _ => panic!("expected a failed enumeration"),
    }
    match readdir(&dir, ROOT, Err("gone".to_string()), 0) {
        Err(words) => assert_eq!(words, "gone"),
        Ok(_) => panic!("expected the words of the file system"),
    }
    let outside = DirectoryPath::from_str("/etc");
    match list(&outside, ROOT, Err("permission denied".to_string()), 0) {
        Err(ListError::EnumerationFailed(_)) => {},
        _ => panic!("the failed read comes first"),
    }
}

#[test]
fn a_directory_outside_the_root_is_not_listed() {
    let outside = DirectoryPath::from_str("/etc");
    match list(&outside, ROOT, Ok(vec![file("passwd", 1, Some(0))]), 0) {
        Err(ListError::NotUnderRoot) => {},
        _ => panic!("expected NotUnderRoot"),
    }
    assert_eq!(readdir(&outside, ROOT, Ok(vec![file("passwd", 1, Some(0))]), 0).unwrap().len(), 0);
}

#[test]
fn the_root_lists_as_the_separator() {
    let context = match list(&DirectoryPath::from_str(ROOT), ROOT, Ok(Vec::new()), 0) {
        Ok(context) => context,
        Err(_) => panic!("the listing failed"),
    };
    assert_eq!(context.path(), "/");
    assert!(context.items().is_empty());
}

#[test]
fn errors_map_to_their_status() {
    assert_eq!(ListError::NotUnderRoot.status_code(), 404);
    assert_eq!(ListError::EnumerationFailed("x".to_string()).status_code(), 400);
    assert_eq!(InvalidPath { index: 0, reason: SegmentError::InvalidEncoding }.status_code(), 400);
}

#[test]
fn extensions_follow_the_last_dot() {
    assert_eq!(extension_of("a.tar.gz"), "gz");
    assert_eq!(extension_of("archive.TXT"), "TXT");
    assert_eq!(extension_of("name"), "");
    assert_eq!(extension_of(".hidden"), "");
    assert_eq!(extension_of(".hidden.cfg"), "cfg");
    assert_eq!(extension_of("dot."), "");
    assert_eq!(extension_of(".."), "");
    assert_eq!(extension_of("..a"), "a");
    assert_eq!(extension_of(""), "");
    assert_eq!(extension_of("é.ü"), "ü");
}

#[test]
fn top_level_is_what_precedes_the_slash() {
    assert_eq!(top_level_type("text/plain"), "text");
    assert_eq!(top_level_type("application/unknown"), "application");
    assert_eq!(top_level_type("a/b/c"), "a");
    assert_eq!(top_level_type("noslash"), "noslash");
    assert_eq!(top_level_type("/x"), "");
    assert_eq!(top_level_type(""), "");
}

#[test]
fn kinds_come_from_the_guess() {
    assert_eq!(file_type_of(true, Some("image/png".to_string())), "directory");
    assert_eq!(file_type_of(true, None), "directory");
    assert_eq!(file_type_of(false, Some("image/png".to_string())), "image");
    assert_eq!(file_type_of(false, None), "application");
}

#[test]
fn a_task_or_a_directory_asks_for_a_listing() {
    assert_eq!(request_action("", true), RequestAction::List);
    assert_eq!(request_action("list", true), RequestAction::List);
    assert_eq!(request_action("list", false), RequestAction::List);
    assert_eq!(request_action("", false), RequestAction::Download);
}

#[test]
fn the_parts_given_decide_the_entry() {
    let child = file("clip.bin", 5, None);
    let dir = DirectoryPath::from_str("/srv/www/films");
    let then = Some("long ago".to_string());
    let entry = match ListingEntry::from_parts(
        &child,
        &dir,
        ROOT,
        then.clone(),
        Some("video/mp4".to_string()),
    ) {
        Some(entry) => entry,
        None => panic!("expected an entry"),
    };
    assert_eq!(entry.name(), "clip.bin");
    assert_eq!(entry.mtime(), "long ago");
    assert_eq!(entry.file_type(), "video");
    assert_eq!(entry.size(), "5 B");
    assert_eq!(entry.path(), "/films/clip.bin");
    assert_eq!(entry.ext(), "bin");

    let unguessed = ListingEntry::from_parts(&child, &dir, ROOT, then.clone(), None);
    assert_eq!(unguessed.map(|e| e.file_type().to_string()), Some("application".to_string()));
    assert!(ListingEntry::from_parts(&child, &dir, ROOT, None, None).is_none());
    assert!(ListingEntry::from_parts(&unreadable("x"), &dir, ROOT, then.clone(), None).is_none());
    let outside = DirectoryPath::from_str("/etc");
    assert!(ListingEntry::from_parts(&child, &outside, ROOT, then, None).is_none());
}

#[test]
fn a_link_is_the_listing_path_and_the_name() {
    let dir = DirectoryPath::from_str("/srv/www/a/b/");
    let entries = readdir(&dir, ROOT, Ok(vec![file("c d.txt", 1, Some(0))]), 0).unwrap();
    assert_eq!(entries[0].path(), "/a/b/c d.txt");
    let top = readdir(&DirectoryPath::from_str(ROOT), ROOT, Ok(vec![file("x", 1, Some(0))]), 0);
    assert_eq!(top.unwrap()[0].path(), "/x");
}

#[test]
fn a_directory_behind_a_way_up_is_listed_without_entries() {
    let dir = DirectoryPath::from_str("/srv/www/../x");
    let context = match list(&dir, ROOT, Ok(vec![file("a", 1, Some(0))]), 0) {
        Ok(context) => context,
        Err(_) => panic!("the listing failed"),
    };
    assert_eq!(context.path(), "/../x");
    assert!(context.items().is_empty());
}

#[test]
fn every_second_of_the_date_range_is_written() {
    assert_eq!(get_time(Some(FIRST_SECOND), 0), Some("01/01/-262143 00h00".to_string()));
    assert_eq!(get_time(Some(LAST_SECOND), 0), Some("31/12/+262142 23h59".to_string()));
    assert_eq!(get_time(Some(FIRST_SECOND - 1), 0), None);
    assert_eq!(get_time(Some(LAST_SECOND + 1), 0), None);
    assert_eq!(get_time(None, LAST_SECOND + 1), None);
    assert_eq!(get_time(Some(253402300799), 0), Some("31/12/9999 23h59".to_string()));
    assert_eq!(get_time(Some(-62167219200), 0), Some("01/01/0000 00h00".to_string()));
}

#[test]
fn whole_seconds_round_down() {
    assert_eq!(whole_seconds(false, 0, 0), 0);
    assert_eq!(whole_seconds(false, 10, 999_999_999), 10);
    assert_eq!(whole_seconds(true, 10, 0), -10);
    assert_eq!(whole_seconds(true, 10, 1), -11);
    assert_eq!(whole_seconds(true, 0, 500), -1);
    assert_eq!(whole_seconds(true, 0, 0), 0);
    assert_eq!(whole_seconds(false, u64::MAX, 0), i64::MAX);
    assert_eq!(whole_seconds(false, i64::MAX as u64, 5), i64::MAX);
    assert_eq!(whole_seconds(true, u64::MAX, 0), -i64::MAX);
    assert_eq!(whole_seconds(true, u64::MAX, 1), i64::MIN);
}

#[test]
fn every_guess_has_the_kind_of_a_file() {
    let extensions = [
        "txt", "html", "css", "js", "json", "xml", "png", "jpg", "gif", "svg", "ico", "mp3",
        "wav", "ogg", "mp4", "avi", "mkv", "pdf", "zip", "gz", "tar", "rs", "c", "h", "py", "md",
        "woff", "ttf", "otf", "eml", "mime", "igs", "wrl", "xyz", "cml", "dwf", "p2p", "vrml",
        "doc", "xls", "exe", "bin", "iso", "7z", "123", "webm", "flac", "csv", "ics", "stl",
    ];
    let children = extensions.iter().map(|ext| file(&format!("f.{}", ext), 1, Some(0))).collect();
    let entries = listed(ROOT, children);
    assert_eq!(entries.len(), extensions.len());
    for entry in &entries {
        assert!(!entry.file_type().is_empty(), "on {}", entry.name());
        assert_ne!(entry.file_type(), "directory", "on {}", entry.name());
        assert!(!entry.file_type().contains('/'), "on {}", entry.name());
        assert_ne!(entry.size(), "-");
    }
}

#[test]
fn a_listing_has_one_entry_for_each_child_that_was_read() {
    let children = vec![
        unreadable("a"),
        file("b", 2048, Some(0)),
        Child { name: None, metadata: None },
        of_kind("c", ChildKind::Directory),
        unreadable("d"),
        of_kind("e", ChildKind::Symlink),
    ];
    let entries = listed("/srv/www/sub", children);
    let names: Vec<&str> = entries.iter().map(|e| e.name()).collect();
    assert_eq!(names, ["b", "c", "e"]);
    assert_eq!(entries.iter().filter(|e| e.is_dir()).count(), 1);
}
