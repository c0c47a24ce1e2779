use image_sequencer::scan::{scan, select_frames, WalkedEntry};
use std::io::Write;

fn scan_file(dir: &std::path::Path, name: &str) -> tempfile::NamedTempFile {
    let mut file = tempfile::Builder::new()
        .prefix(name)
        .suffix("")
        .rand_bytes(0)
        .tempfile_in(dir)
        .unwrap();
    file.write_all(b"x").unwrap();
    file.flush().unwrap();
    file
}

fn scan_dir(dir: &std::path::Path, name: &str) -> tempfile::TempDir {
    tempfile::Builder::new()
        .prefix(name)
        .suffix("")
        .rand_bytes(0)
        .tempdir_in(dir)
        .unwrap()
}

fn scan_path(root: &tempfile::TempDir, below: &str) -> String {
    format!("{}/{}", root.path().to_str().unwrap(), below)
}

#[test]
fn select_frames_keeps_image_files_in_byte_order() {
    let found = vec![
        WalkedEntry::new("r", false),
        WalkedEntry::new("r/b.png", true),
        WalkedEntry::new("r/a.png", true),
        WalkedEntry::new("r/c", false),
        WalkedEntry::new("r/c/a.png", true),
    ];
    assert_eq!(select_frames(&found), vec!["r/a.png", "r/b.png", "r/c/a.png"]);
}

#[test]
fn select_frames_drops_what_is_no_image() {
    let found = vec![
        WalkedEntry::new("r/a.gif", true),
        WalkedEntry::new("r/b.PNG", true),
        WalkedEntry::new("r/c.txt", true),
        WalkedEntry::new("r/d", true),
        WalkedEntry::new("r/.png", true),
        WalkedEntry::new("r/e.jpg", true),
        WalkedEntry::new("r/f.jpeg", true),
        WalkedEntry::new("r/g.png", true),
    ];
    assert_eq!(select_frames(&found), vec!["r/e.jpg", "r/f.jpeg", "r/g.png"]);
}

#[test]
fn select_frames_drops_what_is_no_regular_file() {
    let found = vec![
        WalkedEntry::new("r/dir.png", false),
        WalkedEntry::new("r/dir.png/a.jpg", true),
        WalkedEntry::new("r/link.jpeg", false),
    ];
    assert_eq!(select_frames(&found), vec!["r/dir.png/a.jpg"]);
}

#[test]
fn select_frames_drops_paths_that_are_no_text() {
    let found = vec![
        WalkedEntry { path: None, is_file: true },
        WalkedEntry::new("r/a.png", true),
        WalkedEntry { path: None, is_file: false },
    ];
    assert_eq!(select_frames(&found), vec!["r/a.png"]);
}

#[test]
fn select_frames_of_nothing_is_empty() {
    assert!(select_frames(&Vec::new()).is_empty());
    let found = vec![WalkedEntry::new("r", false), WalkedEntry::new("r/notes.txt", true)];
    assert!(select_frames(&found).is_empty());
}

#[test]
fn select_frames_does_not_depend_on_the_order_of_the_walk() {
    let one = vec![
        WalkedEntry::new("r/2.png", true),
        WalkedEntry::new("r/x.txt", true),
        WalkedEntry::new("r/1.png", true),
        WalkedEntry::new("r/3.jpg", true),
    ];
    let other = vec![
        WalkedEntry::new("r/3.jpg", true),
        WalkedEntry::new("r/1.png", true),
        WalkedEntry::new("r/2.png", true),
        WalkedEntry::new("r/x.txt", true),
    ];
    assert_eq!(select_frames(&one), select_frames(&other));
    assert_eq!(select_frames(&one), vec!["r/1.png", "r/2.png", "r/3.jpg"]);
}

#[test]
fn select_frames_twice_gives_the_same_list() {
    let found = vec![
        WalkedEntry::new("r/b.png", true),
        WalkedEntry::new("r/a.png", true),
    ];
    assert_eq!(select_frames(&found), select_frames(&found));
}

#[test]
fn select_frames_keeps_a_path_as_often_as_it_was_met() {
    let found = vec![
        WalkedEntry::new("r/a.png", true),
        WalkedEntry::new("r/b.png", true),
        WalkedEntry::new("r/a.png", true),
    ];
    assert_eq!(select_frames(&found), vec!["r/a.png", "r/a.png", "r/b.png"]);
}

#[test]
fn a_new_entry_holds_what_it_was_given() {
    let entry = WalkedEntry::new("r/a.png", true);
    assert_eq!(entry.path.as_deref(), Some("r/a.png"));
    assert!(entry.is_file);
    assert!(entry.is_frame());
    assert!(!WalkedEntry::new("r/a.png", false).is_frame());
    assert!(!WalkedEntry::new("r/a.txt", true).is_frame());
    assert!(!WalkedEntry { path: None, is_file: true }.is_frame());
}

#[test]
fn scan_orders_files_by_full_path() {
    let root = tempfile::tempdir().unwrap();
    let _b = scan_file(root.path(), "b.png");
    let _a = scan_file(root.path(), "a.png");
    let c = scan_dir(root.path(), "c");
    let _ca = scan_file(c.path(), "a.png");
    let frames = scan(root.path().to_str().unwrap());
    assert_eq!(
        frames,
        vec![
            scan_path(&root, "a.png"),
            scan_path(&root, "b.png"),
            scan_path(&root, "c/a.png"),
        ]
    );
}

#[test]
fn scan_keeps_only_image_files() {
    let root = tempfile::tempdir().unwrap();
    let _files = vec![
        scan_file(root.path(), "one.png"),
        scan_file(root.path(), "two.jpg"),
        scan_file(root.path(), "three.jpeg"),
        scan_file(root.path(), "four.gif"),
        scan_file(root.path(), "five.PNG"),
        scan_file(root.path(), "six.txt"),
        scan_file(root.path(), "seven"),
        scan_file(root.path(), ".png"),
    ];
    let frames = scan(root.path().to_str().unwrap());
    assert_eq!(
        frames,
        vec![
            scan_path(&root, "one.png"),
            scan_path(&root, "three.jpeg"),
            scan_path(&root, "two.jpg"),
        ]
    );
}

#[test]
fn scan_leaves_out_a_directory_named_like_an_image() {
    let root = tempfile::tempdir().unwrap();
    let album = scan_dir(root.path(), "album.png");
    let _inside = scan_file(album.path(), "page.jpg");
    let frames = scan(root.path().to_str().unwrap());
    assert_eq!(frames, vec![scan_path(&root, "album.png/page.jpg")]);
}

#[test]
fn scan_goes_down_into_nested_directories() {
    let root = tempfile::tempdir().unwrap();
    let a = scan_dir(root.path(), "a");
    let b = scan_dir(a.path(), "b");
    let _deep = scan_file(b.path(), "deep.png");
    let _top = scan_file(root.path(), "a.png");
    let frames = scan(root.path().to_str().unwrap());
    assert_eq!(
        frames,
        vec![scan_path(&root, "a.png"), scan_path(&root, "a/b/deep.png")]
    );
}

#[test]
fn scan_of_a_directory_without_images_is_empty() {
    let root = tempfile::tempdir().unwrap();
    assert!(scan(root.path().to_str().unwrap()).is_empty());
    let _notes = scan_file(root.path(), "notes.txt");
    assert!(scan(root.path().to_str().unwrap()).is_empty());
}

#[test]
fn scan_of_a_missing_directory_is_empty() {
    let root = tempfile::tempdir().unwrap();
    assert!(scan(&scan_path(&root, "no/such/place")).is_empty());
}

#[test]
fn scan_of_a_single_file_gives_that_file() {
    let root = tempfile::tempdir().unwrap();
    let _image = scan_file(root.path(), "lone.png");
    let _text = scan_file(root.path(), "lone.txt");
    assert_eq!(
        scan(&scan_path(&root, "lone.png")),
        vec![scan_path(&root, "lone.png")]
    );
    assert!(scan(&scan_path(&root, "lone.txt")).is_empty());
}

#[test]
fn scan_twice_gives_the_same_list() {
    let root = tempfile::tempdir().unwrap();
    let _files = vec![
        scan_file(root.path(), "3.png"),
        scan_file(root.path(), "1.png"),
        scan_file(root.path(), "2.jpg"),
    ];
    let first = scan(root.path().to_str().unwrap());
    let second = scan(root.path().to_str().unwrap());
    assert_eq!(first, second);
    assert_eq!(first.len(), 3);
}
