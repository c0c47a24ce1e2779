use image_sequencer::extension::{extension_start, has_image_extension, tail_is};

#[test]
fn recognizes_the_three_image_extensions() {
    assert!(has_image_extension("a.png"));
    assert!(has_image_extension("dir/b.jpg"));
    assert!(has_image_extension("/abs/dir/c.jpeg"));
}

#[test]
fn other_extensions_are_not_images() {
    assert!(!has_image_extension("a.gif"));
    assert!(!has_image_extension("a.txt"));
    assert!(!has_image_extension("a.pngx"));
    assert!(!has_image_extension("a.jpe"));
    assert!(!has_image_extension("a.pn"));
}

#[test]
fn extensions_are_compared_with_case() {
    assert!(!has_image_extension("a.PNG"));
    assert!(!has_image_extension("a.Jpg"));
    assert!(!has_image_extension("a.JPEG"));
}

#[test]
fn a_name_without_a_dot_has_no_extension() {
    assert!(!has_image_extension("a"));
    assert!(!has_image_extension("png"));
    assert!(!has_image_extension("dir/png"));
    assert!(!has_image_extension(""));
    assert_eq!(extension_start(b"dir/readme"), None);
    assert_eq!(extension_start(b""), None);
}

#[test]
fn only_the_last_dot_counts() {
    assert!(has_image_extension("a.txt.png"));
    assert!(!has_image_extension("a.png.txt"));
    assert!(has_image_extension("..png"));
    assert_eq!(extension_start(b"a.txt.png"), Some(6));
}

#[test]
fn a_name_that_starts_with_its_only_dot_has_no_extension() {
    assert!(!has_image_extension(".png"));
    assert!(!has_image_extension("dir/.png"));
    assert!(!has_image_extension("/.jpg"));
    assert_eq!(extension_start(b".png"), None);
    assert_eq!(extension_start(b"dir/.png"), None);
    assert!(has_image_extension("dir/.hidden.png"));
}

#[test]
fn a_dot_in_a_directory_name_is_no_extension_of_the_file() {
    assert!(!has_image_extension("dir.png/file"));
    assert!(!has_image_extension("dir.png/"));
    assert!(has_image_extension("dir.txt/file.png"));
    assert_eq!(extension_start(b"dir.png/file"), None);
}

#[test]
fn extension_start_is_the_index_after_the_dot() {
    assert_eq!(extension_start(b"a.png"), Some(2));
    assert_eq!(extension_start(b"dir/frame.jpeg"), Some(10));
    assert_eq!(extension_start(b"a."), Some(2));
}

#[test]
fn tail_is_compares_the_rest_of_the_bytes() {
    assert!(tail_is(b"a.png", 2, b"png"));
    assert!(!tail_is(b"a.png", 2, b"pn"));
    assert!(!tail_is(b"a.png", 2, b"pngx"));
    assert!(!tail_is(b"a.png", 2, b"pnh"));
    assert!(tail_is(b"a.", 2, b""));
    assert!(tail_is(b"", 0, b""));
}

#[test]
fn names_beyond_ascii_are_handled_by_their_bytes() {
    assert!(has_image_extension("bild/größe.png"));
    assert!(!has_image_extension("bild/größe.pñg"));
    assert!(has_image_extension("写真.jpg"));
}
