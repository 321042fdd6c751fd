use calcifer::files::{sort_directories_first, FileEntry};
use calcifer::icon::load_icon;
use calcifer::text::{base_name, format_path, to_syntax, Syntax};
use std::cmp::Ordering;
use std::io::Cursor;

#[test]
fn syntax_from_language() {
    assert_eq!(to_syntax("py"), Syntax::Python);
    assert_eq!(to_syntax("rs"), Syntax::Rust);
    assert_eq!(to_syntax("sh"), Syntax::Shell);
    assert_eq!(to_syntax(""), Syntax::Shell);
}

#[test]
fn base_name_takes_last_component() {
    assert_eq!(base_name("/home/user/lib.rs"), "lib.rs");
    assert_eq!(base_name("untitled"), "untitled");
    assert_eq!(base_name("/"), "");
}

#[test]
fn base_name_ignores_trailing_separators() {
    // As Path::file_name does: /usr/bin/ names bin.
    assert_eq!(base_name("/usr/bin/"), "bin");
    assert_eq!(base_name("a/b/"), "b");
    assert_eq!(base_name("a/b//"), "b");
    assert_eq!(base_name("/a/./"), "a");
    assert_eq!(base_name("a/."), "a");
    assert_eq!(base_name("."), "");
}

#[test]
fn format_path_shows_last_three_components() {
    assert_eq!(format_path("/home/penwing/Documents"), "home/penwing/Documents>");
    assert_eq!(format_path("/a/b/c/d/e"), "c/d/e>");
    assert_eq!(format_path("/x"), "x>");
    assert_eq!(format_path("/"), ">");
    assert_eq!(format_path("/a/./b"), "a/b>");
}

#[test]
fn directories_sort_before_files() {
    let d = |p: &str| FileEntry { is_dir: true, path: String::from(p) };
    let f = |p: &str| FileEntry { is_dir: false, path: String::from(p) };
    assert_eq!(sort_directories_first(&d("/z"), &f("/a")), Ordering::Less);
    assert_eq!(sort_directories_first(&f("/a"), &d("/z")), Ordering::Greater);
    assert_eq!(sort_directories_first(&d("/a"), &d("/b")), Ordering::Less);
    assert_eq!(sort_directories_first(&f("/b"), &f("/a")), Ordering::Greater);
    assert_eq!(sort_directories_first(&f("/a"), &f("/a")), Ordering::Equal);
    assert_eq!(sort_directories_first(&f("/a"), &f("/ab")), Ordering::Less);
}

#[test]
fn paths_sort_by_components_not_raw_characters() {
    // '-' sorts above '/' as a raw character, but ordering goes component
    // by component, so the path inside the directory comes first.
    let f = |p: &str| FileEntry { is_dir: false, path: String::from(p) };
    assert_eq!(sort_directories_first(&f("a/b"), &f("a-b")), Ordering::Less);
    assert_eq!(sort_directories_first(&f("a-b"), &f("a/b")), Ordering::Greater);
    assert_eq!(sort_directories_first(&f("/x/a"), &f("/x/a/b")), Ordering::Less);
    assert_eq!(sort_directories_first(&f("/x/./a"), &f("/x/a")), Ordering::Equal);
}

#[test]
fn icon_decode_rejects_invalid_bytes() {
    assert!(load_icon(&[0, 1, 2, 3]).is_none());
    assert!(load_icon(&[]).is_none());
}

#[test]
fn icon_decode_reads_back_a_png() {
    // Encode a 2x1 image through the image crate, then decode it through
    // the library: dimensions and pixels must come back.
    let img = image::RgbaImage::from_raw(2, 1, vec![10, 20, 30, 255, 40, 50, 60, 255])
        .expect("raw buffer fits");
    let mut bytes: Vec<u8> = Vec::new();
    img.write_to(&mut Cursor::new(&mut bytes), image::ImageFormat::Png)
        .expect("png encoding succeeds");
    let icon = load_icon(&bytes).expect("png decodes");
    assert_eq!(icon.width, 2);
    assert_eq!(icon.height, 1);
    assert_eq!(icon.rgba, vec![10, 20, 30, 255, 40, 50, 60, 255]);
}

#[test]
fn format_path_with_trailing_slash() {
    assert_eq!(format_path("/a/b/"), "a/b>");
    assert_eq!(format_path("a//b"), "a/b>");
}
