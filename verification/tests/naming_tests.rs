use cbzmaker::naming::{archive_file_name, extension_of, page_entry_name, path_join, relative_name};

#[test]
fn entry_names_are_padded_to_the_width_of_the_count() {
    assert_eq!(page_entry_name(1, 2, "jpg"), "1.jpg");
    assert_eq!(page_entry_name(2, 2, "jpg"), "2.jpg");
    assert_eq!(page_entry_name(3, 12, "png"), "03.png");
    assert_eq!(page_entry_name(10, 12, "png"), "10.png");
    assert_eq!(page_entry_name(1, 100, "gif"), "001.gif");
    assert_eq!(page_entry_name(100, 100, "gif"), "100.gif");
    assert_eq!(page_entry_name(1, 1, "webp"), "1.webp");
}

#[test]
fn extensions_follow_the_final_dot() {
    assert_eq!(extension_of("a.jpg"), Some(String::from("jpg")));
    assert_eq!(extension_of("archive.tar.gz"), Some(String::from("gz")));
    assert_eq!(extension_of("noext"), None);
    assert_eq!(extension_of(".hidden"), None);
    assert_eq!(extension_of("trailing."), Some(String::from("")));
    assert_eq!(extension_of(""), None);
    assert_eq!(extension_of(".a.b"), Some(String::from("b")));
}

#[test]
fn relative_names_strip_the_root_and_its_separator() {
    assert_eq!(relative_name("src/Foo", 3), Some(String::from("Foo")));
    assert_eq!(relative_name("src/Foo/Ch1", 7), Some(String::from("Ch1")));
    assert_eq!(relative_name("src", 3), None);
    assert_eq!(relative_name("src/", 3), Some(String::from("")));
}

#[test]
fn paths_and_archive_names_compose() {
    assert_eq!(path_join("out", "Foo"), "out/Foo");
    assert_eq!(archive_file_name("Foo", "Ch1"), "Foo - Ch1.cbz");
    assert_eq!(
        path_join(&path_join("out", "Foo"), &archive_file_name("Foo", "Ch1")),
        "out/Foo/Foo - Ch1.cbz"
    );
}
