use cbzmaker::archive::{build_chapter_archive, ChapterBuilder, ChapterError, Page};
use std::io::Read;

fn page(name: &str, data: &[u8]) -> Page {
    Page { name: String::from(name), data: data.to_vec() }
}

fn entries_of(bytes: Vec<u8>) -> Vec<(String, Vec<u8>)> {
    let mut archive = zip::ZipArchive::new(std::io::Cursor::new(bytes)).expect("well-formed archive");
    let mut out = Vec::new();
    for i in 0..archive.len() {
        let mut f = archive.by_index(i).unwrap();
        let mut data = Vec::new();
        f.read_to_end(&mut data).unwrap();
        out.push((f.name().to_string(), data));
    }
    out
}

#[test]
fn archive_holds_one_entry_per_page_with_bytes_unchanged() {
    let pages = vec![page("a.jpg", b"first"), page("b.jpg", b"second"), page("c.png", b"third")];
    let bytes = build_chapter_archive(&pages).expect("all pages are fine");
    let entries = entries_of(bytes);
    assert_eq!(entries.len(), 3);
    assert_eq!(entries[0], (String::from("1.jpg"), b"first".to_vec()));
    assert_eq!(entries[1], (String::from("2.jpg"), b"second".to_vec()));
    assert_eq!(entries[2], (String::from("3.png"), b"third".to_vec()));
}

#[test]
fn entry_order_follows_scan_order_not_name_order() {
    let pages = vec![page("zzz.jpg", b"comes first"), page("aaa.png", b"comes second")];
    let bytes = build_chapter_archive(&pages).unwrap();
    let entries = entries_of(bytes);
    assert_eq!(entries[0], (String::from("1.jpg"), b"comes first".to_vec()));
    assert_eq!(entries[1], (String::from("2.png"), b"comes second".to_vec()));
}

#[test]
fn width_grows_with_the_page_count() {
    let pages: Vec<Page> = (0..10).map(|i| page(&format!("p{i}.jpg"), b"x")).collect();
    let bytes = build_chapter_archive(&pages).unwrap();
    let entries = entries_of(bytes);
    assert_eq!(entries.len(), 10);
    assert_eq!(entries[0].0, "01.jpg");
    assert_eq!(entries[9].0, "10.jpg");
}

#[test]
fn empty_chapter_gives_an_empty_archive() {
    let bytes = build_chapter_archive(&Vec::new()).unwrap();
    let archive = zip::ZipArchive::new(std::io::Cursor::new(bytes)).unwrap();
    assert_eq!(archive.len(), 0);
}

#[test]
fn missing_extension_aborts_the_chapter_and_names_the_page() {
    let pages = vec![page("ok.jpg", b"x"), page("noext", b"y"), page("late.png", b"z")];
    assert_eq!(build_chapter_archive(&pages), Err(ChapterError::MissingExtension { page: 1 }));
}

#[test]
fn empty_page_aborts_the_chapter_and_names_the_page() {
    let pages = vec![page("ok.jpg", b"x"), page("void.png", b"")];
    assert_eq!(build_chapter_archive(&pages), Err(ChapterError::EmptyPage { page: 1 }));
}

#[test]
fn builder_grows_an_archive_one_page_at_a_time() {
    let mut builder = ChapterBuilder::new(3);
    builder.add_page(&page("a.jpg", b"one")).unwrap();
    builder.add_page(&page("b.jpg", b"two")).unwrap();
    builder.add_page(&page("c.png", b"three")).unwrap();
    let entries = entries_of(builder.finish().unwrap());
    assert_eq!(entries.len(), 3);
    assert_eq!(entries[0], (String::from("1.jpg"), b"one".to_vec()));
    assert_eq!(entries[1], (String::from("2.jpg"), b"two".to_vec()));
    assert_eq!(entries[2], (String::from("3.png"), b"three".to_vec()));
}

#[test]
fn builder_and_batch_write_the_same_bytes() {
    let pages = vec![page("x.jpg", b"first"), page("y.png", b"second")];
    let batch = build_chapter_archive(&pages).unwrap();
    let mut builder = ChapterBuilder::new(2);
    builder.add_page(&pages[0]).unwrap();
    builder.add_page(&pages[1]).unwrap();
    assert_eq!(builder.finish().unwrap(), batch);
}

#[test]
fn builder_refuses_a_bad_page_by_position() {
    let mut builder = ChapterBuilder::new(3);
    builder.add_page(&page("ok.jpg", b"x")).unwrap();
    assert_eq!(
        builder.add_page(&page("noext", b"y")),
        Err(ChapterError::MissingExtension { page: 1 })
    );
    assert_eq!(
        builder.add_page(&page("void.png", b"")),
        Err(ChapterError::EmptyPage { page: 1 })
    );
}

#[test]
fn failing_chapter_spares_its_siblings() {
    let bad = vec![page("1.jpg", b"x"), page("broken.png", b"")];
    let good = vec![page("1.jpg", b"fine")];
    let bad_result = build_chapter_archive(&bad);
    let good_result = build_chapter_archive(&good);
    assert!(bad_result.is_err());
    let entries = entries_of(good_result.unwrap());
    assert_eq!(entries, vec![(String::from("1.jpg"), b"fine".to_vec())]);
}
