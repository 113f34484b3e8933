//! Whole-pipeline scenarios run against the library, with the outside
//! steps played by the test itself.

use cbzmaker::archive::{build_chapter_archive, Page};
use cbzmaker::naming::{archive_file_name, path_join};
use cbzmaker::pipeline::{failed_titles, TitleOutcome, TitlePhase, TitleRun};
use cbzmaker::reconcile::{reconcile_details, MetadataSource};
use std::io::Read;

fn page(name: &str, data: &[u8]) -> Page {
    Page { name: String::from(name), data: data.to_vec() }
}

fn entry_names(bytes: Vec<u8>) -> Vec<String> {
    let mut archive = zip::ZipArchive::new(std::io::Cursor::new(bytes)).unwrap();
    let mut out = Vec::new();
    for i in 0..archive.len() {
        out.push(archive.by_index(i).unwrap().name().to_string());
    }
    out
}

#[test]
fn a_small_library_round_trips() {
    // Source: lib/Foo/Ch1/{a.jpg, b.jpg} and lib/Foo/Ch2/{c.png}, no
    // metadata beside them.
    let ch1 = vec![page("a.jpg", b"page a"), page("b.jpg", b"page b")];
    let ch2 = vec![page("c.png", b"page c")];

    let out_dir = path_join("out", "Foo");
    assert_eq!(out_dir, "out/Foo");
    assert_eq!(path_join(&out_dir, &archive_file_name("Foo", "Ch1")), "out/Foo/Foo - Ch1.cbz");
    assert_eq!(path_join(&out_dir, &archive_file_name("Foo", "Ch2")), "out/Foo/Foo - Ch2.cbz");

    let cbz1 = build_chapter_archive(&ch1).unwrap();
    assert_eq!(entry_names(cbz1), vec![String::from("1.jpg"), String::from("2.jpg")]);
    let cbz2 = build_chapter_archive(&ch2).unwrap();
    assert_eq!(entry_names(cbz2), vec![String::from("1.png")]);

    let sidecar = reconcile_details(MetadataSource::Absent, "Foo").unwrap();
    let v: serde_json::Value = serde_json::from_slice(&sidecar).unwrap();
    assert_eq!(v["title"].as_str(), Some("Foo"));
    assert_eq!(v["status"].as_str(), Some("0"));
}

#[test]
fn archive_bytes_round_trip_exactly() {
    let payload: Vec<u8> = (0u32..4096).map(|i| (i % 251) as u8).collect();
    let pages = vec![page("raw.bin", &payload)];
    let bytes = build_chapter_archive(&pages).unwrap();
    let mut archive = zip::ZipArchive::new(std::io::Cursor::new(bytes)).unwrap();
    let mut f = archive.by_index(0).unwrap();
    let mut back = Vec::new();
    f.read_to_end(&mut back).unwrap();
    assert_eq!(back, payload);
}

#[test]
fn one_title_failing_at_metadata_spares_the_other() {
    // Title A: one fine chapter, then an unreadable metadata record.
    let mut a = TitleRun::start(1);
    a.report_dir_created(true);
    let a_cbz = build_chapter_archive(&vec![page("p.jpg", b"a")]).unwrap();
    a.report_chapter_done(true);
    let a_meta = reconcile_details(MetadataSource::Unreadable, "A");
    a.report_metadata_done(a_meta.is_ok());
    assert!(a.failed);

    // Title B: everything succeeds.
    let mut b = TitleRun::start(1);
    b.report_dir_created(true);
    let b_cbz = build_chapter_archive(&vec![page("q.png", b"b")]).unwrap();
    b.report_chapter_done(true);
    let b_meta = reconcile_details(MetadataSource::Absent, "B").unwrap();
    b.report_metadata_done(true);
    assert!(!b.failed);

    // B's outputs are complete and correct.
    assert_eq!(entry_names(b_cbz), vec![String::from("1.png")]);
    let v: serde_json::Value = serde_json::from_slice(&b_meta).unwrap();
    assert_eq!(v["title"].as_str(), Some("B"));

    // A's archive from before the failure stays; only A is reported.
    assert_eq!(entry_names(a_cbz).len(), 1);
    assert_eq!(a.phase, TitlePhase::Done);
    let summary = failed_titles(&vec![
        TitleOutcome { title: String::from("A"), failed: a.failed },
        TitleOutcome { title: String::from("B"), failed: b.failed },
    ]);
    assert_eq!(summary, vec![String::from("A")]);
}
