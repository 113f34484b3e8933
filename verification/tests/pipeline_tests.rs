use cbzmaker::pipeline::{failed_titles, TitleOutcome, TitlePhase, TitleRun};
use cbzmaker::progress::ProgressTracker;

#[test]
fn a_title_walks_create_chapters_metadata_done() {
    let mut run = TitleRun::start(2);
    assert_eq!(run.phase, TitlePhase::CreateDir);
    run.report_dir_created(true);
    assert_eq!(run.phase, TitlePhase::Chapters);
    assert_eq!(run.next_chapter, 0);
    run.report_chapter_done(true);
    assert_eq!(run.phase, TitlePhase::Chapters);
    assert_eq!(run.next_chapter, 1);
    run.report_chapter_done(true);
    assert_eq!(run.phase, TitlePhase::Metadata);
    run.report_metadata_done(true);
    assert_eq!(run.phase, TitlePhase::Done);
    assert!(!run.failed);
    assert_eq!(run.chapters_failed, 0);
}

#[test]
fn a_chapter_failure_is_skipped_and_contained() {
    let mut run = TitleRun::start(3);
    run.report_dir_created(true);
    run.report_chapter_done(true);
    run.report_chapter_done(false);
    assert_eq!(run.phase, TitlePhase::Chapters);
    assert_eq!(run.next_chapter, 2);
    assert_eq!(run.chapters_failed, 1);
    assert!(!run.failed);
    run.report_chapter_done(true);
    run.report_metadata_done(true);
    assert!(!run.failed);
    assert_eq!(run.chapters_failed, 1);
}

#[test]
fn a_directory_failure_fails_the_title_at_once() {
    let mut run = TitleRun::start(5);
    run.report_dir_created(false);
    assert_eq!(run.phase, TitlePhase::Done);
    assert!(run.failed);
}

#[test]
fn a_metadata_failure_fails_the_title() {
    let mut run = TitleRun::start(0);
    run.report_dir_created(true);
    assert_eq!(run.phase, TitlePhase::Metadata);
    run.report_metadata_done(false);
    assert!(run.failed);
}

#[test]
fn one_failed_title_is_reported_and_spares_the_other() {
    let outcomes = vec![
        TitleOutcome { title: String::from("A"), failed: true },
        TitleOutcome { title: String::from("B"), failed: false },
    ];
    assert_eq!(failed_titles(&outcomes), vec![String::from("A")]);
}

#[test]
fn summary_keeps_report_order_of_failures() {
    let outcomes = vec![
        TitleOutcome { title: String::from("ok1"), failed: false },
        TitleOutcome { title: String::from("bad1"), failed: true },
        TitleOutcome { title: String::from("ok2"), failed: false },
        TitleOutcome { title: String::from("bad2"), failed: true },
    ];
    assert_eq!(failed_titles(&outcomes), vec![String::from("bad1"), String::from("bad2")]);
}

#[test]
fn progress_is_tracked_per_title() {
    let mut tracker = ProgressTracker::new();
    tracker.initialize(String::from("Foo"), 3);
    tracker.initialize(String::from("Bar"), 1);
    assert_eq!(tracker.get(&String::from("Foo")), Some((0, 3)));
    tracker.advance(&String::from("Foo"), 1);
    tracker.advance(&String::from("Foo"), 2);
    assert_eq!(tracker.get(&String::from("Foo")), Some((2, 3)));
    assert_eq!(tracker.get(&String::from("Bar")), Some((0, 1)));
    assert_eq!(tracker.get(&String::from("Baz")), None);
    assert_eq!(tracker.len(), 2);
    let (name, done, total) = tracker.entry_at(0);
    assert_eq!((name.as_str(), done, total), ("Foo", 2, 3));
    let (name, done, total) = tracker.entry_at(1);
    assert_eq!((name.as_str(), done, total), ("Bar", 0, 1));
}
