use notedmd::assembler::append_markdown;
use notedmd::checkpoint::ProcessingProgress;
use notedmd::checkpoint::ProgressTracker;
use notedmd::resolver::resolve;
use notedmd::scheduler::BatchScheduler;

#[test]
fn assembles_with_delimiter_between_nonempty_segments() {
    let mut out = String::new();
    append_markdown(&mut out, "Page A");
    assert_eq!(out, "Page A");
    append_markdown(&mut out, "Page B");
    assert_eq!(out, "Page A\n\n---\n\nPage B");
}

#[test]
fn assembles_without_delimiter_around_empty_segments() {
    let mut out = String::new();
    append_markdown(&mut out, "");
    assert_eq!(out, "");
    append_markdown(&mut out, "x");
    assert_eq!(out, "x");
    append_markdown(&mut out, "");
    assert_eq!(out, "x");
}

#[test]
fn runs_selection_in_three_batches() {
    // total_pages = 10, "1,3,5-8", pages_per_batch = 2:
    // batches [0,2], [4,5], [6,7]; watermarks 3, 6, 8; then the record goes.
    let mut tracker = ProgressTracker::new();
    let pages = resolve("1,3,5-8", 10).unwrap();
    let mut sched = BatchScheduler::start(
        "notes.pdf".to_string(),
        10,
        Some(pages),
        2,
        None,
        &mut tracker,
    )
    .unwrap();

    assert!(!sched.is_finished());
    assert_eq!(sched.current_batch(), vec![0, 2]);
    sched.commit_batch("one", &mut tracker);
    assert_eq!(tracker.get_progress("notes.pdf").unwrap().last_processed_page, 3);
    assert_eq!(tracker.get_progress("notes.pdf").unwrap().total_pages, 10);

    assert_eq!(sched.current_batch(), vec![4, 5]);
    sched.commit_batch("two", &mut tracker);
    assert_eq!(tracker.get_progress("notes.pdf").unwrap().last_processed_page, 6);

    assert_eq!(sched.current_batch(), vec![6, 7]);
    sched.commit_batch("three", &mut tracker);
    assert!(sched.is_finished());
    // the final batch's commit stores the watermark like any other
    assert_eq!(tracker.get_progress("notes.pdf").unwrap().last_processed_page, 8);
    // all six requested pages were processed: completion removes the record
    sched.complete(&mut tracker);
    assert!(tracker.get_progress("notes.pdf").is_none());
    assert_eq!(sched.content().as_str(), "one\n\n---\n\ntwo\n\n---\n\nthree");
}

#[test]
fn rerunning_a_completed_conversion_schedules_nothing() {
    let mut tracker = ProgressTracker::new();
    let mut sched =
        BatchScheduler::start("doc.pdf".to_string(), 4, None, 2, None, &mut tracker).unwrap();
    sched.commit_batch("a", &mut tracker);
    sched.commit_batch("b", &mut tracker);
    assert!(sched.is_finished());
    assert_eq!(tracker.get_progress("doc.pdf").unwrap().last_processed_page, 4);
    sched.complete(&mut tracker);
    assert!(tracker.get_progress("doc.pdf").is_none());
    let final_output = sched.content().clone();

    // identical re-invocation: no record, but the output file exists
    let again = BatchScheduler::start(
        "doc.pdf".to_string(),
        4,
        None,
        2,
        Some(final_output.clone()),
        &mut tracker,
    );
    // nothing is scheduled, so no backend call can happen and the output
    // is never rewritten
    assert!(again.is_none());
    assert!(tracker.get_progress("doc.pdf").is_none());
    assert_eq!(final_output, "a\n\n---\n\nb");
}

#[test]
fn failed_batch_leaves_prior_batches_committed() {
    // 6 pages, batch size 2: the backend fails on batch 2 of 3.
    let mut tracker = ProgressTracker::new();
    let mut sched =
        BatchScheduler::start("d.pdf".to_string(), 6, None, 2, None, &mut tracker).unwrap();
    assert_eq!(sched.current_batch(), vec![0, 1]);
    sched.commit_batch("b1", &mut tracker);

    // batch 2 would be [2,3]; its conversion fails, so nothing is committed
    assert_eq!(sched.current_batch(), vec![2, 3]);
    // the output holds exactly the batches before the failed one
    assert_eq!(sched.content().as_str(), "b1");
    // the watermark is the first page of the failed batch
    assert_eq!(tracker.get_progress("d.pdf").unwrap().last_processed_page, 2);
}

#[test]
fn resumes_from_watermark_and_keeps_watermark_monotone() {
    let mut tracker = ProgressTracker::new();

    // first run dies after one batch
    let mut first =
        BatchScheduler::start("m.pdf".to_string(), 6, None, 2, None, &mut tracker).unwrap();
    first.commit_batch("b1", &mut tracker);
    let w1 = tracker.get_progress("m.pdf").unwrap().last_processed_page;
    assert_eq!(w1, 2);
    let recovered = first.content().clone();
    drop(first);

    // second run resumes at the watermark with the recovered output
    let mut second = BatchScheduler::start(
        "m.pdf".to_string(),
        6,
        None,
        2,
        Some(recovered),
        &mut tracker,
    )
    .unwrap();
    assert_eq!(second.current_batch(), vec![2, 3]);
    second.commit_batch("b2", &mut tracker);
    let w2 = tracker.get_progress("m.pdf").unwrap().last_processed_page;
    assert!(w2 >= w1);
    assert_eq!(w2, 4);

    second.commit_batch("b3", &mut tracker);
    assert!(second.is_finished());
    assert_eq!(tracker.get_progress("m.pdf").unwrap().last_processed_page, 6);
    second.complete(&mut tracker);
    assert!(tracker.get_progress("m.pdf").is_none());
    assert_eq!(second.content().as_str(), "b1\n\n---\n\nb2\n\n---\n\nb3");
}

#[test]
fn explicit_selection_skips_pages_below_watermark() {
    let mut tracker = ProgressTracker::new();
    tracker.update_progress(
        "s.pdf".to_string(),
        ProcessingProgress { last_processed_page: 4, total_pages: 10 },
    );
    let pages = resolve("2,5-7", 10).unwrap();
    let mut sched = BatchScheduler::start(
        "s.pdf".to_string(),
        10,
        Some(pages),
        30,
        Some("old".to_string()),
        &mut tracker,
    )
    .unwrap();
    // page index 1 (page 2) is below the watermark 4 and is not redone
    assert_eq!(sched.current_batch(), vec![4, 5, 6]);
    sched.commit_batch("rest", &mut tracker);
    assert!(sched.is_finished());
    assert_eq!(tracker.get_progress("s.pdf").unwrap().last_processed_page, 7);
    sched.complete(&mut tracker);
    assert!(tracker.get_progress("s.pdf").is_none());
    assert_eq!(sched.content().as_str(), "old\n\n---\n\nrest");
}

#[test]
fn fully_processed_selection_marks_document_completed() {
    let mut tracker = ProgressTracker::new();
    tracker.update_progress(
        "done.pdf".to_string(),
        ProcessingProgress { last_processed_page: 8, total_pages: 8 },
    );
    // every requested page is below the watermark
    let pages = resolve("1-5", 8).unwrap();
    let r = BatchScheduler::start(
        "done.pdf".to_string(),
        8,
        Some(pages),
        2,
        Some("text".to_string()),
        &mut tracker,
    );
    assert!(r.is_none());
    // completion cleanup: the record is removed
    assert!(tracker.get_progress("done.pdf").is_none());
}

#[test]
fn exhausted_default_selection_marks_document_completed() {
    let mut tracker = ProgressTracker::new();
    tracker.update_progress(
        "end.pdf".to_string(),
        ProcessingProgress { last_processed_page: 3, total_pages: 3 },
    );
    let r = BatchScheduler::start(
        "end.pdf".to_string(),
        3,
        None,
        5,
        Some("text".to_string()),
        &mut tracker,
    );
    assert!(r.is_none());
    assert!(tracker.get_progress("end.pdf").is_none());
}

#[test]
fn batch_bound_larger_than_document_gives_one_batch() {
    let mut tracker = ProgressTracker::new();
    let mut sched =
        BatchScheduler::start("one.pdf".to_string(), 3, None, 30, None, &mut tracker).unwrap();
    assert_eq!(sched.current_batch(), vec![0, 1, 2]);
    sched.commit_batch("all", &mut tracker);
    assert!(sched.is_finished());
    assert_eq!(tracker.get_progress("one.pdf").unwrap().last_processed_page, 3);
    sched.complete(&mut tracker);
    assert!(tracker.get_progress("one.pdf").is_none());
    assert_eq!(sched.content().as_str(), "all");
}

#[test]
fn trackers_keep_documents_independent() {
    let mut tracker = ProgressTracker::new();
    let mut a = BatchScheduler::start("a.pdf".to_string(), 4, None, 2, None, &mut tracker).unwrap();
    a.commit_batch("a1", &mut tracker);
    tracker.update_progress(
        "b.pdf".to_string(),
        ProcessingProgress { last_processed_page: 1, total_pages: 9 },
    );
    assert_eq!(tracker.get_progress("a.pdf").unwrap().last_processed_page, 2);
    assert_eq!(tracker.get_progress("b.pdf").unwrap().total_pages, 9);
    a.commit_batch("a2", &mut tracker);
    assert_eq!(tracker.get_progress("a.pdf").unwrap().last_processed_page, 4);
    a.complete(&mut tracker);
    assert!(tracker.get_progress("a.pdf").is_none());
    assert_eq!(tracker.get_progress("b.pdf").unwrap().last_processed_page, 1);
}

#[test]
fn empty_document_schedules_nothing() {
    let mut tracker = ProgressTracker::new();
    let r = BatchScheduler::start("empty.pdf".to_string(), 0, None, 2, None, &mut tracker);
    assert!(r.is_none());
    assert!(tracker.get_progress("empty.pdf").is_none());
}
