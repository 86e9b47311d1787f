use archive_transcode::budget::default_jobs;
use archive_transcode::budget::entry_budget;
use archive_transcode::budget::jobs_for;
use archive_transcode::error::Error;
use archive_transcode::job::FileJob;
use archive_transcode::job::Phase;
use archive_transcode::job::Step;
use archive_transcode::schedule::Action;
use archive_transcode::schedule::Stage;
use archive_transcode::writer::open_mode;
use archive_transcode::writer::OpenMode;

#[test]
fn entry_budget_is_the_share_of_one_file() {
    assert_eq!(entry_budget(10, 2), 5);
    assert_eq!(entry_budget(10, 3), 3);
    assert_eq!(entry_budget(10, 10), 1);
    assert_eq!(entry_budget(7, 1), 7);
}

#[test]
fn entry_budget_is_at_least_one() {
    assert_eq!(entry_budget(1, 2), 1);
    assert_eq!(entry_budget(0, 1), 1);
    assert_eq!(entry_budget(3, 4), 1);
}

#[test]
fn default_jobs_leave_one_core() {
    assert_eq!(jobs_for(0), 1);
    assert_eq!(jobs_for(1), 1);
    assert_eq!(jobs_for(2), 1);
    assert_eq!(jobs_for(3), 2);
    assert_eq!(jobs_for(16), 15);
    assert!(default_jobs() >= 1);
}

/// Runs a stage to its end. Completions are reported for the oldest item in
/// flight; `fails` says which items fail. Gives the order of starts and the
/// highest number of items in flight.
fn run(stage: &mut Stage, fails: &[usize]) -> (Vec<usize>, usize) {
    let mut started = Vec::new();
    let mut in_flight: Vec<usize> = Vec::new();
    let mut highest = 0;
    loop {
        match stage.next() {
            Action::Start(index) => {
                started.push(index);
                in_flight.push(index);
                highest = highest.max(in_flight.len());
                assert_eq!(stage.in_flight(), in_flight.len());
            }
            Action::Wait => {
                let index = in_flight.remove(0);
                stage.complete(!fails.contains(&index));
            }
            Action::Done => break,
        }
    }
    assert!(in_flight.is_empty());
    (started, highest)
}

#[test]
fn stage_hands_out_every_item_in_order() {
    let mut stage = Stage::new(3, 7);
    let (started, highest) = run(&mut stage, &[]);
    assert_eq!(started, vec![0, 1, 2, 3, 4, 5, 6]);
    assert_eq!(highest, 3);
    assert!(stage.is_done());
    assert_eq!(stage.finished(), 7);
    assert_eq!(stage.failed(), 0);
    assert_eq!(stage.started(), 7);
    assert_eq!(stage.total(), 7);
    assert_eq!(stage.limit(), 3);
}

#[test]
fn stage_of_nothing_is_done_at_once() {
    let mut stage = Stage::new(4, 0);
    assert_eq!(stage.next(), Action::Done);
    assert!(stage.is_done());
}

#[test]
fn stage_waits_when_the_limit_is_reached() {
    let mut stage = Stage::new(2, 3);
    assert_eq!(stage.next(), Action::Start(0));
    assert_eq!(stage.next(), Action::Start(1));
    assert_eq!(stage.next(), Action::Wait);
    assert_eq!(stage.next(), Action::Wait);
    stage.complete(true);
    assert_eq!(stage.next(), Action::Start(2));
    assert_eq!(stage.next(), Action::Wait);
    stage.complete(true);
    assert_eq!(stage.next(), Action::Wait);
    stage.complete(true);
    assert_eq!(stage.next(), Action::Done);
}

#[test]
fn ten_jobs_for_two_files_run_five_entries_each() {
    let files = 2;
    let entries = entry_budget(10, files);
    assert_eq!(entries, 5);
    let mut outer = Stage::new(files, 6);
    let (_, most_files) = run(&mut outer, &[]);
    assert_eq!(most_files, 2);
    let mut inner = Stage::new(entries, 40);
    let (_, most_entries) = run(&mut inner, &[]);
    assert_eq!(most_entries, 5);
}

#[test]
fn failures_do_not_stop_a_stage() {
    let mut stage = Stage::new(2, 6);
    let (started, highest) = run(&mut stage, &[0, 3, 5]);
    assert_eq!(started, vec![0, 1, 2, 3, 4, 5]);
    assert_eq!(highest, 2);
    assert_eq!(stage.finished(), 6);
    assert_eq!(stage.failed(), 3);
    assert!(stage.is_done());
}

#[test]
fn file_job_closes_the_output_once_after_the_last_entry() {
    let mut job = FileJob::new(2, 3);
    assert_eq!(job.phase(), Phase::Converting);
    assert_eq!(job.next(), Step::StartEntry(0));
    assert_eq!(job.next(), Step::StartEntry(1));
    assert_eq!(job.next(), Step::Wait);
    job.entry_done(false);
    assert_eq!(job.next(), Step::StartEntry(2));
    job.entry_done(true);
    assert_eq!(job.next(), Step::Wait);
    assert_eq!(job.in_flight(), 1);
    job.entry_done(false);
    assert_eq!(job.finished(), 3);
    assert_eq!(job.failed(), 2);
    assert_eq!(job.next(), Step::CloseWriter);
    assert_eq!(job.phase(), Phase::Closing);
    assert_eq!(job.next(), Step::Wait);
    job.writer_closed(true);
    assert_eq!(job.phase(), Phase::Finished(true));
    assert_eq!(job.next(), Step::Finished(true));
    assert_eq!(job.next(), Step::Finished(true));
}

#[test]
fn file_job_without_entries_only_closes_the_output() {
    let mut job = FileJob::new(1, 0);
    assert_eq!(job.next(), Step::CloseWriter);
    job.writer_closed(false);
    assert_eq!(job.next(), Step::Finished(false));
}

#[test]
fn existing_output_is_refused_without_force() {
    assert_eq!(
        open_mode("out/book.cbz", true, false),
        Err(Error::Io(String::from("Output file already exists out/book.cbz")))
    );
    assert_eq!(
        open_mode("out/book.cbz", true, false).unwrap_err().to_string(),
        "IO: Output file already exists out/book.cbz"
    );
}

#[test]
fn output_is_opened_new_or_overwritten() {
    assert_eq!(
        open_mode("out/book.cbz", false, false),
        Ok(OpenMode { create_new: true, truncate: false })
    );
    assert_eq!(
        open_mode("out/book.cbz", false, true),
        Ok(OpenMode { create_new: true, truncate: true })
    );
    assert_eq!(
        open_mode("out/book.cbz", true, true),
        Ok(OpenMode { create_new: false, truncate: true })
    );
}

#[test]
fn error_messages() {
    assert_eq!(Error::Io(String::from("x")).to_string(), "IO: x");
    assert_eq!(Error::ArRead(String::from("x")).to_string(), "Ar-read: x");
    assert_eq!(Error::ZipWrite(String::from("x")).to_string(), "Zip-write: x");
    assert_eq!(Error::SZipWrite(String::from("x")).to_string(), "7Zip-write: x");
    assert_eq!(Error::ImageError(String::from("x")).to_string(), "Encoding: x");
    assert_eq!(Error::AsyncTaskError(String::from("x")).to_string(), "Async task join: x");
    assert_eq!(Error::Other(String::from("x")).to_string(), "x");
    assert_eq!(Error::from(String::from("plain")), Error::Other(String::from("plain")));
}
