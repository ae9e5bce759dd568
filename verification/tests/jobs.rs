use zk_tui::activity::CellRef;
use zk_tui::doc::{plain, Doc, Entry, Kind};
use zk_tui::jobs::{collect_step, failed, Jobs, Report, Step};
use zk_tui::transcript::Transcript;

const CRASHED: &str = "The task stopped unexpectedly: {why}";

fn beat(text: &str) -> Doc {
    let mut doc = Doc::new();
    doc.line(vec![plain(text)]);
    doc
}

#[test]
fn a_second_run_waits_for_the_first() {
    let mut jobs: Jobs<u8> = Jobs::new();
    let mut transcript = Transcript::new();
    let first = jobs.begin(&mut transcript, "A run is still going. Press esc to stop it first.");
    assert_eq!(first, Some(1));
    jobs.started(1, "Slow".to_string());
    assert!(jobs.is_busy());
    assert_eq!(jobs.begin(&mut transcript, "A run is still going. Press esc to stop it first."), None);
    let entries = transcript.into_entries();
    assert_eq!(entries, [Entry::text(Kind::Warning, "A run is still going. Press esc to stop it first.")]);
    assert!(jobs.stop());
    assert!(jobs.running.as_ref().unwrap().stopping);
}

#[test]
fn activities_stream_story_beats_into_one_cell() {
    let mut jobs: Jobs<u8> = Jobs::new();
    let mut transcript = Transcript::new();
    let id = jobs.begin(&mut transcript, "busy").unwrap();
    jobs.started(id, "the cave".to_string());
    let cell = CellRef::new(id, 0);
    let reports: Vec<Report<u8, String>> = vec![
        Report::Status("Mick walks into the cave".to_string()),
        Report::Open(cell, Entry::text(Kind::Story, "Beat one.")),
        Report::Append(cell, beat("Beat two.")),
        Report::Append(cell, beat("Beat three.")),
    ];
    for report in reports {
        jobs.take(&mut transcript, id, report, CRASHED);
    }
    assert_eq!(jobs.running.as_ref().unwrap().status.as_deref(), Some("Mick walks into the cave"));
    jobs.take::<String>(&mut transcript, id, Report::Done, CRASHED);
    assert!(!jobs.is_busy());
    let entries = transcript.into_entries();
    assert_eq!(entries.len(), 1);
    assert_eq!(entries[0].kind, Kind::Story);
    assert_eq!(entries[0].doc.blocks.len(), 3);
}

#[test]
fn a_crashing_activity_becomes_an_error_cell() {
    let mut jobs: Jobs<u8> = Jobs::new();
    let mut transcript = Transcript::new();
    jobs.take::<String>(&mut transcript, 1, Report::Crashed("deliberate".to_string()), CRASHED);
    let entries = transcript.into_entries();
    assert_eq!(entries, [Entry::text(Kind::Error, "The task stopped unexpectedly: deliberate")]);
}

#[test]
fn reports_from_an_old_task_leave_the_working_line_alone() {
    let mut jobs: Jobs<u8> = Jobs::new();
    let mut transcript = Transcript::new();
    jobs.started(2, "Groth16".to_string());
    jobs.take::<String>(&mut transcript, 1, Report::Status("stale".to_string()), CRASHED);
    jobs.take::<String>(&mut transcript, 1, Report::Done, CRASHED);
    assert!(jobs.is_busy(), "the end of another task does not end this one");
    assert_eq!(jobs.running.as_ref().unwrap().status, None);
    jobs.take::<String>(&mut transcript, 2, Report::Stage(3), CRASHED);
    jobs.take::<String>(&mut transcript, 2, Report::Status("proving".to_string()), CRASHED);
    jobs.take::<String>(&mut transcript, 2, Report::Subject("Halo 2".to_string()), CRASHED);
    let job = jobs.running.as_ref().unwrap();
    assert_eq!((job.subject.as_str(), job.stage, job.status.as_deref()), ("Halo 2", None, None));
}

#[test]
fn a_run_without_a_screen_keeps_cells_records_and_statuses() {
    let mut cells = Transcript::new();
    let mut records: Vec<String> = Vec::new();
    let cell = CellRef::new(0, 0);
    let step = collect_step::<u8, String>(&mut cells, &mut records, Report::Open(cell, Entry::text(Kind::Running, "working")), CRASHED);
    assert_eq!(step, Step::Next);
    collect_step::<u8, String>(&mut cells, &mut records, Report::Replace(cell, Entry::text(Kind::Result, "done")), CRASHED);
    collect_step::<u8, String>(&mut cells, &mut records, Report::Record("{\"ok\":true}".to_string()), CRASHED);
    let status = collect_step::<u8, String>(&mut cells, &mut records, Report::Status("half way".to_string()), CRASHED);
    assert_eq!(status, Step::Status("half way".to_string()));
    collect_step::<u8, String>(&mut cells, &mut records, Report::Crashed("late".to_string()), CRASHED);
    assert_eq!(collect_step::<u8, String>(&mut cells, &mut records, Report::Done, CRASHED), Step::Finished);
    assert_eq!(records, ["{\"ok\":true}"]);
    let entries = cells.into_entries();
    assert_eq!(entries, [Entry::text(Kind::Result, "done"), Entry::text(Kind::Error, "The task stopped unexpectedly: late")]);
    assert!(failed(&entries), "a crash fails the run");
    assert!(!failed(&entries[..1].to_vec()));
}
