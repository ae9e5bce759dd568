//! Tasks as the screen follows them: which one runs, what its working line says, and what its
//! reports do to the transcript; and the same reports collected without a screen.

use vstd::prelude::*;

use crate::activity::CellRef;
use crate::doc::{body_tone, Block, Doc, Entry, Kind};
use crate::phrases::{fill, filled_by_views, filled_views};
use crate::transcript::{after_change, appended, pushed, replaced, Transcript, TranscriptView};

verus! {

/// One report from a running task: `S` is a stage of its work, `R` a record it keeps.
pub enum Report<S, R> {
    /// It now works on this.
    Subject(String),
    /// It reached a stage.
    Stage(S),
    /// What its working line should say.
    Status(String),
    /// It opened a cell.
    Open(CellRef, Entry),
    /// It replaced its cell.
    Replace(CellRef, Entry),
    /// It added a beat to its cell.
    Append(CellRef, Doc),
    /// It kept a record.
    Record(R),
    /// It stopped unexpectedly, for this reason.
    Crashed(String),
    /// It finished.
    Done,
}

/// The task that runs now, as its working line shows it.
pub struct Job<S> {
    /// Which task it is.
    pub id: u64,
    /// What it works on.
    pub subject: String,
    /// The stage it reached.
    pub stage: Option<S>,
    /// What it asked its working line to say.
    pub status: Option<String>,
    /// Whether it was asked to stop.
    pub stopping: bool,
}

/// A job as sequences.
pub struct JobView<S> {
    /// Which task it is.
    pub id: u64,
    /// What it works on.
    pub subject: Seq<char>,
    /// The stage it reached.
    pub stage: Option<S>,
    /// What its working line says.
    pub status: Option<Seq<char>>,
    /// Whether it was asked to stop.
    pub stopping: bool,
}

/// A job as sequences.
pub open spec fn job_view<S>(j: Job<S>) -> JobView<S> {
    JobView {
        id: j.id,
        subject: j.subject@,
        stage: j.stage,
        status: match j.status {
            Some(t) => Some(t@),
            None => None,
        },
        stopping: j.stopping,
    }
}

/// At most one task at a time, and the number the last one started with.
pub struct Jobs<S> {
    /// The task that runs now.
    pub running: Option<Job<S>>,
    /// The number of the last task started.
    pub last_id: u64,
}

/// The running task as a view.
pub open spec fn running_view<S>(jobs: Jobs<S>) -> Option<JobView<S>> {
    match jobs.running {
        Some(j) => Some(job_view(j)),
        None => None,
    }
}

/// A job's working line after a report: a new subject starts afresh, a stage replaces the
/// status, a status is shown as it is; other reports leave it.
pub open spec fn noted<S, R>(j: JobView<S>, report: Report<S, R>) -> JobView<S> {
    match report {
        Report::Subject(subject) => JobView { subject: subject@, stage: None, status: None, ..j },
        Report::Stage(stage) => JobView { stage: Some(stage), status: None, ..j },
        Report::Status(text) => JobView { status: Some(text@), ..j },
        _ => j,
    }
}

/// The cell saying why a task stopped: `template` with `{why}` filled in.
pub open spec fn crash_text(template: Seq<char>, why: Seq<char>) -> Seq<char> {
    filled_views(template, seq![("why"@, why)])
}

/// Whether `after` is `before` with one more cell at the bottom: a line of `text` of `kind`, in
/// the default tone, opened by no task.
pub open spec fn line_added(before: TranscriptView, after: TranscriptView, kind: Kind, text: Seq<char>) -> bool {
    let t = after_change(before);
    &&& after == (TranscriptView { cells: after.cells, ..t })
    &&& after.cells.len() == before.cells.len() + 1
    &&& after.cells.drop_last() == before.cells
    &&& after.cells.last().0 is None
    &&& after.cells.last().1 == kind
    &&& after.cells.last().2.len() == 1
    &&& after.cells.last().2[0] matches Block::Text { lead, hang, body }
        && lead@.len() == 0 && hang is None && body@.len() == 1
        && body@[0].text@ == text && body@[0].tone == body_tone()
}

/// Adds a line cell of `kind` saying `text`.
fn add_line(transcript: &mut Transcript, kind: Kind, text: &str)
    ensures
        line_added(old(transcript)@, final(transcript)@, kind, text@),
{
    let entry = Entry::text(kind, text);
    transcript.push(entry);
    proof {
        assert(final(transcript)@.cells.drop_last() =~= old(transcript)@.cells);
    }
}

/// Adds the cell saying a task stopped unexpectedly, for `why`.
fn add_crash(transcript: &mut Transcript, template: &str, why: &str)
    ensures
        line_added(old(transcript)@, final(transcript)@, Kind::Error, crash_text(template@, why@)),
{
    let values = [("why", why)];
    let text = fill(template, &values);
    proof {
        filled_by_views(template@, values@);
        assert(crate::phrases::values_view(values@) =~= seq![("why"@, why@)]);
    }
    add_line(transcript, Kind::Error, text.as_str());
}

impl<S> Jobs<S> {
    /// No task has run yet.
    pub fn new() -> (jobs: Jobs<S>)
        ensures
            jobs.running is None,
            jobs.last_id == 0,
    {
        Jobs { running: None, last_id: 0 }
    }

    /// Whether a task runs.
    pub fn is_busy(&self) -> (busy: bool)
        ensures
            busy == (self.running is Some),
    {
        self.running.is_some()
    }

    /// The number for a task about to start; while one runs, only one at a time, `None`, and a
    /// warning cell saying `busy`.
    pub fn begin(&mut self, transcript: &mut Transcript, busy: &str) -> (id: Option<u64>)
        requires
            old(self).last_id < u64::MAX,
        ensures
            final(self).running == old(self).running,
            match old(self).running {
                Some(_) => id is None && final(self).last_id == old(self).last_id
                    && line_added(old(transcript)@, final(transcript)@, Kind::Warning, busy@),
                None => id == Some((old(self).last_id + 1) as u64) && final(self).last_id == old(self).last_id + 1
                    && final(transcript)@ == old(transcript)@,
            },
    {
        if self.running.is_some() {
            add_line(transcript, Kind::Warning, busy);
            return None;
        }
        self.last_id = self.last_id + 1;
        Some(self.last_id)
    }

    /// The task numbered `id` started, working on `subject`.
    pub fn started(&mut self, id: u64, subject: String)
        ensures
            final(self).last_id == old(self).last_id,
            running_view(*final(self)) == Some(JobView::<S> { id, subject: subject@, stage: None, status: None, stopping: false }),
    {
        self.running = Some(Job { id, subject, stage: None, status: None, stopping: false });
    }

    /// A task could not start, for `why`: a cell says so.
    pub fn failed(&self, transcript: &mut Transcript, crashed: &str, why: &str)
        ensures
            line_added(old(transcript)@, final(transcript)@, Kind::Error, crash_text(crashed@, why@)),
    {
        add_crash(transcript, crashed, why);
    }

    /// Marks the running task as asked to stop; `false` when none runs.
    pub fn stop(&mut self) -> (asked: bool)
        ensures
            asked == (old(self).running is Some),
            final(self).last_id == old(self).last_id,
            running_view(*final(self)) == match running_view(*old(self)) {
                Some(j) => Some(JobView { stopping: true, ..j }),
                None => None,
            },
    {
        match &mut self.running {
            Some(job) => {
                job.stopping = true;
                true
            },
            None => false,
        }
    }

    /// Applies one report of task `job`: cells change the transcript whichever task sent them;
    /// a crash adds a cell saying why, from the `crashed` template; the end and the working-line
    /// reports count only from the running task.
    pub fn take<R>(&mut self, transcript: &mut Transcript, job: u64, report: Report<S, R>, crashed: &str)
        ensures
            final(self).last_id == old(self).last_id,
            match report {
                Report::Open(cell, entry) => final(transcript)@ == pushed(old(transcript)@, Some(cell), entry)
                    && running_view(*final(self)) == running_view(*old(self)),
                Report::Replace(cell, entry) => final(transcript)@ == replaced(old(transcript)@, cell, entry)
                    && running_view(*final(self)) == running_view(*old(self)),
                Report::Append(cell, beat) => final(transcript)@ == appended(old(transcript)@, cell, beat)
                    && running_view(*final(self)) == running_view(*old(self)),
                Report::Crashed(why) => line_added(old(transcript)@, final(transcript)@, Kind::Error, crash_text(crashed@, why@))
                    && running_view(*final(self)) == running_view(*old(self)),
                Report::Done => final(transcript)@ == old(transcript)@
                    && running_view(*final(self)) == match running_view(*old(self)) {
                        Some(j) => if j.id == job { None } else { Some(j) },
                        None => None,
                    },
                other => final(transcript)@ == old(transcript)@
                    && running_view(*final(self)) == match running_view(*old(self)) {
                        Some(j) => if j.id == job { Some(noted(j, other)) } else { Some(j) },
                        None => None,
                    },
            },
    {
        match report {
            Report::Open(cell, entry) => transcript.push_from(cell, entry),
            Report::Replace(cell, entry) => transcript.replace(cell, entry),
            Report::Append(cell, beat) => transcript.append(cell, beat),
            Report::Crashed(why) => add_crash(transcript, crashed, why.as_str()),
            Report::Done => {
                let ours = match &self.running {
                    Some(running) => running.id == job,
                    None => false,
                };
                if ours {
                    self.running = None;
                }
            },
            Report::Subject(subject) => {
                match &mut self.running {
                    Some(running) => {
                        if running.id == job {
                            running.subject = subject;
                            running.stage = None;
                            running.status = None;
                        }
                    },
                    None => {},
                }
            },
            Report::Stage(stage) => {
                match &mut self.running {
                    Some(running) => {
                        if running.id == job {
                            running.stage = Some(stage);
                            running.status = None;
                        }
                    },
                    None => {},
                }
            },
            Report::Status(text) => {
                match &mut self.running {
                    Some(running) => {
                        if running.id == job {
                            running.status = Some(text);
                        }
                    },
                    None => {},
                }
            },
            Report::Record(_) => {},
        }
    }
}

/// What a report means to a run collected without a screen.
#[derive(Debug, PartialEq, Eq)]
pub enum Step {
    /// Keep reading.
    Next,
    /// Keep reading, and show this as the working line.
    Status(String),
    /// The task finished.
    Finished,
}

/// Applies one report to a run collected without a screen: cells go to `cells`, records to
/// `records`, a crash adds a cell saying why; a status is handed back, and so is the end.
pub fn collect_step<S, R>(cells: &mut Transcript, records: &mut Vec<R>, report: Report<S, R>, crashed: &str) -> (step: Step)
    ensures
        match report {
            Report::Open(cell, entry) => final(cells)@ == pushed(old(cells)@, Some(cell), entry)
                && final(records)@ == old(records)@ && step == Step::Next,
            Report::Replace(cell, entry) => final(cells)@ == replaced(old(cells)@, cell, entry)
                && final(records)@ == old(records)@ && step == Step::Next,
            Report::Append(cell, beat) => final(cells)@ == appended(old(cells)@, cell, beat)
                && final(records)@ == old(records)@ && step == Step::Next,
            Report::Record(value) => final(cells)@ == old(cells)@ && final(records)@ == old(records)@.push(value)
                && step == Step::Next,
            Report::Status(text) => final(cells)@ == old(cells)@ && final(records)@ == old(records)@
                && (step matches Step::Status(t) && t@ == text@),
            Report::Crashed(why) => line_added(old(cells)@, final(cells)@, Kind::Error, crash_text(crashed@, why@))
                && final(records)@ == old(records)@ && step == Step::Next,
            Report::Done => final(cells)@ == old(cells)@ && final(records)@ == old(records)@ && step == Step::Finished,
            _ => final(cells)@ == old(cells)@ && final(records)@ == old(records)@ && step == Step::Next,
        },
{
    match report {
        Report::Open(cell, entry) => {
            cells.push_from(cell, entry);
            Step::Next
        },
        Report::Replace(cell, entry) => {
            cells.replace(cell, entry);
            Step::Next
        },
        Report::Append(cell, beat) => {
            cells.append(cell, beat);
            Step::Next
        },
        Report::Record(value) => {
            records.push(value);
            Step::Next
        },
        Report::Status(text) => Step::Status(text),
        Report::Crashed(why) => {
            add_crash(cells, crashed, why.as_str());
            Step::Next
        },
        Report::Done => Step::Finished,
        Report::Subject(_) | Report::Stage(_) => Step::Next,
    }
}


/// Whether any cell a run ended with is an error, so a script can tell from the exit code.
pub fn failed(entries: &Vec<Entry>) -> (any: bool)
    ensures
        any == exists|i: int| 0 <= i < entries@.len() && (#[trigger] entries@[i]).kind == Kind::Error,
{
    let mut i: usize = 0;
    while i < entries.len()
        invariant
            i <= entries@.len(),
            forall|j: int| 0 <= j < i ==> (#[trigger] entries@[j]).kind != Kind::Error,
        decreases entries@.len() - i,
    {
        if entries[i].kind == Kind::Error {
            return true;
        }
        i = i + 1;
    }
    false
}

} // verus!
