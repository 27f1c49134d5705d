use vstd::prelude::*;
use crate::error::{ExitStatus, ReplayError};
use crate::measure::{spec_output_line, MeasurementRecord};
use crate::text::texts_of;

verus! {

/// What the dispatch loop is told while it waits.
pub enum TaskEvent {
    /// A task has finished, with its measurement or its failure.
    Completed(Result<MeasurementRecord, ReplayError>),
    /// Every task that was submitted has finished.
    Drained,
    /// The user interrupted the run.
    Interrupted,
    /// A task ended without handing in a result.
    Lost { detail: String },
}

/// How a run ended.
pub enum Ending {
    /// Every task reported.
    Complete,
    /// The user interrupted the run.
    Aborted,
    /// A task ended without a result.
    Broken(Seq<char>),
}

/// What is written when a run is over.
pub struct RunReport {
    /// The lines for the primary stream, each with its line feed: one per
    /// measurement, in the order in which the tasks finished.
    pub output: Vec<String>,
    /// The lines for the diagnostic stream, without line feed: one per
    /// failed request, in the order in which the tasks finished.
    pub diagnostics: Vec<String>,
    /// Why the run as a whole failed, if it did.
    pub failure: Option<ReplayError>,
}

/// The results of the tasks that have finished, while the run goes on.
pub struct Collector {
    /// How many tasks were submitted.
    pub total: usize,
    /// What the tasks reported, in the order in which they finished.
    pub results: Vec<Result<MeasurementRecord, ReplayError>>,
}

/// What the dispatch loop does after an event.
pub enum Step {
    /// It goes on waiting, with this state.
    Wait(Collector),
    /// It stops, and this is written.
    Done(RunReport),
}

/// The lines for the primary stream: one for each measurement among
/// `results`, in order.
pub open spec fn spec_output(results: Seq<Result<MeasurementRecord, ReplayError>>) -> Seq<Seq<char>>
    decreases results.len(),
{
    if results.len() == 0 {
        Seq::empty()
    } else {
        let earlier = spec_output(results.drop_last());
        match results.last() {
            Ok(measured) => earlier.push(spec_output_line(measured@)),
            Err(_) => earlier,
        }
    }
}

/// The lines for the diagnostic stream: one for each failure among
/// `results`, in order.
pub open spec fn spec_diagnostics(results: Seq<Result<MeasurementRecord, ReplayError>>) -> Seq<Seq<char>>
    decreases results.len(),
{
    if results.len() == 0 {
        Seq::empty()
    } else {
        let earlier = spec_diagnostics(results.drop_last());
        match results.last() {
            Ok(_) => earlier,
            Err(failure) => earlier.push(failure.spec_message()),
        }
    }
}

impl RunReport {
    /// Whether the report is the one for a run that collected `results`
    /// and ended as `ending` says: a run that broke writes nothing and
    /// fails; any other run writes a line for each result, and fails as
    /// aborted where the user interrupted it.
    pub open spec fn is_report_of(
        self,
        results: Seq<Result<MeasurementRecord, ReplayError>>,
        ending: Ending,
    ) -> bool {
        match ending {
            Ending::Complete => {
                &&& texts_of(self.output@) == spec_output(results)
                &&& texts_of(self.diagnostics@) == spec_diagnostics(results)
                &&& self.failure is None
            },
            Ending::Aborted => {
                &&& texts_of(self.output@) == spec_output(results)
                &&& texts_of(self.diagnostics@) == spec_diagnostics(results)
                &&& self.failure matches Some(ReplayError::Aborted)
            },
            Ending::Broken(reason) => {
                &&& self.output@.len() == 0
                &&& self.diagnostics@.len() == 0
                &&& self.failure matches Some(ReplayError::IoFailure { detail })
                &&& detail@ == reason
            },
        }
    }

    /// How the process exits after the report is written.
    pub open spec fn spec_exit_status(self) -> ExitStatus {
        match self.failure {
            Some(failure) => failure.spec_exit_status(),
            None => ExitStatus::Clean,
        }
    }

    /// How the process exits after the report is written: cleanly where
    /// the run did not fail, and as interrupted where it was aborted.
    pub fn exit_status(&self) -> (out: ExitStatus)
        ensures
            out == self.spec_exit_status(),
            out is Clean <==> self.failure is None,
            out is Interrupted <==> self.failure matches Some(ReplayError::Aborted),
    {
        match &self.failure {
            Some(failure) => failure.exit_status(),
            None => ExitStatus::Clean,
        }
    }
}

/// Writes the lines for the results of the tasks.
fn write_lines(results: &Vec<Result<MeasurementRecord, ReplayError>>) -> (out: (Vec<String>, Vec<String>))
    ensures
        texts_of(out.0@) == spec_output(results@),
        texts_of(out.1@) == spec_diagnostics(results@),
{
    let mut output: Vec<String> = Vec::new();
    let mut diagnostics: Vec<String> = Vec::new();
    let mut i: usize = 0;
    assert(texts_of(output@) == Seq::<Seq<char>>::empty());
    assert(texts_of(diagnostics@) == Seq::<Seq<char>>::empty());
    while i < results.len()
        invariant
            i <= results.len(),
            texts_of(output@) == spec_output(results@.take(i as int)),
            texts_of(diagnostics@) == spec_diagnostics(results@.take(i as int)),
        decreases results.len() - i,
    {
        proof {
            assert(results@.take(i + 1).drop_last() == results@.take(i as int));
        }
        let ghost output_before = texts_of(output@);
        let ghost diagnostics_before = texts_of(diagnostics@);
        match &results[i] {
            Ok(measured) => {
                let line = measured.to_json_line();
                output.push(line);
                assert(texts_of(output@) == output_before.push(line@));
            },
            Err(failure) => {
                let line = failure.message();
                diagnostics.push(line);
                assert(texts_of(diagnostics@) == diagnostics_before.push(line@));
            },
        }
        i += 1;
    }
    assert(results@.take(i as int) == results@);
    (output, diagnostics)
}

impl Collector {
    /// The state of a run of `total` tasks, none of which has finished.
    pub fn new(total: usize) -> (out: Collector)
        ensures
            out.total == total,
            out.results@.len() == 0,
    {
        Collector { total, results: Vec::new() }
    }

    /// How many tasks have finished: the position of the progress counter.
    pub fn finished(&self) -> (out: usize)
        ensures
            out == self.results@.len(),
    {
        self.results.len()
    }

    /// Takes in one event.
    ///
    /// A finished task adds its result and the loop waits on. When all
    /// tasks have finished, or the user interrupts, the loop stops and
    /// the lines for everything collected are written; an interrupted run
    /// fails as aborted. A task that ended without a result stops the
    /// loop with nothing written.
    pub fn step(self, event: TaskEvent) -> (out: Step)
        ensures
            match event {
                TaskEvent::Completed(result) => out matches Step::Wait(next) && next.total == self.total
                    && next.results@ == self.results@.push(result),
                TaskEvent::Drained => out matches Step::Done(report) && report.is_report_of(
                    self.results@,
                    Ending::Complete,
                ),
                TaskEvent::Interrupted => out matches Step::Done(report) && report.is_report_of(
                    self.results@,
                    Ending::Aborted,
                ),
                TaskEvent::Lost { detail } => out matches Step::Done(report) && report.is_report_of(
                    self.results@,
                    Ending::Broken(detail@),
                ),
            },
    {
        let Collector { total, results } = self;
        match event {
            TaskEvent::Completed(result) => {
                let mut results = results;
                results.push(result);
                Step::Wait(Collector { total, results })
            },
            TaskEvent::Drained => {
                let (output, diagnostics) = write_lines(&results);
                Step::Done(RunReport { output, diagnostics, failure: None })
            },
            TaskEvent::Interrupted => {
                let (output, diagnostics) = write_lines(&results);
                Step::Done(RunReport { output, diagnostics, failure: Some(ReplayError::Aborted) })
            },
            TaskEvent::Lost { detail } => Step::Done(
                RunReport {
                    output: Vec::new(),
                    diagnostics: Vec::new(),
                    failure: Some(ReplayError::IoFailure { detail }),
                },
            ),
        }
    }
}

/// An interrupted run writes a line for each measurement that came in
/// before the interrupt, and no other, and does not exit cleanly.
pub proof fn lemma_interrupt_keeps_measurements(
    report: RunReport,
    results: Seq<Result<MeasurementRecord, ReplayError>>,
)
    requires
        report.is_report_of(results, Ending::Aborted),
    ensures
        texts_of(report.output@) == spec_output(results),
        report.spec_exit_status() is Interrupted,
        report.spec_exit_status().spec_code() != 0,
{
}

} // verus!
