//! The report on one run of a command.

use vstd::prelude::*;

use crate::boundary::{BoundaryModel, ObservationBoundary};
use crate::formatting::duration_text;
use crate::observation::{
    concluded, is_conclusive, report_lines, ObservationModel, ProcessObservation,
};
use crate::output::ReportText;
use crate::text::texts;

verus! {

/// What is known about one run of a command once it has ended.
pub struct ExecutionReport {
    command: String,
    seconds: u64,
    nanoseconds: u32,
    exit_code: Option<i32>,
    termination_signal: Option<i32>,
    observation: ProcessObservation,
}

/// What an [`ExecutionReport`] says.
pub struct ExecutionModel {
    pub command: Seq<char>,
    pub seconds: u64,
    pub nanoseconds: u32,
    pub exit_code: Option<i32>,
    pub termination_signal: Option<i32>,
    pub observation: ObservationModel,
}

impl View for ExecutionReport {
    type V = ExecutionModel;

    closed spec fn view(&self) -> ExecutionModel {
        ExecutionModel {
            command: self.command@,
            seconds: self.seconds,
            nanoseconds: self.nanoseconds,
            exit_code: self.exit_code,
            termination_signal: self.termination_signal,
            observation: self.observation@,
        }
    }
}

impl ExecutionModel {
    /// The observation is in order, and the nanoseconds are less than a second.
    pub open spec fn wf(self) -> bool {
        self.observation.wf() && self.nanoseconds < 1_000_000_000
    }

    /// The lines of the report, with a last snapshot of the system.
    pub open spec fn lines(self, boundary: BoundaryModel, ticks_per_second: Option<u64>) -> Seq<
        Seq<char>,
    > {
        report_lines(
            concluded(self.observation, boundary),
            boundary.snapshot.processes,
            is_conclusive(self.observation, boundary.snapshot),
            self.command,
            duration_text(self.seconds, self.nanoseconds),
            self.exit_code,
            self.termination_signal,
            ticks_per_second,
        )
    }
}

impl ExecutionReport {
    /// A report on a command that ran for a time, ended in a way, and was observed meanwhile.
    pub fn new(
        command: String,
        seconds: u64,
        nanoseconds: u32,
        exit_code: Option<i32>,
        termination_signal: Option<i32>,
        observation: ProcessObservation,
    ) -> (report: Self)
        requires
            observation@.wf(),
            nanoseconds < 1_000_000_000,
        ensures
            report@.wf(),
            report@ == (ExecutionModel {
                command: command@,
                seconds,
                nanoseconds,
                exit_code,
                termination_signal,
                observation: observation@,
            }),
    {
        ExecutionReport {
            command,
            seconds,
            nanoseconds,
            exit_code,
            termination_signal,
            observation,
        }
    }

    /// The lines of the report, with a last snapshot of the system.
    pub fn render(self, boundary: &ObservationBoundary, ticks_per_second: Option<u64>) -> (lines: Vec<
        String,
    >)
        requires
            self@.wf(),
            boundary@.wf(),
        ensures
            texts(lines@) == self@.lines(boundary@, ticks_per_second),
    {
        let mut observation = self.observation;
        let mut report = ReportText::new();
        observation.print_report(
            boundary,
            self.command.as_str(),
            self.seconds,
            self.nanoseconds,
            self.exit_code,
            self.termination_signal,
            ticks_per_second,
            &mut report,
        );
        assert(report@ =~= self@.lines(boundary@, ticks_per_second));
        report.into_lines()
    }
}

} // verus!
