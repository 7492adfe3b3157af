//! What is written for each outcome: a measurement for a success, a
//! diagnostic for a failure, one line each.

use crate::config::RunConfig;
use crate::decimal::decimal;
use crate::decimal::decimal_string;
use crate::fetch::rate;
use crate::fetch::throughput;
use crate::fetch::ErrorKind;
use crate::fetch::FetchOutcome;
use crate::json::no_members;
use crate::json::object_new;
use crate::json::number_value;
use crate::json::object_put;
use crate::json::object_text;
use crate::json::object_to_text;
use crate::json::text_value;
use crate::json::Member;
use crate::range::Page;
use vstd::prelude::*;
use vstd::string::StringExecFns;

verus! {

/// The measurement of one successful query: the limits of the run it was
/// made in, the milliseconds it took, and the logs it brought for each
/// millisecond.
#[derive(Clone, Copy, Debug, PartialEq, Eq, Structural)]
pub struct Report {
    pub parallelism: usize,
    pub page_width: u64,
    pub elapsed_ms: u128,
    pub rate: u128,
}

/// The diagnostic of one failed query: the page and why it failed.
#[derive(Clone, Copy, Debug, PartialEq, Eq, Structural)]
pub struct ErrorLine {
    pub page: Page,
    pub error: ErrorKind,
}

/// What one outcome is turned into.
#[derive(Clone, Copy, Debug, PartialEq, Eq, Structural)]
pub enum Emission {
    Report(Report),
    ErrorLine(ErrorLine),
}

/// The emission for an outcome of a run with the given limits.
pub open spec fn emission_of(parallelism: usize, page_width: u64, outcome: FetchOutcome) -> Emission {
    match outcome {
        FetchOutcome::Success { page, log_count, elapsed_ms } => Emission::Report(
            Report {
                parallelism,
                page_width,
                elapsed_ms,
                rate: throughput(log_count as nat, elapsed_ms as nat) as u128,
            },
        ),
        FetchOutcome::Failure { page, error } => Emission::ErrorLine(ErrorLine { page, error }),
    }
}

/// Turns one outcome into what is written for it. The result depends on
/// the outcome and the limits of the run alone, so outcomes can be
/// consumed one by one, in any order.
pub fn consume(config: &RunConfig, outcome: FetchOutcome) -> (emission: Emission)
    ensures
        emission == emission_of(config.parallelism(), config.page_width(), outcome),
        emission is Report <==> outcome is Success,
{
    match outcome {
        FetchOutcome::Success { page, log_count, elapsed_ms } => Emission::Report(
            Report {
                parallelism: config.max_parallelism(),
                page_width: config.max_page_width(),
                elapsed_ms,
                rate: rate(log_count, elapsed_ms),
            },
        ),
        FetchOutcome::Failure { page, error } => Emission::ErrorLine(ErrorLine { page, error }),
    }
}

/// The members of the JSON object of a report: the two limits as numbers
/// under `parallelism` and `page_size`, the time and the rate as decimal
/// strings under `elapsed` and `rate`.
pub open spec fn report_members(report: Report) -> Map<Seq<char>, Member> {
    no_members().insert("elapsed"@, Member::Text(decimal(report.elapsed_ms as nat))).insert(
        "page_size"@,
        Member::Number(report.page_width),
    ).insert("parallelism"@, Member::Number(report.parallelism as u64)).insert(
        "rate"@,
        Member::Text(decimal(report.rate as nat)),
    )
}

/// The words for a kind of failure.
pub open spec fn error_words(error: ErrorKind) -> Seq<char> {
    match error {
        ErrorKind::Connection => "connection failed"@,
        ErrorKind::Transport => "transport failed"@,
        ErrorKind::RangeTooLarge => "block range too large"@,
        ErrorKind::MalformedResponse => "malformed response"@,
    }
}

/// The line of a report: its JSON object and a line feed.
pub open spec fn report_line(report: Report) -> Seq<char> {
    object_text(report_members(report)) + seq!['\n']
}

/// The line of a diagnostic: the kind of failure and the blocks of the
/// page, and a line feed.
pub open spec fn error_line(line: ErrorLine) -> Seq<char> {
    "Got an error: "@ + error_words(line.error) + " in blocks "@ + decimal(line.page@.start as nat)
        + " to "@ + decimal(line.page@.end as nat) + seq!['\n']
}

/// Ends a line: the text followed by a line feed.
pub fn end_line(text: String) -> (line: String)
    ensures
        line@ == text@ + seq!['\n'],
{
    proof {
        reveal_strlit("\n");
    }
    let line = text.concat("\n");
    assert(line@ =~= text@ + seq!['\n']);
    line
}

impl ErrorKind {
    /// The words for this kind of failure.
    pub fn words(&self) -> (words: &'static str)
        ensures
            words@ == error_words(*self),
    {
        match self {
            ErrorKind::Connection => "connection failed",
            ErrorKind::Transport => "transport failed",
            ErrorKind::RangeTooLarge => "block range too large",
            ErrorKind::MalformedResponse => "malformed response",
        }
    }
}

impl Report {
    /// Writes the report as one line: a JSON object with the members
    /// `elapsed`, `page_size`, `parallelism` and `rate`, and a line feed.
    pub fn to_line(&self) -> (line: String)
        ensures
            line@ == report_line(*self),
    {
        let elapsed = decimal_string(self.elapsed_ms);
        let per_ms = decimal_string(self.rate);
        let mut object = object_new();
        object_put(&mut object, "elapsed", text_value(elapsed.as_str()));
        object_put(&mut object, "page_size", number_value(self.page_width));
        object_put(&mut object, "parallelism", number_value(self.parallelism as u64));
        object_put(&mut object, "rate", text_value(per_ms.as_str()));
        end_line(object_to_text(object))
    }
}

impl ErrorLine {
    /// Writes the diagnostic as one line.
    pub fn to_line(&self) -> (line: String)
        ensures
            line@ == error_line(*self),
    {
        let first = decimal_string(self.page.start() as u128);
        let last = decimal_string(self.page.end() as u128);
        let mut text = String::from_str("Got an error: ");
        text.append(self.error.words());
        text.append(" in blocks ");
        text.append(first.as_str());
        text.append(" to ");
        text.append(last.as_str());
        end_line(text)
    }
}

impl Emission {
    /// The line that is written for the emission.
    pub open spec fn line(&self) -> Seq<char> {
        match *self {
            Emission::Report(report) => report_line(report),
            Emission::ErrorLine(line) => error_line(line),
        }
    }

    /// Writes the emission as one line.
    pub fn to_line(&self) -> (line: String)
        ensures
            line@ == self.line(),
    {
        match self {
            Emission::Report(report) => report.to_line(),
            Emission::ErrorLine(line) => line.to_line(),
        }
    }

    /// Whether the emission is a diagnostic, which goes to the error
    /// stream, and not a measurement, which goes to the output stream.
    pub fn is_error(&self) -> (error: bool)
        ensures
            error == (self is ErrorLine),
    {
        match self {
            Emission::Report(_) => false,
            Emission::ErrorLine(_) => true,
        }
    }
}

} // verus!
