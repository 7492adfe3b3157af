//! One log query per page: the request that is sent, and the outcome that
//! is recorded once the response has come back and has been timed.

use crate::address::Address;
use crate::range::BlockRange;
use crate::range::Page;
use vstd::prelude::*;

verus! {

/// Why a log query produced no logs.
#[derive(Clone, Copy, Debug, PartialEq, Eq, Structural)]
pub enum ErrorKind {
    /// The node could not be reached.
    Connection,
    /// The request or its response was lost on the way.
    Transport,
    /// The node refused the page as too wide.
    RangeTooLarge,
    /// The response could not be read.
    MalformedResponse,
}

/// What the client could tell of a query that brought no logs.
#[derive(Clone, Copy, Debug, PartialEq, Eq, Structural)]
pub struct FailureFacts {
    /// The node answered, and its answer was an error.
    pub rejected_by_node: bool,
    /// An answer came that could not be read.
    pub unreadable: bool,
    /// No connection to the node could be made.
    pub unreachable: bool,
}

/// The kind of a failure, from what the client could tell of it. A node
/// that answers a log query with an error refuses the page, whatever else
/// is known; an answer that could not be read is malformed; without an
/// answer, the node was either out of reach or the query was lost on the
/// way.
pub open spec fn kind_of_failure(facts: FailureFacts) -> ErrorKind {
    if facts.rejected_by_node {
        ErrorKind::RangeTooLarge
    } else if facts.unreadable {
        ErrorKind::MalformedResponse
    } else if facts.unreachable {
        ErrorKind::Connection
    } else {
        ErrorKind::Transport
    }
}

/// Classifies a failed query.
pub fn classify(facts: FailureFacts) -> (kind: ErrorKind)
    ensures
        kind == kind_of_failure(facts),
{
    if facts.rejected_by_node {
        ErrorKind::RangeTooLarge
    } else if facts.unreadable {
        ErrorKind::MalformedResponse
    } else if facts.unreachable {
        ErrorKind::Connection
    } else {
        ErrorKind::Transport
    }
}

/// A log query: every log that `address` emitted in the blocks of `range`.
#[derive(Clone, Copy, Debug, PartialEq, Eq)]
pub struct LogQuery {
    pub address: Address,
    pub range: BlockRange,
}

/// The query for the logs of `address` in `page`, from the first block of
/// the page to its last.
pub fn log_query(address: Address, page: Page) -> (query: LogQuery)
    ensures
        query.address == address,
        query.range == page,
{
    LogQuery { address, range: page }
}

/// What came back for one query: the number of logs or the failure, and
/// the milliseconds between sending the request and receiving the answer.
#[derive(Clone, Copy, Debug, PartialEq, Eq)]
pub struct Response {
    pub logs: Result<usize, ErrorKind>,
    pub elapsed_ms: u128,
}

/// The outcome of the query for one page.
#[derive(Clone, Copy, Debug, PartialEq, Eq, Structural)]
pub enum FetchOutcome {
    Success { page: Page, log_count: usize, elapsed_ms: u128 },
    Failure { page: Page, error: ErrorKind },
}

/// The outcome for `page` given the response to its query: a success with
/// the number of logs and the time, or a failure with its kind.
pub open spec fn outcome_of(page: Page, response: Response) -> FetchOutcome {
    match response.logs {
        Ok(log_count) => FetchOutcome::Success { page, log_count, elapsed_ms: response.elapsed_ms },
        Err(error) => FetchOutcome::Failure { page, error },
    }
}

/// Logs per millisecond, rounded down; zero when no time was measured.
pub open spec fn throughput(log_count: nat, elapsed_ms: nat) -> nat {
    if elapsed_ms == 0 {
        0
    } else {
        log_count / elapsed_ms
    }
}

/// Logs per millisecond, rounded down. A response that took less than a
/// millisecond has no measurable rate, which is reported as zero.
pub fn rate(log_count: usize, elapsed_ms: u128) -> (per_ms: u128)
    ensures
        per_ms == throughput(log_count as nat, elapsed_ms as nat),
{
    if elapsed_ms == 0 {
        0
    } else {
        log_count as u128 / elapsed_ms
    }
}

impl FetchOutcome {
    /// The page that the outcome belongs to.
    pub open spec fn spec_page(&self) -> Page {
        match *self {
            FetchOutcome::Success { page, .. } => page,
            FetchOutcome::Failure { page, .. } => page,
        }
    }

    /// What the outcome says of the page's logs, without the time it took.
    pub open spec fn content(&self) -> Result<usize, ErrorKind> {
        match *self {
            FetchOutcome::Success { log_count, .. } => Ok(log_count),
            FetchOutcome::Failure { error, .. } => Err(error),
        }
    }

    /// Records the response to the query for `page`: a success with the
    /// number of logs and the time, or a failure with its kind. A failure
    /// is recorded, not raised.
    pub fn from_response(page: Page, response: Response) -> (outcome: FetchOutcome)
        ensures
            outcome == outcome_of(page, response),
            outcome.spec_page() == page,
            outcome.content() == response.logs,
            outcome is Success <==> response.logs is Ok,
    {
        match response.logs {
            Ok(log_count) => FetchOutcome::Success {
                page,
                log_count,
                elapsed_ms: response.elapsed_ms,
            },
            Err(error) => FetchOutcome::Failure { page, error },
        }
    }

    /// The page that the outcome belongs to.
    #[verifier::when_used_as_spec(spec_page)]
    pub fn page(&self) -> (page: Page)
        ensures
            page == self.spec_page(),
    {
        match self {
            FetchOutcome::Success { page, .. } => *page,
            FetchOutcome::Failure { page, .. } => *page,
        }
    }

    /// Whether the query succeeded.
    pub fn is_success(&self) -> (success: bool)
        ensures
            success == (self is Success),
    {
        match self {
            FetchOutcome::Success { .. } => true,
            FetchOutcome::Failure { .. } => false,
        }
    }
}

} // verus!
