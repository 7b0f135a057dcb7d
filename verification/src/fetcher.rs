//! The adaptive log fetcher: one query, repeated over a narrower range for as
//! long as the provider rejects it and names a range that it would accept.
//!
//! The driver sends `request()` to the provider, hands the answer to
//! `on_reply`, and either sends the filter that comes back or is done.
//!
//! The fetch is given a number of retries. A provider that goes on
//! suggesting ranges past that number has its last rejection surfaced as
//! `FetchError::RangeTooLarge`.

use vstd::prelude::*;
use crate::negotiator::{negotiated_range, retry_with_block_range};
use crate::types::{BlockRange, BlockRangeFilter, FetchError, FilterView, LogRecord, ProviderError};

verus! {

/// What the provider answered.
#[derive(Clone, Debug, PartialEq, Eq)]
pub enum FetchReply {
    /// The logs of the requested range, in the provider's order.
    Logs(Vec<LogRecord>),
    /// A rejection or a failure.
    Failed(ProviderError),
}

/// What follows from an answer.
#[derive(Debug, PartialEq, Eq)]
pub enum FetchStep {
    /// Send this filter next.
    Retry(BlockRangeFilter),
    /// The fetch is over with this result.
    Done(Result<Vec<LogRecord>, FetchError>),
}

/// The mathematical content of a `FetchStep`.
pub enum FetchStepView {
    Retry(FilterView),
    Done(Result<Vec<LogRecord>, FetchError>),
}

impl View for FetchStep {
    type V = FetchStepView;

    open spec fn view(&self) -> FetchStepView {
        match *self {
            FetchStep::Retry(f) => FetchStepView::Retry(f@),
            FetchStep::Done(r) => FetchStepView::Done(r),
        }
    }
}

/// The mathematical content of a `LogFetch`.
pub struct FetchView {
    pub filter: FilterView,
    pub retries_left: u64,
}

impl FetchView {
    /// The query as it is dispatched: the filter with its range clamped.
    pub open spec fn request(self) -> FilterView {
        self.filter.with_range(self.filter.range.spec_normalized())
    }

    /// The answer asks for a retry: the query failed, the error suggests a
    /// range, and the retry budget is not spent.
    pub open spec fn retries(self, reply: FetchReply, hint: Option<BlockRange>) -> bool {
        reply is Failed && hint is Some && self.retries_left > 0
    }

    /// The state after `reply`: a retry moves the filter onto the suggested
    /// range and uses up one retry; any other answer changes nothing.
    pub open spec fn after(self, reply: FetchReply, hint: Option<BlockRange>) -> FetchView {
        if self.retries(reply, hint) {
            FetchView {
                filter: self.filter.with_range(hint->0.spec_normalized()),
                retries_left: (self.retries_left - 1) as u64,
            }
        } else {
            self
        }
    }

    /// What follows from `reply`: logs are passed through as they came; a
    /// failure that suggests a range is retried over it while the budget
    /// lasts; every other failure is surfaced.
    pub open spec fn outcome(self, reply: FetchReply, hint: Option<BlockRange>) -> FetchStepView {
        match reply {
            FetchReply::Logs(logs) => FetchStepView::Done(Ok(logs)),
            FetchReply::Failed(error) => match hint {
                Some(range) => if self.retries_left > 0 {
                    FetchStepView::Retry(self.after(reply, hint).request())
                } else {
                    FetchStepView::Done(Err(FetchError::RangeTooLarge(error)))
                },
                None => FetchStepView::Done(Err(FetchError::ProviderTransportError(error))),
            },
        }
    }
}

/// The range that a failed answer's error suggests; logs suggest none.
pub open spec fn hint_of(reply: FetchReply) -> Option<BlockRange> {
    match reply {
        FetchReply::Failed(error) => negotiated_range(error.message@),
        FetchReply::Logs(_) => None,
    }
}

/// One adaptive fetch in progress.
#[derive(Clone, Debug, PartialEq, Eq)]
pub struct LogFetch {
    filter: BlockRangeFilter,
    retries_left: u64,
}

impl View for LogFetch {
    type V = FetchView;

    closed spec fn view(&self) -> FetchView {
        FetchView { filter: self.filter@, retries_left: self.retries_left }
    }
}

impl LogFetch {
    /// Prepares a fetch of `filter` that may be narrowed `max_retries` times.
    pub fn new(filter: BlockRangeFilter, max_retries: u64) -> (f: LogFetch)
        ensures
            f@ == (FetchView { filter: filter@, retries_left: max_retries }),
    {
        LogFetch { filter: filter, retries_left: max_retries }
    }

    /// The retries that are left.
    pub fn retries_left(&self) -> (n: u64)
        ensures
            n == self@.retries_left,
    {
        self.retries_left
    }

    /// The query to send now. Its range is ordered.
    pub fn request(&self) -> (r: BlockRangeFilter)
        ensures
            r@ == self@.request(),
            r@.range.is_ordered(),
    {
        self.filter.normalized()
    }

    /// Digests the provider's answer, where `hint` is the narrower range
    /// that a failure's error suggested, if it suggested one.
    pub fn on_reply_with_hint(&mut self, reply: FetchReply, hint: Option<BlockRange>) -> (step:
        FetchStep)
        ensures
            final(self)@ == old(self)@.after(reply, hint),
            step@ == old(self)@.outcome(reply, hint),
            step@ matches FetchStepView::Retry(f) ==> f.range.is_ordered(),
    {
        match reply {
            FetchReply::Logs(logs) => FetchStep::Done(Ok(logs)),
            FetchReply::Failed(error) => match hint {
                Some(range) => {
                    if self.retries_left > 0 {
                        let narrowed = range.normalized();
                        self.filter.from_block = narrowed.from;
                        self.filter.to_block = narrowed.to;
                        self.retries_left = self.retries_left - 1;
                        FetchStep::Retry(self.request())
                    } else {
                        FetchStep::Done(Err(FetchError::RangeTooLarge(error)))
                    }
                },
                None => FetchStep::Done(Err(FetchError::ProviderTransportError(error))),
            },
        }
    }

    /// Digests the provider's answer. The error of a failure is searched for
    /// a narrower range; where it suggests one, the fetch goes on over it.
    pub fn on_reply(&mut self, reply: FetchReply) -> (step: FetchStep)
        ensures
            final(self)@ == old(self)@.after(reply, hint_of(reply)),
            step@ == old(self)@.outcome(reply, hint_of(reply)),
            step@ matches FetchStepView::Retry(f) ==> f.range.is_ordered(),
    {
        let hint = match &reply {
            FetchReply::Failed(error) => retry_with_block_range(error),
            FetchReply::Logs(_) => None,
        };
        self.on_reply_with_hint(reply, hint)
    }
}

/// A fetch that is rejected once with a suggested range and then answered
/// with logs asks exactly once more, over exactly the suggested range (its
/// bounds clamped into order) with the addresses and topics unchanged, and
/// ends with the logs of that second answer.
pub proof fn lemma_narrowed_once(
    fetch: FetchView,
    error: ProviderError,
    range: BlockRange,
    logs: Vec<LogRecord>,
)
    requires
        fetch.retries_left > 0,
    ensures
        fetch.outcome(FetchReply::Failed(error), Some(range)) == FetchStepView::Retry(
            fetch.filter.with_range(range.spec_normalized()),
        ),
        fetch.after(FetchReply::Failed(error), Some(range)).outcome(FetchReply::Logs(logs), None)
            == FetchStepView::Done(Ok(logs)),
{
    let narrowed = range.spec_normalized();
    assert(narrowed.spec_normalized() == narrowed);
}

/// Every query that a fetch sends has `from <= to`, whatever range the
/// filter was given and whatever range the provider suggested.
pub proof fn lemma_requests_are_ordered(fetch: FetchView, reply: FetchReply, hint: Option<BlockRange>)
    ensures
        fetch.request().range.is_ordered(),
        fetch.after(reply, hint).request().range.is_ordered(),
        fetch.outcome(reply, hint) matches FetchStepView::Retry(f) ==> f.range.is_ordered(),
{
}

} // verus!
