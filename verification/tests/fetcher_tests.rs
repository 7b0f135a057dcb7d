use rindexer_core::fetcher::{FetchReply, FetchStep, LogFetch};
use rindexer_core::types::{
    Address, BlockRange, BlockRangeFilter, FetchError, Hash256, LogRecord, ProviderError,
};

fn filter(from: u64, to: u64) -> BlockRangeFilter {
    BlockRangeFilter {
        from_block: from,
        to_block: to,
        addresses: vec![Address { hi: 0xdead, lo: 0xbeef }],
        topics: vec![Hash256 { hi: 1, lo: 2 }],
    }
}

fn log(block: u64, index: u64) -> LogRecord {
    LogRecord {
        address: Address { hi: 0xdead, lo: 0xbeef },
        topics: vec![Hash256 { hi: 1, lo: 2 }],
        data: vec![block as u8, index as u8],
        block_number: block,
        block_hash: Hash256 { hi: 7, lo: block as u128 },
        transaction_index: 0,
        log_index: index,
    }
}

fn failure(message: &str) -> ProviderError {
    ProviderError { code: Some(-32005), message: message.to_string() }
}

#[test]
fn first_request_is_the_filter_itself() {
    let fetch = LogFetch::new(filter(10, 20), 3);
    assert_eq!(fetch.request(), filter(10, 20));
    assert_eq!(fetch.retries_left(), 3);
}

#[test]
fn reversed_filter_is_clamped_before_dispatch() {
    let fetch = LogFetch::new(filter(30, 20), 3);
    assert_eq!(fetch.request(), filter(20, 20));
}

#[test]
fn logs_are_passed_through_in_provider_order() {
    let mut fetch = LogFetch::new(filter(10, 20), 3);
    let logs = vec![log(12, 1), log(12, 0), log(11, 5)];
    let step = fetch.on_reply(FetchReply::Logs(logs.clone()));
    assert_eq!(step, FetchStep::Done(Ok(logs)));
}

#[test]
fn narrowed_once_then_succeeds() {
    let mut fetch = LogFetch::new(filter(0, 1000), 5);
    let mut requests: Vec<BlockRangeFilter> = vec![fetch.request()];
    let mut replies = vec![
        FetchReply::Logs(vec![log(1, 0), log(5, 0)]),
        FetchReply::Failed(failure("this block range should work: [0x1, 0x5]")),
    ];
    let mut result = None;
    while let Some(reply) = replies.pop() {
        match fetch.on_reply(reply) {
            FetchStep::Retry(next) => requests.push(next),
            FetchStep::Done(done) => {
                result = Some(done);
                break;
            }
        }
    }
    assert_eq!(requests, vec![filter(0, 1000), filter(1, 5)]);
    assert_eq!(result, Some(Ok(vec![log(1, 0), log(5, 0)])));
    assert!(replies.is_empty());
    assert_eq!(fetch.retries_left(), 4);
}

#[test]
fn failure_without_suggestion_is_surfaced() {
    let mut fetch = LogFetch::new(filter(0, 1000), 5);
    let step = fetch.on_reply(FetchReply::Failed(failure("connection reset")));
    assert_eq!(
        step,
        FetchStep::Done(Err(FetchError::ProviderTransportError(failure("connection reset"))))
    );
    assert_eq!(fetch.request(), filter(0, 1000));
    assert_eq!(fetch.retries_left(), 5);
}

#[test]
fn spent_budget_surfaces_the_rejection() {
    let mut fetch = LogFetch::new(filter(0, 1000), 1);
    let first = fetch.on_reply(FetchReply::Failed(failure("this block range should work: [0x0, 0x1f4]")));
    assert_eq!(first, FetchStep::Retry(filter(0, 500)));
    let second = fetch.on_reply(FetchReply::Failed(failure("this block range should work: [0x0, 0xfa]")));
    assert_eq!(
        second,
        FetchStep::Done(Err(FetchError::RangeTooLarge(failure(
            "this block range should work: [0x0, 0xfa]"
        ))))
    );
    assert_eq!(fetch.request(), filter(0, 500));
}

#[test]
fn zero_budget_never_retries() {
    let mut fetch = LogFetch::new(filter(0, 10), 0);
    let step = fetch.on_reply(FetchReply::Failed(failure("this block range should work: [0x0, 0x5]")));
    assert!(matches!(step, FetchStep::Done(Err(FetchError::RangeTooLarge(_)))));
}

#[test]
fn reversed_suggestion_is_clamped_before_dispatch() {
    let mut fetch = LogFetch::new(filter(0, 1000), 2);
    let step = fetch.on_reply(FetchReply::Failed(failure("this block range should work: [0x9, 0x3]")));
    assert_eq!(step, FetchStep::Retry(filter(3, 3)));
}

#[test]
fn explicit_hint_is_used_as_given() {
    let mut fetch = LogFetch::new(filter(0, 1000), 2);
    let step = fetch.on_reply_with_hint(
        FetchReply::Failed(failure("too many results")),
        Some(BlockRange { from: 40, to: 60 }),
    );
    assert_eq!(step, FetchStep::Retry(filter(40, 60)));
    let step = fetch.on_reply_with_hint(FetchReply::Logs(vec![]), Some(BlockRange { from: 1, to: 2 }));
    assert_eq!(step, FetchStep::Done(Ok(vec![])));
    assert_eq!(fetch.retries_left(), 1);
}

#[test]
fn with_range_keeps_addresses_and_topics() {
    let f = filter(1, 2).with_range(BlockRange { from: 8, to: 9 });
    assert_eq!(f, filter(8, 9));
    assert_eq!(f.range(), BlockRange { from: 8, to: 9 });
    assert_eq!(filter(9, 8).normalized(), filter(8, 8));
}
