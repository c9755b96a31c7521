use reddsaver::fetch::{FetchError, Phase, SavedFetch, SAVED_PAGE_LIMIT};

/// A page as a server script sees it: item count, next cursor, payload.
type ScriptPage = (u64, Option<&'static str>, u32);

/// Drives a fetch the way a transport loop does, answering request `i` with
/// `script[i]` (`Err` for a failed request). Returns the `after` parameter of each
/// request issued and the outcome.
fn drive(
    fetch: &mut SavedFetch<u32>,
    script: &[Result<ScriptPage, FetchError>],
) -> Vec<Option<String>> {
    let mut sent = Vec::new();
    let mut i = 0;
    while let Some(req) = fetch.next_request() {
        assert_eq!(req.limit, SAVED_PAGE_LIMIT);
        sent.push(req.after.clone());
        match script[i] {
            Ok((dist, after, payload)) => {
                fetch.on_page(dist, after.map(|a| a.to_string()), payload)
            }
            Err(e) => fetch.on_failure(e),
        }
        i += 1;
    }
    sent
}

#[test]
fn three_pages_forward_cursors_and_sum_counts() {
    let mut fetch = SavedFetch::new("https://oauth.reddit.com/user/bob/saved".to_string(), 50);
    let script = [Ok((100, Some("t1"), 1)), Ok((100, Some("t2"), 2)), Ok((37, None, 3))];
    let sent = drive(&mut fetch, &script);
    assert_eq!(sent, vec![None, Some("t1".to_string()), Some("t2".to_string())]);
    assert_eq!(fetch.requests_issued(), 3);
    assert_eq!(fetch.processed_count(), 237);
    assert_eq!(fetch.phase(), Phase::Done);
    assert_eq!(fetch.finish(), Ok(vec![1, 2, 3]));
}

#[test]
fn single_empty_page_is_not_an_error() {
    let mut fetch = SavedFetch::new("u".to_string(), 50);
    let sent = drive(&mut fetch, &[Ok((0, None, 9))]);
    assert_eq!(sent, vec![None]);
    assert_eq!(fetch.requests_issued(), 1);
    assert_eq!(fetch.processed_count(), 0);
    assert_eq!(fetch.pages_received(), 1);
    assert_eq!(fetch.finish(), Ok(vec![9]));
}

#[test]
fn transport_failure_on_second_page_stops_the_fetch() {
    let mut fetch = SavedFetch::new("u".to_string(), 50);
    let script = [Ok((100, Some("t1"), 1)), Err(FetchError::Transport), Ok((37, None, 3))];
    let sent = drive(&mut fetch, &script);
    assert_eq!(sent.len(), 2);
    assert_eq!(fetch.requests_issued(), 2);
    assert_eq!(fetch.phase(), Phase::Failed(FetchError::Transport));
    assert!(fetch.next_request().is_none());
    assert_eq!(fetch.finish(), Err(FetchError::Transport));
}

#[test]
fn decode_failure_on_first_page_stops_the_fetch() {
    let mut fetch = SavedFetch::new("u".to_string(), 50);
    let sent = drive(&mut fetch, &[Err(FetchError::Decode), Ok((1, None, 1))]);
    assert_eq!(sent, vec![None]);
    assert_eq!(fetch.processed_count(), 0);
    assert_eq!(fetch.finish(), Err(FetchError::Decode));
}

#[test]
fn cursors_past_the_page_cap_fail_the_fetch() {
    let mut fetch = SavedFetch::new("u".to_string(), 2);
    let script = [Ok((5, Some("a"), 1)), Ok((5, Some("b"), 2)), Ok((5, None, 3))];
    let sent = drive(&mut fetch, &script);
    assert_eq!(sent.len(), 2);
    assert_eq!(fetch.processed_count(), 10);
    assert_eq!(fetch.phase(), Phase::Failed(FetchError::PageLimitReached));
    assert_eq!(fetch.finish(), Err(FetchError::PageLimitReached));
}

#[test]
fn last_page_exactly_at_the_cap_completes() {
    let mut fetch = SavedFetch::new("u".to_string(), 2);
    let sent = drive(&mut fetch, &[Ok((5, Some("a"), 1)), Ok((6, None, 2))]);
    assert_eq!(sent.len(), 2);
    assert_eq!(fetch.finish(), Ok(vec![1, 2]));
}

#[test]
fn zero_cap_issues_no_request() {
    let mut fetch: SavedFetch<u32> = SavedFetch::new("u".to_string(), 0);
    assert!(fetch.next_request().is_none());
    assert_eq!(fetch.requests_issued(), 0);
    assert_eq!(fetch.finish(), Err(FetchError::PageLimitReached));
}

#[test]
fn cancel_discards_gathered_pages() {
    let mut fetch = SavedFetch::new("u".to_string(), 50);
    let req = fetch.next_request().unwrap();
    assert_eq!(req.after, None);
    fetch.on_page(100, Some("t1".to_string()), 1u32);
    assert_eq!(fetch.cursor(), Some(&"t1".to_string()));
    fetch.cancel();
    assert!(fetch.next_request().is_none());
    assert_eq!(fetch.phase(), Phase::Failed(FetchError::Cancelled));
    assert_eq!(fetch.finish(), Err(FetchError::Cancelled));
}

#[test]
fn unfinished_fetch_counts_as_cancelled() {
    let mut fetch = SavedFetch::new("u".to_string(), 50);
    fetch.next_request().unwrap();
    fetch.on_page(3, Some("t1".to_string()), 1u32);
    assert_eq!(fetch.phase(), Phase::Fetching);
    assert_eq!(fetch.finish(), Err(FetchError::Cancelled));
}

#[test]
fn answers_without_a_pending_request_are_ignored() {
    let mut fetch = SavedFetch::new("u".to_string(), 50);
    fetch.on_page(7, None, 1u32);
    fetch.on_failure(FetchError::Transport);
    assert_eq!(fetch.pages_received(), 0);
    assert_eq!(fetch.phase(), Phase::Fetching);
    let req = fetch.next_request().unwrap();
    assert!(fetch.next_request().is_none());
    assert_eq!(fetch.requests_issued(), 1);
    assert_eq!(req.url, "u");
    fetch.on_page(7, None, 2u32);
    fetch.on_page(8, None, 3u32);
    assert_eq!(fetch.processed_count(), 7);
    assert_eq!(fetch.finish(), Ok(vec![2]));
}

#[test]
fn duplicate_pages_are_kept() {
    let mut fetch = SavedFetch::new("u".to_string(), 50);
    let script = [Ok((2, Some("x"), 4)), Ok((2, Some("x"), 4)), Ok((2, None, 4))];
    let sent = drive(&mut fetch, &script);
    assert_eq!(sent, vec![None, Some("x".to_string()), Some("x".to_string())]);
    assert_eq!(fetch.processed_count(), 6);
    assert_eq!(fetch.finish(), Ok(vec![4, 4, 4]));
}

#[test]
fn largest_counts_do_not_overflow() {
    let mut fetch = SavedFetch::new("u".to_string(), 3);
    let script = [Ok((u64::MAX, Some("a"), 1)), Ok((u64::MAX, Some("b"), 2)), Ok((u64::MAX, None, 3))];
    drive(&mut fetch, &script);
    assert_eq!(fetch.processed_count(), 3 * (u64::MAX as u128));
    assert_eq!(fetch.finish(), Ok(vec![1, 2, 3]));
}
