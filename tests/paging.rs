use aws_tool::paging::{FetchAction, FetchSession, PAGE_CAP, WINDOW_QUOTA};

#[derive(Debug, Clone, PartialEq)]
enum Event {
    Request(u64),
    Pause,
}

/// Answers a request at `cursor` for `max` items from `src`, the cursor being
/// the offset of the next item; `extra` more items than asked are returned,
/// and never more than `page_limit`.
fn answer(src: &[u32], cursor: &Option<String>, max: u64, extra: usize, page_limit: usize) -> (Vec<u32>, Option<String>) {
    let at: usize = cursor.as_ref().map(|c| c.parse().unwrap()).unwrap_or(0);
    let size = std::cmp::min(max as usize + extra, page_limit);
    let end = std::cmp::min(at + size, src.len());
    let page = src[at..end].to_vec();
    let next = if end < src.len() { Some(end.to_string()) } else { None };
    (page, next)
}

fn run(src: &[u32], session: FetchSession, extra: usize) -> (Vec<u32>, Vec<Event>) {
    run_with(src, session, extra, usize::MAX)
}

fn run_with(src: &[u32], mut session: FetchSession, extra: usize, page_limit: usize) -> (Vec<u32>, Vec<Event>) {
    let mut items = Vec::new();
    let mut events = Vec::new();
    loop {
        match session.next_action() {
            FetchAction::Finish => break,
            FetchAction::Pause => {
                events.push(Event::Pause);
                session.record_pause();
            }
            FetchAction::Request { max_items } => {
                assert!(max_items <= PAGE_CAP);
                events.push(Event::Request(max_items));
                let (page, next) = answer(src, session.cursor(), max_items, extra, page_limit);
                items.extend(session.record_page(page, next));
            }
        }
        assert!(events.len() < 10_000);
    }
    (items, events)
}

fn source(n: u32) -> Vec<u32> {
    (0..n).collect()
}

#[test]
fn zero_limit_issues_no_request() {
    let session = FetchSession::new(0);
    assert_eq!(session.next_action(), FetchAction::Finish);
    let (items, events) = run(&source(30), FetchSession::new(0), 0);
    assert!(items.is_empty());
    assert!(events.is_empty());
}

#[test]
fn short_source_is_drained() {
    let src = source(120);
    let (items, events) = run(&src, FetchSession::new(500), 0);
    assert_eq!(items, src);
    assert_eq!(events, vec![Event::Request(50), Event::Request(50), Event::Request(50)]);
}

#[test]
fn empty_source_takes_one_request() {
    let (items, events) = run(&[], FetchSession::new(10), 0);
    assert!(items.is_empty());
    assert_eq!(events, vec![Event::Request(10)]);
}

#[test]
fn long_source_is_cut_at_limit() {
    let src = source(300);
    let (items, events) = run(&src, FetchSession::new(75), 0);
    assert_eq!(items, source(75));
    assert_eq!(events, vec![Event::Request(50), Event::Request(25)]);
}

#[test]
fn oversized_page_is_cut_mid_page() {
    let src = source(300);
    let (items, events) = run(&src, FetchSession::new(7), 5);
    assert_eq!(items, source(7));
    assert_eq!(events, vec![Event::Request(7)]);
}

#[test]
fn exact_multiple_of_page_cap() {
    let src = source(100);
    let (items, events) = run(&src, FetchSession::new(100), 0);
    assert_eq!(items, src);
    assert_eq!(events, vec![Event::Request(50), Event::Request(50)]);
}

#[test]
fn pause_after_every_fifth_request() {
    let src = source(60);
    let (items, events) = run(&src, FetchSession::with_rate(60, 5, WINDOW_QUOTA), 0);
    assert_eq!(items, src);
    let mut expected = Vec::new();
    for k in 0..12 {
        if k > 0 && k % 5 == 0 {
            expected.push(Event::Pause);
        }
        expected.push(Event::Request(5));
    }
    assert_eq!(events, expected);
    let mut in_window = 0;
    for e in &events {
        match e {
            Event::Request(_) => {
                in_window += 1;
                assert!(in_window <= 5);
            }
            Event::Pause => {
                assert_eq!(in_window, 5);
                in_window = 0;
            }
        }
    }
}

#[test]
fn no_pause_when_done_on_fifth_request() {
    let src = source(25);
    let (items, events) = run(&src, FetchSession::with_rate(100, 5, 5), 0);
    assert_eq!(items, src);
    assert_eq!(events.len(), 5);
    assert!(!events.contains(&Event::Pause));
}

#[test]
fn repeated_fetch_yields_same_items() {
    let src = source(237);
    let first = run(&src, FetchSession::new(180), 0);
    let second = run(&src, FetchSession::new(180), 0);
    assert_eq!(first, second);
    assert_eq!(first.0, source(180));
}

#[test]
fn record_page_tracks_counts_and_cursor() {
    let mut session = FetchSession::new(10);
    assert_eq!(session.next_action(), FetchAction::Request { max_items: 10 });
    let out = session.record_page(vec![1, 2, 3], Some("c1".to_string()));
    assert_eq!(out, vec![1, 2, 3]);
    assert_eq!(session.produced(), 3);
    assert!(!session.is_finished());
    assert_eq!(session.cursor(), &Some("c1".to_string()));
    assert_eq!(session.next_action(), FetchAction::Request { max_items: 7 });
    let out = session.record_page(vec![4, 5], None);
    assert_eq!(out, vec![4, 5]);
    assert!(session.is_finished());
    assert_eq!(session.next_action(), FetchAction::Finish);
}

#[test]
fn short_pages_with_cursor_are_followed() {
    let src = source(23);
    let (items, events) = run_with(&src, FetchSession::new(40), 0, 3);
    assert_eq!(items, src);
    let requests = events.iter().filter(|e| matches!(e, Event::Request(_))).count();
    assert_eq!(requests, 8);
    assert_eq!(events.iter().filter(|e| **e == Event::Pause).count(), 1);
    assert_eq!(events[0], Event::Request(40));
    assert_eq!(events[1], Event::Request(37));
}

#[test]
fn short_pages_stop_at_limit() {
    let src = source(100);
    let (items, events) = run_with(&src, FetchSession::new(10), 0, 4);
    assert_eq!(items, source(10));
    assert_eq!(events, vec![Event::Request(10), Event::Request(6), Event::Request(2)]);
}
