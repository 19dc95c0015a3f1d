use threadline::errors::{APIError, DecodeError, TransportError};
use threadline::listing::{Listing, ListingPage, Step};

fn page(items: &[&str], after: Option<&str>) -> ListingPage<String> {
    ListingPage {
        items: items.iter().map(|s| s.to_string()).collect(),
        after: after.map(|s| s.to_string()),
    }
}

fn drain(listing: &mut Listing<String>, mut pages: Vec<ListingPage<String>>) -> (Vec<String>, Vec<String>) {
    let mut items = Vec::new();
    let mut urls = Vec::new();
    loop {
        match listing.next() {
            Step::Item(x) => items.push(x),
            Step::Fetch(url) => {
                urls.push(url);
                if pages.is_empty() {
                    panic!("asked for a page that does not exist");
                }
                let p = pages.remove(0);
                assert!(listing.resolve(Ok(p)).is_ok());
            }
            Step::Finished => break,
        }
    }
    (items, urls)
}

#[test]
fn two_pages_then_end_forever() {
    let mut listing: Listing<String> = Listing::new("/r/all/hot".to_string());
    let pages = vec![page(&["c1", "c2"], Some("t2")), page(&["c3"], None)];
    let (items, urls) = drain(&mut listing, pages);
    assert_eq!(items, vec!["c1", "c2", "c3"]);
    assert_eq!(urls, vec!["/r/all/hot", "/r/all/hot?after=t2"]);
    for _ in 0..5 {
        assert!(matches!(listing.next(), Step::Finished));
    }
    assert!(listing.cursor.exhausted);
    assert!(listing.buffer.is_empty());
}

#[test]
fn three_pages_come_out_whole_and_in_order() {
    let mut listing: Listing<String> = Listing::new("/user/x/comments?raw_json=1".to_string());
    let pages = vec![
        page(&["a"], Some("tok_b")),
        page(&["b", "c", "d"], Some("tok_c")),
        page(&["e", "f"], None),
    ];
    let (items, urls) = drain(&mut listing, pages);
    assert_eq!(items, vec!["a", "b", "c", "d", "e", "f"]);
    assert_eq!(
        urls,
        vec![
            "/user/x/comments?raw_json=1",
            "/user/x/comments?raw_json=1&after=tok_b",
            "/user/x/comments?raw_json=1&after=tok_c",
        ]
    );
    assert!(matches!(listing.next(), Step::Finished));
}

#[test]
fn fresh_listing_asks_for_the_first_page_without_a_token() {
    let mut listing: Listing<u32> = Listing::new("/r/rust/new".to_string());
    assert!(listing.cursor.after.is_none());
    assert!(!listing.cursor.exhausted);
    match listing.next() {
        Step::Fetch(url) => assert_eq!(url, "/r/rust/new"),
        _ => panic!("expected a fetch"),
    }
    assert_eq!(listing.next_url(), "/r/rust/new");
}

#[test]
fn empty_page_ends_the_listing_even_with_a_token() {
    let mut listing: Listing<u32> = Listing::new("/r/rust/new".to_string());
    let r = listing.resolve(Ok(ListingPage { items: vec![], after: Some("t9".to_string()) }));
    assert!(r.is_ok());
    assert!(listing.cursor.exhausted);
    assert_eq!(listing.cursor.after, Some("t9".to_string()));
    assert!(matches!(listing.next(), Step::Finished));
    assert!(matches!(listing.next(), Step::Finished));
}

#[test]
fn page_without_token_is_the_last() {
    let mut listing: Listing<u32> = Listing::new("/r/rust/new".to_string());
    assert!(listing.resolve(Ok(ListingPage { items: vec![7, 8], after: None })).is_ok());
    assert!(listing.cursor.exhausted);
    assert!(matches!(listing.next(), Step::Item(7)));
    assert!(matches!(listing.next(), Step::Item(8)));
    assert!(matches!(listing.next(), Step::Finished));
}

#[test]
fn failed_fetch_leaves_the_cursor_and_can_be_retried() {
    let mut listing: Listing<u32> = Listing::new("/r/rust/new".to_string());
    assert!(listing.resolve(Ok(ListingPage { items: vec![1], after: Some("t1".to_string()) })).is_ok());
    assert!(matches!(listing.next(), Step::Item(1)));
    let first = match listing.next() {
        Step::Fetch(url) => url,
        _ => panic!("expected a fetch"),
    };
    assert_eq!(first, "/r/rust/new?after=t1");
    let err = APIError::Transport(TransportError::Status(503));
    assert_eq!(listing.resolve(Err(err)), Err(err));
    assert!(!listing.cursor.exhausted);
    assert_eq!(listing.cursor.after, Some("t1".to_string()));
    match listing.next() {
        Step::Fetch(url) => assert_eq!(url, first),
        _ => panic!("expected the same fetch again"),
    }
    let err = APIError::Decode(DecodeError::Malformed);
    assert_eq!(listing.resolve(Err(err)), Err(err));
    assert!(listing.resolve(Ok(ListingPage { items: vec![2], after: None })).is_ok());
    assert!(matches!(listing.next(), Step::Item(2)));
    assert!(matches!(listing.next(), Step::Finished));
}

#[test]
fn retryable_failures_are_told_apart() {
    assert!(APIError::Transport(TransportError::NeedsReauthentication).is_retryable());
    assert!(!APIError::Transport(TransportError::Network).is_retryable());
    assert!(!APIError::Transport(TransportError::Status(404)).is_retryable());
    assert!(!APIError::Decode(DecodeError::MissingField).is_retryable());
}

#[test]
fn drain_walks_pages_at_hand() {
    let mut listing: Listing<String> = Listing::new("/r/all/hot".to_string());
    let out = listing.drain(vec![page(&["c1", "c2"], Some("t2")), page(&["c3"], None), page(&["c4"], None)]);
    assert_eq!(out, vec!["c1", "c2", "c3"]);
    assert!(listing.cursor.exhausted);
    assert!(listing.drain(vec![page(&["c5"], None)]).is_empty());

    let mut short: Listing<String> = Listing::new("/r/all/hot".to_string());
    let out = short.drain(vec![page(&["c1"], Some("t1"))]);
    assert_eq!(out, vec!["c1"]);
    assert!(!short.cursor.exhausted);
    assert_eq!(short.next_url(), "/r/all/hot?after=t1");
    let out = short.drain(vec![page(&[], Some("t2"))]);
    assert!(out.is_empty());
    assert!(short.cursor.exhausted);
}
