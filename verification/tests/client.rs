use dianliao_cloud::client::{Client, FetchResult, SegmentStep};
use dianliao_cloud::error::FeedError;
use dianliao_cloud::model::Item;
use dianliao_cloud::parser::reader_to_xml;

fn long_item(i: usize) -> String {
    format!(
        "<item>\n<title>Long episode {:03}</title>\n<description>{}</description>\n\
         <pubDate>Mon, 1 Jan 2018 08:00:00 +0800</pubDate>\n\
         <enclosure url=\"http://x.y/{}.mp3\"/>\n</item>\n",
        i,
        "lorem ipsum ".repeat(100),
        i
    )
}

fn long_feed(items: usize) -> String {
    let mut feed = String::from("<?xml version=\"1.0\"?>\n<rss>\n<channel>\n<title>Long feed</title>\n");
    for i in 1..=items {
        feed.push_str(&long_item(i));
    }
    feed.push_str("</channel>\n</rss>\n");
    feed
}

/// Serves `bytes=left-right` of a document, as a server that honours ranges does.
fn serve(document: &[u8], left: u32, right: u32) -> Result<Vec<u8>, FeedError> {
    let (left, right) = (left as usize, right as usize);
    if left >= document.len() {
        return Err(FeedError::Transport("416 Range Not Satisfiable".to_string()));
    }
    Ok(document[left..document.len().min(right + 1)].to_vec())
}

fn parse_segment(client: &Client, document: &[u8], range: (u32, u32), seg_size: u32) -> FetchResult {
    let mut segment = client.start_segment(range, seg_size);
    loop {
        let (left, right) = segment.window();
        match client.parse_segment(segment, serve(document, left, right)) {
            SegmentStep::Fetch(next) => segment = next,
            SegmentStep::Done(info) => return Ok(info),
            SegmentStep::Failed(error) => return Err(error),
        }
    }
}

#[test]
#[should_panic]
fn seg_test1() {
    let feed = long_feed(30);
    let client = Client { min_bytes: 10 };
    let range = (3000u32, 20_000u32);
    let size = 1000u32;
    let _ = parse_segment(&client, feed.as_bytes(), range, size).expect("parse segment failed");
}

#[test]
fn seg_test2() {
    let feed = long_feed(30);
    let client = Client { min_bytes: 10 };
    let range = (3000u32, 20_000u32);
    let size = 5000u32;
    let (items, next) =
        parse_segment(&client, feed.as_bytes(), range, size).expect("parse segment failed");
    assert!(items.len() > 1);
    for i in items {
        assert!(i.title.len() > 5);
        println!("item {}", String::from_utf8_lossy(&i.title));
    }
    println!("next start byte {}", next);
}

#[test]
fn a_segment_too_small_for_an_item_fails_with_no_progress() {
    let feed = long_feed(30);
    let client = Client::new(10);
    let failed = parse_segment(&client, feed.as_bytes(), (3000, 20_000), 1000);
    assert_eq!(failed, Err(FeedError::NoProgress));
}

#[test]
fn a_source_that_returns_too_little_fails_at_once() {
    let client = Client::new(64);
    let mut fetches = 0;
    let mut segment = client.start_segment((0, 1_000_000), 4096);
    let outcome = loop {
        fetches += 1;
        assert!(fetches < 10);
        let small = b"<item><title>T</title></item>".to_vec();
        match client.parse_segment(segment, Ok(small)) {
            SegmentStep::Fetch(next) => segment = next,
            SegmentStep::Done(info) => break Ok(info),
            SegmentStep::Failed(error) => break Err(error),
        }
    };
    assert_eq!(outcome, Err(FeedError::NoProgress));
    assert_eq!(fetches, 1);
}

#[test]
fn the_offsets_move_on_by_what_was_committed() {
    let client = Client::new(10);
    let segment = client.start_segment((100, 200), 50);
    assert_eq!(segment.window(), (100, 150));
    let body = b"<item><title>One</title></item><item><title>Tw".to_vec();
    let committed = 31;
    let segment = match client.parse_segment(segment, Ok(body)) {
        SegmentStep::Fetch(next) => next,
        _ => panic!("the window is not read yet"),
    };
    assert_eq!(segment.window(), (100 + committed, 150 + committed));
    let body = b"<item><title>Two</title></item>".to_vec();
    match client.parse_segment(segment, Ok(body)) {
        SegmentStep::Done((items, next)) => {
            let titles: Vec<Vec<u8>> = items.into_iter().map(|i| i.title).collect();
            assert_eq!(titles, vec![b"One".to_vec(), b"Two".to_vec()]);
            assert_eq!(next, 100 + committed + 31);
        },
        _ => panic!("the range to fetch lies past the end of the window"),
    }
}

#[test]
fn a_window_is_done_when_the_next_range_ends_past_it() {
    let client = Client::new(0);
    let segment = client.start_segment((0, 30), 31);
    let body = b"<item><title>One</title></item>".to_vec();
    assert_eq!(body.len(), 31);
    match client.parse_segment(segment, Ok(body)) {
        SegmentStep::Done((items, next)) => {
            assert_eq!(items.len(), 1);
            assert_eq!(next, 31);
        },
        _ => panic!("31 + 31 > 30"),
    }
    let segment = client.start_segment((0, 62), 31);
    let body = b"<item><title>One</title></item>".to_vec();
    match client.parse_segment(segment, Ok(body)) {
        SegmentStep::Fetch(next) => assert_eq!(next.window(), (31, 62)),
        _ => panic!("31 + 31 = 62 is not past the end"),
    }
}

#[test]
fn a_window_without_a_whole_item_is_no_error_when_no_minimum_is_set() {
    let client = Client::new(0);
    let segment = client.start_segment((500, 600), 200);
    match client.parse_segment(segment, Ok(b"<item><title>Cut".to_vec())) {
        SegmentStep::Done((items, next)) => {
            assert!(items.is_empty());
            assert_eq!(next, 500);
        },
        _ => panic!("500 + 200 > 600"),
    }
}

#[test]
fn a_transport_error_ends_the_window_unchanged() {
    let client = Client::new(10);
    let segment = client.start_segment((0, 100), 50);
    let step = client.parse_segment(segment, Err(FeedError::Transport("connection reset".to_string())));
    match step {
        SegmentStep::Failed(error) => {
            assert_eq!(error, FeedError::Transport("connection reset".to_string()))
        },
        _ => panic!("a failed fetch fails the window"),
    }
}

#[test]
fn windows_cover_a_feed_without_gaps_or_repeats() {
    let feed = long_feed(30);
    let document = feed.as_bytes();
    let (all, _) = reader_to_xml(document);
    assert_eq!(all.len(), 30);
    let closes: Vec<usize> = feed.match_indices("</item>").map(|(at, _)| at + 7).collect();
    let client = Client::new(10);
    let mut gathered: Vec<Item> = Vec::new();
    let mut start = 0u32;
    while (start as usize) + 9001 < closes[29] {
        let (items, next) =
            parse_segment(&client, document, (start, start + 6000), 3000).expect("a window failed");
        assert!(next > start);
        gathered.extend(items);
        start = next;
        assert_eq!(start as usize, closes[gathered.len() - 1]);
    }
    assert!(gathered.len() > 20);
    assert_eq!(gathered[..], all[..gathered.len()]);
}

#[test]
fn the_end_of_the_feed_shows_as_no_progress() {
    let feed = long_feed(3);
    let document = feed.as_bytes();
    let client = Client::new(10);
    let last_close = feed.rfind("</item>").unwrap() as u32 + 7;
    let past_the_items = parse_segment(&client, document, (last_close, last_close + 6000), 3000);
    assert_eq!(past_the_items, Err(FeedError::NoProgress));
    let past_the_feed = parse_segment(&client, document, (100_000, 106_000), 3000);
    assert_eq!(past_the_feed, Err(FeedError::Transport("416 Range Not Satisfiable".to_string())));
}

#[test]
fn parse_all_gives_every_item() {
    let feed = long_feed(7);
    let items = Client::new(10).parse_all(feed.as_bytes());
    assert_eq!(items.len(), 7);
    assert_eq!(items[6].title, b"Long episode 007".to_vec());
}
