use dianliao_cloud::error::FeedError;
use dianliao_cloud::model::Item;
use dianliao_cloud::parser::{
    bytes_eq, check_item, check_last_item, enclosure_state, enclosure_url, range_header,
    reader_to_xml, text_state, ItemParser, ParseState, Rss,
};
use dianliao_cloud::xml::{Attribute, Tag, Token};

fn name(text: &str) -> Vec<u8> {
    text.as_bytes().to_vec()
}

fn start(text: &str) -> Token {
    Token::Start(name(text))
}

fn end(text: &str) -> Token {
    Token::End(name(text))
}

fn text(content: &str) -> Token {
    Token::Text(name(content))
}

fn stack_of(names: &[&str]) -> Vec<Vec<u8>> {
    names.iter().map(|n| name(n)).collect()
}

fn sample_item(i: usize) -> String {
    format!(
        "<item>\n<title>Episode number 0{}</title>\n<itunes:subtitle>Sub {}</itunes:subtitle>\n\
         <description><![CDATA[<p>Notes {}</p>]]></description>\n\
         <pubDate>Mon, {} Jan 2018 08:00:00 +0800</pubDate>\n\
         <enclosure url=\"http://x.y/{}.mp3\" length=\"100\" type=\"audio/mpeg\"/>\n</item>\n",
        i, i, i, i, i
    )
}

fn sample_head(padding: usize) -> String {
    format!(
        "<?xml version=\"1.0\" encoding=\"UTF-8\"?>\n<rss version=\"2.0\">\n<channel>\n\
         <title>Sample feed</title>\n<description>{}</description>\n",
        "x".repeat(padding)
    )
}

fn sample_feed(items: usize, padding: usize) -> String {
    let mut feed = sample_head(padding);
    for i in 1..=items {
        feed.push_str(&sample_item(i));
    }
    feed.push_str("</channel>\n</rss>\n");
    feed
}

fn expected_item(i: usize) -> Item {
    Item {
        title: format!("Episode number 0{}", i).into_bytes(),
        subtitle: format!("Sub {}", i).into_bytes(),
        pub_date: format!("Mon, {} Jan 2018 08:00:00 +0800", i).into_bytes(),
        url: format!("http://x.y/{}.mp3", i).into_bytes(),
    }
}

#[test]
fn parse_xml() {
    let plain = sample_feed(6, 0);
    let feed = sample_feed(6, 5114 - plain.len());
    let bytes = feed.as_bytes();
    assert_eq!(bytes.len(), 5114);
    let (items, total) = reader_to_xml(bytes.to_vec().as_slice());
    assert_eq!(items.len(), 6);
    for i in items {
        assert_eq!(i.title.len(), 17);
        assert_eq!(i.pub_date.len(), 30);
        assert_eq!(i.url.len(), 16);
    }
    let last_pos = total as usize;
    //last tag should be </item>
    let delta = 7;
    let item_end = &bytes[(last_pos - delta)..last_pos];
    assert_eq!("</item>".as_bytes(), item_end);
}

#[test]
fn get_items() {
    let feed = sample_feed(40, 0);
    let client = Rss { rss_url: "http://rss.lizhi.fm/rss/14093.xml".to_string(), range: (1000u32, 10_000u32) };
    let (start, end) = client.range;
    let body = feed.as_bytes()[start as usize..=end as usize].to_vec();
    let (items, total) = client.fetch_items(Ok(body)).unwrap();
    println!("bytes prcoessed {}", total);
    assert!(!items.is_empty());
    for i in items {
        println!("{:?}, {:?}", String::from_utf8_lossy(&i.title), String::from_utf8_lossy(&i.url));
    }
}

#[test]
fn fetch_items_hands_on_the_transport_error() {
    let client = Rss { rss_url: "http://example.org/feed.xml".to_string(), range: (0, 100) };
    let failed = client.fetch_items(Err(FeedError::Transport("timed out".to_string())));
    assert_eq!(failed, Err(FeedError::Transport("timed out".to_string())));
}

#[test]
fn whole_items_come_out_in_document_order() {
    let feed = sample_feed(5, 10);
    let (items, total) = reader_to_xml(feed.as_bytes());
    assert_eq!(items, (1..=5).map(expected_item).collect::<Vec<Item>>());
    assert_eq!(total as usize, feed.rfind("</item>").unwrap() + 7);
}

#[test]
fn an_item_cut_by_the_window_is_not_handed_out() {
    let feed = sample_feed(4, 0);
    let third_close = feed.match_indices("</item>").nth(2).unwrap().0 + 7;
    let fourth_close = feed.match_indices("</item>").nth(3).unwrap().0;
    for cut in [third_close, third_close + 1, third_close + 30, fourth_close, fourth_close + 1] {
        let (items, total) = reader_to_xml(&feed.as_bytes()[..cut]);
        assert_eq!(items, (1..=3).map(expected_item).collect::<Vec<Item>>());
        assert_eq!(total as usize, third_close);
    }
}

#[test]
fn a_window_without_a_whole_item_commits_nothing() {
    let feed = sample_feed(2, 0);
    let first_close = feed.find("</item>").unwrap();
    let (items, total) = reader_to_xml(&feed.as_bytes()[..first_close]);
    assert!(items.is_empty());
    assert_eq!(total, 0);
    let (items, total) = reader_to_xml(b"");
    assert!(items.is_empty());
    assert_eq!(total, 0);
}

#[test]
fn the_next_window_resumes_where_the_first_committed() {
    let feed = sample_feed(6, 25);
    let bytes = feed.as_bytes();
    let (all, end_of_all) = reader_to_xml(bytes);
    let closes: Vec<usize> = feed.match_indices("</item>").map(|(at, _)| at + 7).collect();
    for stop in [closes[1], closes[1] + 40, closes[2] - 1, closes[3] + 5] {
        let (mut first, committed) = reader_to_xml(&bytes[..stop]);
        let (second, further) = reader_to_xml(&bytes[committed as usize..]);
        first.extend(second);
        assert_eq!(first, all);
        assert_eq!(committed + further, end_of_all);
    }
}

#[test]
fn a_window_may_start_in_the_middle_of_the_document() {
    let feed = sample_feed(3, 50);
    let inside_description = feed.find("xxxx").unwrap() + 7;
    let first_close = feed.find("</item>").unwrap() + 7;
    let window = &feed.as_bytes()[inside_description..first_close + 20];
    let (items, total) = reader_to_xml(window);
    assert_eq!(items, vec![expected_item(1)]);
    assert_eq!(total as usize, first_close - inside_description);
    assert_eq!(&window[total as usize - 7..total as usize], "</item>".as_bytes());
}

#[test]
fn a_window_may_start_inside_a_tag_or_an_item() {
    let feed = sample_feed(3, 0);
    let inside_first = feed.find("<itunes:subtitle>").unwrap() + 9;
    let (items, total) = reader_to_xml(&feed.as_bytes()[inside_first..]);
    assert_eq!(items, vec![expected_item(2), expected_item(3)]);
    assert_eq!(total as usize, feed.rfind("</item>").unwrap() + 7 - inside_first);
}

#[test]
fn escapes_are_replaced_in_text_but_not_in_the_url() {
    let feed = "<item><title>Salt &amp; pepper &#65;</title>\
                <enclosure url=\"http://x.y/a?b=1&amp;c=2\"/></item>";
    let (items, _) = reader_to_xml(feed.as_bytes());
    assert_eq!(items.len(), 1);
    assert_eq!(items[0].title, b"Salt & pepper A".to_vec());
    assert_eq!(items[0].url, b"http://x.y/a?b=1&amp;c=2".to_vec());
}

#[test]
fn a_malformed_escape_leaves_the_field_alone() {
    let feed = "<item><title>A &bogus; B</title><pubDate>today</pubDate></item>";
    let (items, total) = reader_to_xml(feed.as_bytes());
    assert_eq!(items.len(), 1);
    assert_eq!(items[0].title, Vec::<u8>::new());
    assert_eq!(items[0].pub_date, b"today".to_vec());
    assert_eq!(total as usize, feed.len());
}

#[test]
fn character_data_and_cdata_are_appended() {
    let feed = "<item><title>one <![CDATA[<two>]]> three</title></item>";
    let (items, _) = reader_to_xml(feed.as_bytes());
    assert_eq!(items.len(), 1);
    assert_eq!(items[0].title, b"one<two>three".to_vec());
}

#[test]
fn only_direct_children_of_item_are_fields() {
    let feed = "<channel><title>Feed</title><item><source><title>Inner</title></source>\
                <title>Outer</title><media><enclosure url=\"u1\"/></media></item></channel>";
    let (items, _) = reader_to_xml(feed.as_bytes());
    assert_eq!(items.len(), 1);
    assert_eq!(items[0].title, b"Outer".to_vec());
    assert_eq!(items[0].url, Vec::<u8>::new());
}

#[test]
fn an_enclosure_with_an_end_tag_gives_no_url() {
    let feed = "<item><enclosure url=\"u1\"></enclosure></item>";
    let (items, _) = reader_to_xml(feed.as_bytes());
    assert_eq!(items, vec![Item::default()]);
}

#[test]
fn a_bad_token_ends_the_stream_but_keeps_what_was_committed() {
    let feed = "<item><title>One</title></item><!bogus><item><title>Two</title></item>";
    let (items, total) = reader_to_xml(feed.as_bytes());
    assert_eq!(items.len(), 1);
    assert_eq!(items[0].title, b"One".to_vec());
    assert_eq!(total as usize, feed.find("</item>").unwrap() + 7);
}

#[test]
fn offsets_are_bytes_not_characters() {
    let feed = "<item><title>caf\u{e9} \u{4e2d}\u{6587}</title></item><item>";
    let (items, total) = reader_to_xml(feed.as_bytes());
    assert_eq!(items.len(), 1);
    assert_eq!(items[0].title, "caf\u{e9} \u{4e2d}\u{6587}".as_bytes().to_vec());
    assert_eq!(total as usize, feed.len() - 6);
    assert!(feed.len() > feed.chars().count());
}

#[test]
fn the_parser_takes_tokens_one_by_one() {
    let mut parser = ItemParser::new();
    parser.feed(start("channel"), 9);
    parser.feed(start("item"), 15);
    parser.feed(start("title"), 22);
    parser.feed(text("Hello"), 27);
    parser.feed(Token::CData(name(" world")), 45);
    parser.feed(end("title"), 53);
    parser.feed(start("itunes:subtitle"), 70);
    parser.feed(text("Sub"), 73);
    parser.feed(end("itunes:subtitle"), 91);
    parser.feed(start("pubDate"), 100);
    parser.feed(text("today"), 105);
    parser.feed(end("pubDate"), 115);
    parser.feed(
        Token::Empty(Tag { content: name("enclosure url=\"http://x.y/1.mp3\" length=\"1\""), name_len: 9 }),
        160,
    );
    parser.feed(Token::Other, 170);
    parser.feed(Token::Error, 171);
    parser.feed(end("item"), 180);
    parser.feed(start("item"), 186);
    parser.feed(start("title"), 193);
    parser.feed(text("Cut off"), 200);
    parser.feed(Token::Eof, 200);
    let (items, total) = parser.finish();
    assert_eq!(
        items,
        vec![Item {
            title: name("Hello world"),
            subtitle: name("Sub"),
            pub_date: name("today"),
            url: name("http://x.y/1.mp3"),
        }]
    );
    assert_eq!(total, 180);
}

#[test]
fn an_item_closes_only_on_a_matching_pair() {
    let mut parser = ItemParser::new();
    parser.feed(end("item"), 7);
    parser.feed(start("item"), 13);
    parser.feed(start("title"), 20);
    parser.feed(text("A"), 21);
    parser.feed(end("item"), 28);
    parser.feed(end("title"), 36);
    let (items, total) = parser.finish();
    assert!(items.is_empty());
    assert_eq!(total, 0);

    let mut parser = ItemParser::new();
    parser.feed(start("item"), 6);
    parser.feed(end("itme"), 13);
    parser.feed(start("item"), 19);
    parser.feed(end("item"), 26);
    let (items, total) = parser.finish();
    assert_eq!(items, vec![Item::default()]);
    assert_eq!(total, 26);
}

#[test]
fn check_item_looks_from_the_top_of_the_stack() {
    let stack = stack_of(&["rss", "item", "title"]);
    assert!(!check_item(&stack, 1));
    assert!(check_item(&stack, 2));
    assert!(!check_item(&stack, 3));
    assert!(!check_item(&stack, 4));
    assert!(!check_last_item(&stack));
    assert!(check_last_item(&stack_of(&["item"])));
    assert!(!check_last_item(&stack_of(&[])));
    assert!(!check_last_item(&stack_of(&["items"])));
}

#[test]
fn text_state_names_the_field() {
    let none = ParseState::Empty;
    let some = |s: &str| Some(name(s));
    assert_eq!(text_state(&none, some("t"), &stack_of(&["item", "title"])), ParseState::Title(name("t")));
    assert_eq!(
        text_state(&none, some("s"), &stack_of(&["item", "itunes:subtitle"])),
        ParseState::Subtitle(name("s"))
    );
    assert_eq!(text_state(&none, some("d"), &stack_of(&["item", "pubDate"])), ParseState::PubDate(name("d")));
    assert_eq!(text_state(&none, some("d"), &stack_of(&["item", "pubdate"])), ParseState::Empty);
    assert_eq!(text_state(&none, some("x"), &stack_of(&["item", "description"])), ParseState::Empty);
    assert_eq!(text_state(&none, some("x"), &stack_of(&["channel", "title"])), ParseState::Empty);
    assert_eq!(text_state(&none, some("x"), &stack_of(&["item", "item"])), ParseState::Empty);
    assert_eq!(text_state(&none, some("x"), &stack_of(&["title"])), ParseState::Empty);
    assert_eq!(text_state(&none, None, &stack_of(&["item", "title"])), ParseState::Empty);
}

#[test]
fn calc_bytes_commits_at_the_end_of_an_item() {
    assert_eq!(ParseState::ItemEnd.calc_bytes(5, 3, 40), (40, 40));
    assert_eq!(ParseState::Empty.calc_bytes(5, 3, 40), (40, 3));
    assert_eq!(ParseState::Eof.calc_bytes(5, 3, 40), (40, 3));
    assert_eq!(ParseState::Title(name("t")).calc_bytes(5, 3, 40), (40, 3));
}

#[test]
fn update_item_appends_text_and_sets_the_url() {
    let mut item = Item { title: name("a"), subtitle: name("b"), pub_date: name("c"), url: name("d") };
    ParseState::Title(name("1")).update_item(&mut item);
    ParseState::Subtitle(name("2")).update_item(&mut item);
    ParseState::PubDate(name("3")).update_item(&mut item);
    ParseState::Enclosure(name("4")).update_item(&mut item);
    ParseState::Empty.update_item(&mut item);
    ParseState::ItemEnd.update_item(&mut item);
    ParseState::Eof.update_item(&mut item);
    assert_eq!(item, Item { title: name("a1"), subtitle: name("b2"), pub_date: name("c3"), url: name("4") });
}

#[test]
fn enclosure_url_is_the_first_url_attribute() {
    let attribute = |k: &str, v: &str| Attribute { key: name(k), value: name(v) };
    assert_eq!(enclosure_url(&vec![]), None);
    assert_eq!(enclosure_url(&vec![attribute("length", "1"), attribute("type", "a")]), None);
    assert_eq!(
        enclosure_url(&vec![attribute("length", "1"), attribute("url", "u1"), attribute("url", "u2")]),
        Some(name("u1"))
    );
}

#[test]
fn enclosure_state_reads_the_tag_inside_an_item() {
    let tag = Tag { content: name("enclosure length=\"3\" url='u1' type=\"a\""), name_len: 9 };
    assert_eq!(enclosure_state(&tag, &stack_of(&["channel", "item"])), ParseState::Enclosure(name("u1")));
    assert_eq!(enclosure_state(&tag, &stack_of(&["item", "media"])), ParseState::Empty);
    assert_eq!(enclosure_state(&tag, &stack_of(&[])), ParseState::Empty);
    let other = Tag { content: name("link url=\"u1\""), name_len: 4 };
    assert_eq!(enclosure_state(&other, &stack_of(&["item"])), ParseState::Empty);
    let bare = Tag { content: name("enclosure"), name_len: 9 };
    assert_eq!(enclosure_state(&bare, &stack_of(&["item"])), ParseState::Empty);
    let broken = Tag { content: name("enclosure length url=\"u1\""), name_len: 9 };
    assert_eq!(enclosure_state(&broken, &stack_of(&["item"])), ParseState::Empty);
}

#[test]
fn a_tag_name_is_the_start_of_its_content() {
    let tag = Tag { content: name("enclosure url=\"u\""), name_len: 9 };
    assert_eq!(tag.name(), "enclosure".as_bytes());
    let short = Tag { content: name("br"), name_len: 9 };
    assert_eq!(short.name(), "br".as_bytes());
}

#[test]
fn bytes_eq_compares_length_and_content() {
    assert!(bytes_eq(b"item", b"item"));
    assert!(bytes_eq(b"", b""));
    assert!(!bytes_eq(b"item", b"items"));
    assert!(!bytes_eq(b"item", b"itam"));
}

#[test]
fn the_range_header_names_the_first_and_the_last_byte() {
    let rss = Rss { rss_url: "http://rss.lizhi.fm/rss/14093.xml".to_string(), range: (500u32, 8000u32) };
    assert_eq!(rss.range_header(), "bytes=500-8000");
    let rss = Rss { rss_url: String::new(), range: (0, u32::MAX) };
    assert_eq!(rss.range_header(), "bytes=0-4294967295");
    assert_eq!(range_header(9, 10), "bytes=9-10");
    assert_eq!(range_header(1090, u64::MAX), "bytes=1090-18446744073709551615");
}

#[test]
fn a_closing_tag_that_lacks_its_last_byte_still_closes_the_item() {
    let feed = "<item><title>A</title></item";
    let (items, total) = reader_to_xml(feed.as_bytes());
    assert_eq!(items.len(), 1);
    assert_eq!(items[0].title, b"A".to_vec());
    assert_eq!(total as usize, feed.len());
    let feed = "<item><title>A</title></ite";
    let (items, total) = reader_to_xml(feed.as_bytes());
    assert!(items.is_empty());
    assert_eq!(total, 0);
}
