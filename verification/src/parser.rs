//! The item parser: a tag stack and one item under way, driven token by
//! token, with the offset after the last item that closed.

use crate::error::FeedError;
use crate::model::{items_view, Item, ItemView};
use crate::xml::{
    attributes, attributes_of, attributes_view, ends_at_eof, ends_within, open_reader, pending,
    position, read_token, scan, unescape, unescaped, Attribute, AttributeView, Scanned, Tag,
    TagView, Token, TokenView,
};
use vstd::prelude::*;

verus! {

/// A window of the remote document: the offsets of its first and last byte.
pub type ByteRange = (u32, u32);

/// The names of the elements that are open, outermost first.
pub type TagStack = Vec<Vec<u8>>;

/// The items that closed in a window, and the offset just after the last.
pub type ItemsInfo = (Vec<Item>, u32);

/// `item`
pub const ITEM: [u8; 4] = [105, 116, 101, 109];

/// `title`
pub const TITLE: [u8; 5] = [116, 105, 116, 108, 101];

/// `itunes:subtitle`
pub const SUB: [u8; 15] = [105, 116, 117, 110, 101, 115, 58, 115, 117, 98, 116, 105, 116, 108, 101];

/// `pubDate`
pub const PUBDATE: [u8; 7] = [112, 117, 98, 68, 97, 116, 101];

/// `enclosure`
pub const ENCLOSURE: [u8; 9] = [101, 110, 99, 108, 111, 115, 117, 114, 101];

/// `url`
pub const URL: [u8; 3] = [117, 114, 108];

/// The names on a stack of open tags.
pub open spec fn names_of(stack: Seq<Vec<u8>>) -> Seq<Seq<u8>> {
    stack.map_values(|name: Vec<u8>| name@)
}

/// Whether two byte strings are the same.
pub fn bytes_eq(a: &[u8], b: &[u8]) -> (same: bool)
    ensures
        same == (a@ == b@),
{
    if a.len() != b.len() {
        return false;
    }
    let mut i: usize = 0;
    while i < a.len()
        invariant
            a.len() == b.len(),
            i <= a.len(),
            forall|j: int| 0 <= j < i ==> a@[j] == b@[j],
        decreases a.len() - i,
    {
        if a[i] != b[i] {
            return false;
        }
        i += 1;
    }
    assert(a@ =~= b@);
    true
}

/// Whether the open tag `offset` places from the top of the stack is `item`;
/// the top itself is at offset 1.
pub open spec fn item_at(stack: Seq<Seq<u8>>, offset: nat) -> bool {
    1 <= offset <= stack.len() && stack[stack.len() - offset] == ITEM@
}

/// Whether the open tag `offset` places from the top is `item`.
pub fn check_item(stack: &TagStack, offset: usize) -> (found: bool)
    requires
        offset >= 1,
    ensures
        found == item_at(names_of(stack@), offset as nat),
{
    let len = stack.len();
    len >= offset && bytes_eq(stack[len - offset].as_slice(), ITEM.as_slice())
}

/// Whether the innermost open tag is `item`.
pub fn check_last_item(stack: &TagStack) -> (found: bool)
    ensures
        found == item_at(names_of(stack@), 1),
{
    check_item(stack, 1)
}

/// What one token means to the item under way.
#[derive(Debug, PartialEq)]
pub enum ParseState {
    Empty,
    Title(Vec<u8>),
    Subtitle(Vec<u8>),
    PubDate(Vec<u8>),
    Enclosure(Vec<u8>),
    ItemEnd,
    Eof,
}

pub enum ParseStateView {
    Empty,
    Title(Seq<u8>),
    Subtitle(Seq<u8>),
    PubDate(Seq<u8>),
    Enclosure(Seq<u8>),
    ItemEnd,
    Eof,
}

impl View for ParseState {
    type V = ParseStateView;

    open spec fn view(&self) -> ParseStateView {
        match self {
            ParseState::Empty => ParseStateView::Empty,
            ParseState::Title(t) => ParseStateView::Title(t@),
            ParseState::Subtitle(t) => ParseStateView::Subtitle(t@),
            ParseState::PubDate(t) => ParseStateView::PubDate(t@),
            ParseState::Enclosure(t) => ParseStateView::Enclosure(t@),
            ParseState::ItemEnd => ParseStateView::ItemEnd,
            ParseState::Eof => ParseStateView::Eof,
        }
    }
}

/// The item under way once a token has been taken in: character data is
/// appended to its field, an enclosure sets the url.
pub open spec fn updated(item: ItemView, state: ParseStateView) -> ItemView {
    match state {
        ParseStateView::Title(t) => ItemView { title: item.title + t, ..item },
        ParseStateView::Subtitle(t) => ItemView { subtitle: item.subtitle + t, ..item },
        ParseStateView::PubDate(t) => ItemView { pub_date: item.pub_date + t, ..item },
        ParseStateView::Enclosure(u) => ItemView { url: u, ..item },
        _ => item,
    }
}

impl ParseState {
    /// The read position and the committed offset after this token: the
    /// committed offset moves only when an item closes.
    pub fn calc_bytes(&self, _current: u32, total: u32, position: u32) -> (bytes: (u32, u32))
        ensures
            bytes.0 == position,
            bytes.1 == (if self@ is ItemEnd { position } else { total }),
    {
        match self {
            Self::ItemEnd => (position, position),
            _ => (position, total),
        }
    }

    /// Takes what the token gave into the item under way.
    pub fn update_item(&self, item: &mut Item)
        ensures
            final(item)@ == updated(old(item)@, self@),
    {
        match self {
            Self::Title(t) => item.title.extend_from_slice(t.as_slice()),
            Self::Subtitle(t) => item.subtitle.extend_from_slice(t.as_slice()),
            Self::PubDate(t) => item.pub_date.extend_from_slice(t.as_slice()),
            Self::Enclosure(t) => item.url = t.clone(),
            _ => (),
        }
        assert(item@.title =~= updated(old(item)@, self@).title);
        assert(item@.subtitle =~= updated(old(item)@, self@).subtitle);
        assert(item@.pub_date =~= updated(old(item)@, self@).pub_date);
        assert(item@.url =~= updated(old(item)@, self@).url);
    }
}

/// What character data means where it stands: it belongs to a field when
/// the open tag is that field's and the tag around it is `item`.
pub open spec fn text_state_of(stack: Seq<Seq<u8>>, text: Option<Seq<u8>>) -> ParseStateView {
    match text {
        Some(txt) => if item_at(stack, 2) {
            let tag = stack.last();
            if tag == TITLE@ {
                ParseStateView::Title(txt)
            } else if tag == SUB@ {
                ParseStateView::Subtitle(txt)
            } else if tag == PUBDATE@ {
                ParseStateView::PubDate(txt)
            } else {
                ParseStateView::Empty
            }
        } else {
            ParseStateView::Empty
        },
        None => ParseStateView::Empty,
    }
}

/// `text` is the character data with its escapes replaced, or `None` where
/// they could not be.
pub fn text_state(_state: &ParseState, text: Option<Vec<u8>>, stack: &TagStack) -> (state: ParseState)
    ensures
        state@ == text_state_of(
            names_of(stack@),
            match text {
                Some(t) => Some(t@),
                None => None,
            },
        ),
{
    match text {
        Some(txt) => {
            if check_item(stack, 2) {
                let tag = stack[stack.len() - 1].as_slice();
                if bytes_eq(tag, TITLE.as_slice()) {
                    ParseState::Title(txt)
                } else if bytes_eq(tag, SUB.as_slice()) {
                    ParseState::Subtitle(txt)
                } else if bytes_eq(tag, PUBDATE.as_slice()) {
                    ParseState::PubDate(txt)
                } else {
                    ParseState::Empty
                }
            } else {
                ParseState::Empty
            }
        },
        None => ParseState::Empty,
    }
}

/// The value of the first attribute whose key is `url`.
pub open spec fn first_url(attributes: Seq<AttributeView>) -> Option<Seq<u8>>
    decreases attributes.len(),
{
    if attributes.len() == 0 {
        None
    } else if attributes[0].key == URL@ {
        Some(attributes[0].value)
    } else {
        first_url(attributes.skip(1))
    }
}

/// The value of the first attribute whose key is `url`, if there is one.
pub fn enclosure_url(attributes: &Vec<Attribute>) -> (url: Option<Vec<u8>>)
    ensures
        match url {
            Some(u) => first_url(attributes_view(attributes@)) == Some(u@),
            None => first_url(attributes_view(attributes@)) is None,
        },
{
    let ghost all = attributes_view(attributes@);
    let mut i: usize = 0;
    assert(all.skip(0) =~= all);
    while i < attributes.len()
        invariant
            i <= attributes.len(),
            all == attributes_view(attributes@),
            first_url(all) == first_url(all.skip(i as int)),
        decreases attributes.len() - i,
    {
        let ghost rest = all.skip(i as int);
        assert(rest[0] == attributes@[i as int]@);
        assert(rest.skip(1) =~= all.skip(i + 1));
        if bytes_eq(attributes[i].key.as_slice(), URL.as_slice()) {
            return Some(attributes[i].value.clone());
        }
        i += 1;
    }
    None
}

/// What a self-closing tag means where it stands: an `enclosure` directly
/// inside `item` gives the item its url.
pub open spec fn enclosure_state_of(stack: Seq<Seq<u8>>, tag: TagView) -> ParseStateView {
    if item_at(stack, 1) && tag.name() == ENCLOSURE@ {
        match first_url(attributes_of(tag.content, tag.name_len)) {
            Some(url) => ParseStateView::Enclosure(url),
            None => ParseStateView::Empty,
        }
    } else {
        ParseStateView::Empty
    }
}

/// What a self-closing tag means, given the tags that are open.
pub fn enclosure_state(tag: &Tag, stack: &TagStack) -> (state: ParseState)
    ensures
        state@ == enclosure_state_of(names_of(stack@), tag@),
{
    if check_last_item(stack) && bytes_eq(tag.name(), ENCLOSURE.as_slice()) {
        let found = attributes(tag);
        match enclosure_url(&found) {
            Some(url) => ParseState::Enclosure(url),
            None => ParseState::Empty,
        }
    } else {
        ParseState::Empty
    }
}

/// The state of the item parser: the open tags, the item under way, the
/// items that have closed, the read position and the committed offset.
pub struct Machine {
    pub stack: Seq<Seq<u8>>,
    pub current: ItemView,
    pub items: Seq<ItemView>,
    pub current_bytes: nat,
    pub total_bytes: nat,
}

impl Machine {
    /// The state before the first token of a window.
    pub open spec fn start() -> Machine {
        Machine {
            stack: Seq::empty(),
            current: ItemView::empty(),
            items: Seq::empty(),
            current_bytes: 0,
            total_bytes: 0,
        }
    }
}

/// What a token means, given the tags that are open when it comes. An end
/// tag closes an item only when it is named `item` and the innermost open
/// tag is `item` too.
pub open spec fn reaction(stack: Seq<Seq<u8>>, token: TokenView) -> ParseStateView {
    match token {
        TokenView::Eof => ParseStateView::Eof,
        TokenView::Empty(tag) => enclosure_state_of(stack, tag),
        TokenView::End(name) => if item_at(stack, 1) && name == ITEM@ {
            ParseStateView::ItemEnd
        } else {
            ParseStateView::Empty
        },
        TokenView::Text(escaped) => text_state_of(stack, unescaped(escaped)),
        TokenView::CData(escaped) => text_state_of(stack, unescaped(escaped)),
        _ => ParseStateView::Empty,
    }
}

/// The open tags after a token: a start tag opens one, an end tag closes the
/// innermost, whatever its name.
pub open spec fn stack_after(stack: Seq<Seq<u8>>, token: TokenView) -> Seq<Seq<u8>> {
    match token {
        TokenView::Start(name) => stack.push(name),
        TokenView::End(_) => if stack.len() > 0 {
            stack.drop_last()
        } else {
            stack
        },
        _ => stack,
    }
}

/// The state after one token that the tokenizer left at offset `end`.
pub open spec fn step(m: Machine, token: TokenView, end: nat) -> Machine {
    let state = reaction(m.stack, token);
    Machine {
        stack: stack_after(m.stack, token),
        current: if state is ItemEnd {
            ItemView::empty()
        } else {
            updated(m.current, state)
        },
        items: if state is ItemEnd {
            m.items.push(m.current)
        } else {
            m.items
        },
        current_bytes: end,
        total_bytes: if state is ItemEnd {
            end
        } else {
            m.total_bytes
        },
    }
}

/// The state after a run of tokens.
pub open spec fn run(m: Machine, tokens: Seq<Scanned>) -> Machine
    decreases tokens.len(),
{
    if tokens.len() == 0 {
        m
    } else {
        run(step(m, tokens[0].token, tokens[0].end), tokens.skip(1))
    }
}

/// The state after all the tokens of one window.
pub open spec fn parsed(input: Seq<u8>) -> Machine {
    run(Machine::start(), scan(input))
}

/// The item parser: it takes the tokens of a window one by one and keeps
/// the items that closed, with the offset just after the last of them.
pub struct ItemParser {
    tag_stack: TagStack,
    current_item: Item,
    items: Vec<Item>,
    current_bytes: u32,
    total_bytes: u32,
}

impl View for ItemParser {
    type V = Machine;

    closed spec fn view(&self) -> Machine {
        Machine {
            stack: names_of(self.tag_stack@),
            current: self.current_item@,
            items: items_view(self.items@),
            current_bytes: self.current_bytes as nat,
            total_bytes: self.total_bytes as nat,
        }
    }
}

impl ItemParser {
    pub fn new() -> (parser: ItemParser)
        ensures
            parser@ == Machine::start(),
    {
        let parser = ItemParser {
            tag_stack: Vec::new(),
            current_item: Item::default(),
            items: Vec::new(),
            current_bytes: 0,
            total_bytes: 0,
        };
        assert(parser@.stack =~= Machine::start().stack);
        assert(parser@.items =~= Machine::start().items);
        parser
    }

    /// Takes in one token that the tokenizer left at offset `position`.
    pub fn feed(&mut self, token: Token, position: u32)
        ensures
            final(self)@ == step(old(self)@, token@, position as nat),
    {
        let ghost before = self@;
        let mut state = ParseState::Empty;
        match token {
            Token::Eof => {
                state = ParseState::Eof;
            },
            Token::Error => {},
            Token::Other => {},
            Token::Start(name) => {
                self.tag_stack.push(name);
                assert(names_of(self.tag_stack@) =~= before.stack.push(name@));
            },
            Token::Empty(tag) => {
                state = enclosure_state(&tag, &self.tag_stack);
            },
            Token::End(name) => {
                let last = self.tag_stack.pop();
                if let Some(t) = last {
                    assert(names_of(self.tag_stack@) =~= before.stack.drop_last());
                    assert(t@ == before.stack.last());
                    if bytes_eq(t.as_slice(), ITEM.as_slice()) && bytes_eq(
                        name.as_slice(),
                        ITEM.as_slice(),
                    ) {
                        self.items.push(self.current_item.clone());
                        self.current_item = Item::default();
                        state = ParseState::ItemEnd;
                        assert(items_view(self.items@) =~= before.items.push(before.current));
                    }
                }
            },
            Token::CData(escaped) => {
                state = text_state(&state, unescape(escaped.as_slice()), &self.tag_stack);
            },
            Token::Text(escaped) => {
                state = text_state(&state, unescape(escaped.as_slice()), &self.tag_stack);
            },
        }
        assert(state@ == reaction(before.stack, token@));
        let (c, t) = state.calc_bytes(self.current_bytes, self.total_bytes, position);
        self.current_bytes = c;
        self.total_bytes = t;
        state.update_item(&mut self.current_item);
    }

    /// The items that closed and the offset just after the last of them.
    pub fn finish(self) -> (info: ItemsInfo)
        ensures
            items_view(info.0@) == self@.items,
            info.0@.len() == self@.items.len(),
            info.1 == self@.total_bytes,
    {
        (self.items, self.total_bytes)
    }
}

/// Parses one window of a feed: the items whose `<item>` element closes in
/// it, in order, and the offset just after the last closing tag (0 where
/// none closes). An item that is still open when the window ends is dropped.
pub fn reader_to_xml(r: &[u8]) -> (info: ItemsInfo)
    requires
        r@.len() <= u32::MAX,
    ensures
        items_view(info.0@) == parsed(r@).items,
        info.0@.len() == parsed(r@).items.len(),
        info.1 == parsed(r@).total_bytes,
        info.1 <= r@.len(),
{
    let mut reader = open_reader(r);
    let mut parser = ItemParser::new();
    loop
        invariant_except_break
            ends_at_eof(pending(reader)),
            ends_within(pending(reader), r@.len()),
            run(parser@, pending(reader)) == parsed(r@),
        invariant
            r@.len() <= u32::MAX,
            parser@.total_bytes <= r@.len(),
        ensures
            parser@ == parsed(r@),
        decreases pending(reader).len(),
    {
        let ghost before = pending(reader);
        let ghost state = parser@;
        let token = read_token(&mut reader);
        let offset = position(&reader);
        let at_end = matches!(token, Token::Eof);
        assert(before[0].end <= r@.len());
        parser.feed(token, offset as u32);
        assert(run(state, before) == run(parser@, before.skip(1)));
        if at_end {
            assert(before.len() == 1);
            assert(run(parser@, before.skip(1)) == parser@);
            break ;
        }
        assert(before.len() >= 2);
        assert(before.skip(1).last() == before.last());
        assert forall|i: int| 0 <= i < before.skip(1).len() - 1 implies !((
        #[trigger] before.skip(1)[i]).token is Eof) by {
            assert(before.skip(1)[i] == before[i + 1]);
        }
        assert forall|i: int| 0 <= i < before.skip(1).len() implies (#[trigger] before.skip(
            1,
        )[i]).end <= r@.len() by {
            assert(before.skip(1)[i] == before[i + 1]);
        }
    }
    parser.finish()
}

/// The character of one decimal digit.
pub open spec fn digit(d: nat) -> char {
    if d == 0 {
        '0'
    } else if d == 1 {
        '1'
    } else if d == 2 {
        '2'
    } else if d == 3 {
        '3'
    } else if d == 4 {
        '4'
    } else if d == 5 {
        '5'
    } else if d == 6 {
        '6'
    } else if d == 7 {
        '7'
    } else if d == 8 {
        '8'
    } else {
        '9'
    }
}

/// A number in decimal, without leading zeros.
pub open spec fn decimal(n: nat) -> Seq<char>
    decreases n,
{
    if n < 10 {
        seq![digit(n)]
    } else {
        decimal(n / 10).push(digit(n % 10))
    }
}

fn digit_text(d: u64) -> (text: &'static str)
    requires
        d < 10,
    ensures
        text@ == seq![digit(d as nat)],
{
    proof {
        reveal_strlit("0");
        reveal_strlit("1");
        reveal_strlit("2");
        reveal_strlit("3");
        reveal_strlit("4");
        reveal_strlit("5");
        reveal_strlit("6");
        reveal_strlit("7");
        reveal_strlit("8");
        reveal_strlit("9");
    }
    let text = match d {
        0 => "0",
        1 => "1",
        2 => "2",
        3 => "3",
        4 => "4",
        5 => "5",
        6 => "6",
        7 => "7",
        8 => "8",
        _ => "9",
    };
    assert(text@ =~= seq![digit(d as nat)]);
    text
}

fn append_decimal(text: &mut String, n: u64)
    ensures
        final(text)@ == old(text)@ + decimal(n as nat),
    decreases n,
{
    if n >= 10 {
        append_decimal(text, n / 10);
    }
    text.append(digit_text(n % 10));
    assert(text@ =~= old(text)@ + decimal(n as nat));
}

/// The value of the `Range` header that asks for the bytes from `start` to
/// `end`: `bytes=<start>-<end>`.
pub open spec fn range_header_of(start: nat, end: nat) -> Seq<char> {
    "bytes="@ + decimal(start) + "-"@ + decimal(end)
}

/// The value of the `Range` header for the bytes from `start` to `end`.
pub fn range_header(start: u64, end: u64) -> (header: String)
    ensures
        header@ == range_header_of(start as nat, end as nat),
{
    let mut header = "bytes=".to_string();
    append_decimal(&mut header, start);
    header.append("-");
    append_decimal(&mut header, end);
    header
}

/// A feed and the window of it to read.
pub struct Rss {
    pub rss_url: String,
    pub range: ByteRange,
}

impl Rss {
    /// The `Range` header of the request for the window.
    pub fn range_header(&self) -> (header: String)
        ensures
            header@ == range_header_of(self.range.0 as nat, self.range.1 as nat),
    {
        range_header(self.range.0 as u64, self.range.1 as u64)
    }

    /// The items of the window, given what the range fetch returned: the
    /// body, or the transport's error, which is handed on unchanged.
    pub fn fetch_items(&self, fetched: Result<Vec<u8>, FeedError>) -> (result: Result<
        ItemsInfo,
        FeedError,
    >)
        requires
            fetched matches Ok(body) ==> body@.len() <= u32::MAX,
        ensures
            match fetched {
                Ok(body) => result matches Ok(info) && items_view(info.0@) == parsed(body@).items
                    && info.1 == parsed(body@).total_bytes && info.1 <= body@.len(),
                Err(e) => result == Err::<ItemsInfo, FeedError>(e),
            },
    {
        match fetched {
            Ok(body) => Ok(reader_to_xml(body.as_slice())),
            Err(e) => Err(e),
        }
    }
}

} // verus!
