//! The tokens of a feed, and the quick-xml tokenizer that makes them. What
//! the tokenizer does is taken on trust; everything else builds on the
//! plain values it hands out.

use quick_xml::events::attributes::Attributes;
use quick_xml::events::Event;
use vstd::prelude::*;

verus! {

/// The inside of a start tag or of a self-closing tag: the bytes between `<`
/// and `>` (without a final `/`), and how many of them are the name.
#[derive(Debug, PartialEq)]
pub struct Tag {
    pub content: Vec<u8>,
    pub name_len: usize,
}

pub struct TagView {
    pub content: Seq<u8>,
    pub name_len: nat,
}

impl TagView {
    /// The tag's name: the first `name_len` bytes of its content.
    pub open spec fn name(self) -> Seq<u8> {
        if self.name_len <= self.content.len() {
            self.content.take(self.name_len as int)
        } else {
            self.content
        }
    }
}

impl View for Tag {
    type V = TagView;

    open spec fn view(&self) -> TagView {
        TagView { content: self.content@, name_len: self.name_len as nat }
    }
}

impl Tag {
    pub fn name(&self) -> (name: &[u8])
        ensures
            name@ == self@.name(),
    {
        if self.name_len <= self.content.len() {
            vstd::slice::slice_subrange(self.content.as_slice(), 0, self.name_len)
        } else {
            self.content.as_slice()
        }
    }
}

/// One attribute of a tag: its key and its raw value, escapes left as they are.
#[derive(Debug, PartialEq)]
pub struct Attribute {
    pub key: Vec<u8>,
    pub value: Vec<u8>,
}

pub struct AttributeView {
    pub key: Seq<u8>,
    pub value: Seq<u8>,
}

impl View for Attribute {
    type V = AttributeView;

    open spec fn view(&self) -> AttributeView {
        AttributeView { key: self.key@, value: self.value@ }
    }
}

/// The values of a list of attributes, in order.
pub open spec fn attributes_view(attributes: Seq<Attribute>) -> Seq<AttributeView> {
    attributes.map_values(|a: Attribute| a@)
}

/// One event of the markup, as plain values.
#[derive(Debug, PartialEq)]
pub enum Token {
    /// `<name ...>`: the name.
    Start(Vec<u8>),
    /// `</name>`: the name.
    End(Vec<u8>),
    /// `<name ... />`.
    Empty(Tag),
    /// Character data, still escaped.
    Text(Vec<u8>),
    /// The content of a `<![CDATA[...]]>` section, escaped as character data is.
    CData(Vec<u8>),
    /// A comment, a declaration, a processing instruction or a doctype.
    Other,
    /// The end of the stream.
    Eof,
    /// A token that the tokenizer could not read.
    Error,
}

pub enum TokenView {
    Start(Seq<u8>),
    End(Seq<u8>),
    Empty(TagView),
    Text(Seq<u8>),
    CData(Seq<u8>),
    Other,
    Eof,
    Error,
}

impl View for Token {
    type V = TokenView;

    open spec fn view(&self) -> TokenView {
        match self {
            Token::Start(name) => TokenView::Start(name@),
            Token::End(name) => TokenView::End(name@),
            Token::Empty(tag) => TokenView::Empty(tag@),
            Token::Text(escaped) => TokenView::Text(escaped@),
            Token::CData(escaped) => TokenView::CData(escaped@),
            Token::Other => TokenView::Other,
            Token::Eof => TokenView::Eof,
            Token::Error => TokenView::Error,
        }
    }
}

/// A token together with the byte offset that the tokenizer reports once it
/// has read it.
pub struct Scanned {
    pub token: TokenView,
    pub end: nat,
}

/// A token stream is complete when it ends with `Eof` and holds no other `Eof`.
pub open spec fn ends_at_eof(tokens: Seq<Scanned>) -> bool {
    &&& tokens.len() > 0
    &&& tokens.last().token is Eof
    &&& forall|i: int| 0 <= i < tokens.len() - 1 ==> !((#[trigger] tokens[i]).token is Eof)
}

/// No token of the stream ends beyond `len`.
pub open spec fn ends_within(tokens: Seq<Scanned>, len: nat) -> bool {
    forall|i: int| 0 <= i < tokens.len() ==> (#[trigger] tokens[i]).end <= len
}

/// The tokens that quick-xml makes of `input`, each with the offset it
/// reports after it, up to and including the first `Eof`. The reader trims
/// text and does not check that end tags match.
pub uninterp spec fn scan(input: Seq<u8>) -> Seq<Scanned>;

/// What quick-xml makes of escaped character data: the text with each
/// `&...;` replaced, or nothing where an escape is malformed.
pub uninterp spec fn unescaped(escaped: Seq<u8>) -> Option<Seq<u8>>;

/// The attributes that quick-xml reads from a tag's content, in order, up to
/// the first malformed or repeated one.
pub uninterp spec fn attributes_of(content: Seq<u8>, name_len: nat) -> Seq<AttributeView>;

/// A quick-xml reader over one window of a feed. The verifier does not look
/// inside it: what it holds is known through `pending` and `cursor` alone.
#[verifier::external_body]
pub struct FeedReader<'a> {
    inner: quick_xml::Reader<&'a [u8]>,
}

/// The tokens that a reader has yet to hand out.
pub uninterp spec fn pending(reader: FeedReader) -> Seq<Scanned>;

/// The offset that a reader reports: the end of the token it handed out last.
pub uninterp spec fn cursor(reader: FeedReader) -> nat;

/// `quick_xml::Reader::from_reader` on a byte slice, with `trim_text(true)`
/// and `check_end_names(false)`. Trusted: the new reader will hand out
/// `scan(input)`; that stream ends with its only `Eof`, since every other
/// event consumes at least one byte and an error is followed by `Eof`; and
/// no offset it reports exceeds the length of the input.
#[verifier::external_body]
pub(crate) fn open_reader<'a>(input: &'a [u8]) -> (reader: FeedReader<'a>)
    ensures
        pending(reader) == scan(input@),
        ends_at_eof(pending(reader)),
        ends_within(pending(reader), input@.len()),
{
    let mut inner = quick_xml::Reader::from_reader(input);
    inner.trim_text(true);
    inner.check_end_names(false);
    FeedReader { inner }
}

/// `quick_xml::Reader::read_event`, its event copied into a [`Token`].
/// Trusted: the token is the first of those pending, which leaves the
/// reader, and the reader's offset becomes that token's end.
#[verifier::external_body]
pub(crate) fn read_token(reader: &mut FeedReader) -> (token: Token)
    requires
        pending(*old(reader)).len() > 0,
    ensures
        token@ == pending(*old(reader))[0].token,
        pending(*final(reader)) == pending(*old(reader)).skip(1),
        cursor(*final(reader)) == pending(*old(reader))[0].end,
{
    let mut buf = Vec::new();
    match reader.inner.read_event(&mut buf) {
        Ok(Event::Start(e)) => Token::Start(e.name().to_vec()),
        Ok(Event::End(e)) => Token::End(e.name().to_vec()),
        Ok(Event::Empty(e)) => Token::Empty(Tag { content: e.to_vec(), name_len: e.name().len() }),
        Ok(Event::Text(e)) => Token::Text(e.escaped().to_vec()),
        Ok(Event::CData(e)) => Token::CData(e.escaped().to_vec()),
        Ok(Event::Eof) => Token::Eof,
        Ok(_) => Token::Other,
        Err(_) => Token::Error,
    }
}

/// `quick_xml::Reader::buffer_position`. Trusted: it is the reader's offset.
#[verifier::external_body]
pub(crate) fn position(reader: &FeedReader) -> (offset: usize)
    ensures
        offset == cursor(*reader),
{
    reader.inner.buffer_position()
}

/// `quick_xml::escape::unescape`. Trusted: the result is `unescaped` of the
/// argument, `None` standing for the crate's error.
#[verifier::external_body]
pub(crate) fn unescape(escaped: &[u8]) -> (text: Option<Vec<u8>>)
    ensures
        match text {
            Some(t) => unescaped(escaped@) == Some(t@),
            None => unescaped(escaped@) is None,
        },
{
    match quick_xml::escape::unescape(escaped) {
        Ok(text) => Some(text.into_owned()),
        Err(_) => None,
    }
}

/// `quick_xml::events::attributes::Attributes::new` and its iteration, as
/// `BytesStart::attributes` starts it. Trusted: the attributes read are
/// `attributes_of` the tag's content.
#[verifier::external_body]
pub(crate) fn attributes(tag: &Tag) -> (found: Vec<Attribute>)
    ensures
        attributes_view(found@) == attributes_of(tag@.content, tag@.name_len),
{
    let mut found = Vec::new();
    for a in Attributes::new(&tag.content, tag.name_len).flatten() {
        found.push(Attribute { key: a.key.to_vec(), value: a.value.into_owned() });
    }
    found
}

} // verus!
