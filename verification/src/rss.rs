//! From raw items to episodes.

use crate::entity::{episodes_view, Episode, EpisodeView};
use crate::error::FeedError;
use crate::model::{Item, ItemView};
use vstd::prelude::*;
use vstd::utf8::{decode_utf8, valid_utf8};

verus! {

/// A window of the remote document: the offsets of its first and last byte.
pub type Range = (usize, usize);

pub type NextBytePosition = usize;

/// The episodes of a window and the offset at which the next one starts.
pub type EpisodeInfo = (Vec<Episode>, NextBytePosition);

pub type EpisodeResult = Result<EpisodeInfo, FeedError>;

/// A source of episodes: it fetches the window itself.
pub trait Parser {
    fn parse_rss(&self, url: &str, range: Range) -> EpisodeResult;
}

/// The text that `String::from_utf8_lossy` makes of bytes.
pub uninterp spec fn lossy_text(bytes: Seq<u8>) -> Seq<char>;

/// `String::from_utf8_lossy`. Trusted: the text is `lossy_text` of the
/// bytes, and for valid UTF-8 it is the text that the bytes encode.
#[verifier::external_body]
fn text_of(bytes: &[u8]) -> (text: String)
    ensures
        text@ == lossy_text(bytes@),
        valid_utf8(bytes@) ==> text@ == decode_utf8(bytes@),
{
    String::from_utf8_lossy(bytes).into_owned()
}

/// What the date parser made of an item's publication date: seconds since
/// the epoch and the key of the day, each `None` where the date did not
/// parse.
#[derive(Debug, PartialEq)]
pub struct DateInfo {
    pub timestamp: Option<u64>,
    pub date_key: Option<String>,
}

pub struct DateInfoView {
    pub timestamp: Option<u64>,
    pub date_key: Option<Seq<char>>,
}

impl View for DateInfo {
    type V = DateInfoView;

    open spec fn view(&self) -> DateInfoView {
        DateInfoView {
            timestamp: self.timestamp,
            date_key: match self.date_key {
                Some(key) => Some(key@),
                None => None,
            },
        }
    }
}

impl DateInfoView {
    /// A date that did not parse.
    pub open spec fn unknown() -> DateInfoView {
        DateInfoView { timestamp: None, date_key: None }
    }
}

impl DateInfo {
    /// A date that did not parse.
    pub fn unknown() -> (date: DateInfo)
        ensures
            date@ == DateInfoView::unknown(),
    {
        DateInfo { timestamp: None, date_key: None }
    }
}

/// The episode that an item becomes. A date that did not parse gives the
/// timestamp 0 and the key `empty`; an item has no description and no image.
pub open spec fn normalized(item: ItemView, date: DateInfoView) -> EpisodeView {
    EpisodeView {
        title: lossy_text(item.title),
        subtitle: lossy_text(item.subtitle),
        description: Seq::empty(),
        date: lossy_text(item.pub_date),
        timestamp: match date.timestamp {
            Some(seconds) => seconds,
            None => 0,
        },
        url: lossy_text(item.url),
        image: Seq::empty(),
        date_key: match date.date_key {
            Some(key) => key,
            None => "empty"@,
        },
    }
}

impl Item {
    /// The publication date as text, as the date parser takes it.
    pub fn date_text(&self) -> (text: String)
        ensures
            text@ == lossy_text(self@.pub_date),
            valid_utf8(self@.pub_date) ==> text@ == decode_utf8(self@.pub_date),
    {
        text_of(self.pub_date.as_slice())
    }
}

impl Episode {
    /// The episode of an item, given what the date parser made of its date.
    pub fn from_item(item: &Item, date: &DateInfo) -> (episode: Episode)
        ensures
            episode@ == normalized(item@, date@),
    {
        let timestamp = match date.timestamp {
            Some(seconds) => seconds,
            None => 0,
        };
        let date_key = match &date.date_key {
            Some(key) => key.clone(),
            None => "empty".to_string(),
        };
        Episode {
            title: text_of(item.title.as_slice()),
            subtitle: text_of(item.subtitle.as_slice()),
            description: String::new(),
            date: text_of(item.pub_date.as_slice()),
            timestamp,
            url: text_of(item.url.as_slice()),
            image: String::new(),
            date_key,
        }
    }
}

/// The date of the item at `index`: the one given for it, or an unknown one.
pub open spec fn date_at(dates: Seq<DateInfo>, index: int) -> DateInfoView {
    if 0 <= index < dates.len() {
        dates[index]@
    } else {
        DateInfoView::unknown()
    }
}

/// The episodes of a list of items, in the order of the items.
pub open spec fn normalized_all(items: Seq<Item>, dates: Seq<DateInfo>) -> Seq<EpisodeView> {
    Seq::new(items.len(), |i: int| normalized(items[i]@, date_at(dates, i)))
}

/// Normalizes every item, each with the date at its own index. An item
/// without a date, or with one that did not parse, gets the defaults and
/// holds up no other.
pub fn to_episodes(items: &Vec<Item>, dates: &Vec<DateInfo>) -> (episodes: Vec<Episode>)
    ensures
        episodes_view(episodes@) == normalized_all(items@, dates@),
        episodes@.len() == items@.len(),
{
    let mut episodes: Vec<Episode> = Vec::new();
    let mut i: usize = 0;
    while i < items.len()
        invariant
            i <= items.len(),
            episodes@.len() == i,
            forall|j: int| 0 <= j < i ==> (#[trigger] episodes@[j])@ == normalized(
                items@[j]@,
                date_at(dates@, j),
            ),
        decreases items.len() - i,
    {
        let episode = if i < dates.len() {
            Episode::from_item(&items[i], &dates[i])
        } else {
            let unknown = DateInfo::unknown();
            Episode::from_item(&items[i], &unknown)
        };
        episodes.push(episode);
        i += 1;
    }
    assert(episodes_view(episodes@) =~= normalized_all(items@, dates@));
    episodes
}

/// The answer for the window that starts at `range.0`: the episodes of its
/// items, and the place of the next window, which is the window's start
/// plus the offset that the parser committed.
pub fn episode_info(
    range: Range,
    items: &Vec<Item>,
    last_item_position: usize,
    dates: &Vec<DateInfo>,
) -> (info: EpisodeInfo)
    requires
        range.0 + last_item_position <= usize::MAX,
    ensures
        episodes_view(info.0@) == normalized_all(items@, dates@),
        info.0@.len() == items@.len(),
        info.1 == range.0 + last_item_position,
{
    (to_episodes(items, dates), range.0 + last_item_position)
}

} // verus!
