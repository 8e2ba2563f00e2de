//! The windowed fetch: which range to ask for next, when a window is done
//! and when it is given up. The fetching itself is the caller's.

use crate::error::FeedError;
use crate::model::{items_view, Item, ItemView};
use crate::parser::{parsed, reader_to_xml, ByteRange};
use vstd::prelude::*;

verus! {

/// The offset at which the next window starts.
pub type NextStart = u32;

/// The items of a window and where the next one starts.
pub type FetchInfo = (Vec<Item>, NextStart);

pub type FetchResult = Result<FetchInfo, FeedError>;

/// A source of feed items: it fetches the bytes itself.
pub trait Fetcher {
    /// All the items of the feed at `url`.
    fn parse_all(&self, url: String) -> Vec<Item>;

    /// The items of the window `range`, fetched `seg_size` bytes at a time,
    /// and the offset at which the next window starts.
    fn parse_segment(&self, url: String, range: ByteRange, seg_size: u32) -> FetchResult;
}

/// The rules of the windowed fetch. A fetch that commits fewer than
/// `min_bytes` bytes ends the window with an error.
pub struct Client {
    pub min_bytes: u32,
}

/// A window under way: the range to fetch next, the end of the window and
/// the items gathered so far.
pub struct Segment {
    left: u32,
    right: u32,
    end: u32,
    list: Vec<Item>,
}

pub struct SegmentView {
    pub left: nat,
    pub right: nat,
    pub end: nat,
    pub list: Seq<ItemView>,
}

impl View for Segment {
    type V = SegmentView;

    closed spec fn view(&self) -> SegmentView {
        SegmentView {
            left: self.left as nat,
            right: self.right as nat,
            end: self.end as nat,
            list: items_view(self.list@),
        }
    }
}

impl Segment {
    #[verifier::type_invariant]
    spec fn ordered(self) -> bool {
        self.left <= self.right
    }

    /// The range to fetch next.
    pub fn window(&self) -> (range: ByteRange)
        ensures
            range.0 == self@.left,
            range.1 == self@.right,
    {
        (self.left, self.right)
    }
}

/// What the controller does after a fetch.
pub enum SegmentStep {
    /// Fetch the segment's range, then come back with the answer.
    Fetch(Segment),
    /// The window is read: its items, and where the next window starts.
    Done(FetchInfo),
    /// The window is given up.
    Failed(FeedError),
}

/// The step that follows a fetch which committed `consumed` bytes and closed
/// `items`: both offsets move on by `consumed`; too little progress fails the
/// window; the window is done once the range to fetch lies past its end.
pub open spec fn advanced(
    segment: SegmentView,
    min_bytes: nat,
    items: Seq<ItemView>,
    consumed: nat,
) -> SegmentStepView {
    if consumed < min_bytes {
        SegmentStepView::Failed(FeedError::NoProgress)
    } else if segment.right + consumed > segment.end {
        SegmentStepView::Done(segment.list + items, segment.left + consumed)
    } else {
        SegmentStepView::Fetch(
            SegmentView {
                left: segment.left + consumed,
                right: segment.right + consumed,
                end: segment.end,
                list: segment.list + items,
            },
        )
    }
}

/// A fetch that commits fewer than `min_bytes` bytes fails the window,
/// whatever it holds. A fetch after which the window goes on
/// has moved the range by at least `min_bytes`, within the window; so with a
/// positive minimum every further fetch has strictly less of the window
/// before it, and a window cannot go on for ever.
pub proof fn lemma_progress(
    segment: SegmentView,
    min_bytes: nat,
    items: Seq<ItemView>,
    consumed: nat,
)
    ensures
        consumed < min_bytes ==> advanced(segment, min_bytes, items, consumed)
            == SegmentStepView::Failed(FeedError::NoProgress),
        advanced(segment, min_bytes, items, consumed) matches SegmentStepView::Fetch(next) ==> {
            &&& next.right >= segment.right + min_bytes
            &&& next.right <= next.end
            &&& next.end == segment.end
            &&& min_bytes > 0 ==> next.end - next.right < segment.end - segment.right
        },
{
}

pub enum SegmentStepView {
    Fetch(SegmentView),
    Done(Seq<ItemView>, nat),
    Failed(FeedError),
}

impl Client {
    pub fn new(min_bytes: u32) -> (client: Client)
        ensures
            client.min_bytes == min_bytes,
    {
        Client { min_bytes }
    }

    /// All the items of a document that was fetched whole.
    pub fn parse_all(&self, document: &[u8]) -> (items: Vec<Item>)
        requires
            document@.len() <= u32::MAX,
        ensures
            items_view(items@) == parsed(document@).items,
    {
        reader_to_xml(document).0
    }

    /// Opens the window `range`: the first fetch starts where the window
    /// does and is `seg_size` bytes wide.
    pub fn start_segment(&self, range: ByteRange, seg_size: u32) -> (segment: Segment)
        requires
            range.0 + seg_size <= u32::MAX,
        ensures
            segment@ == (SegmentView {
                left: range.0 as nat,
                right: (range.0 + seg_size) as nat,
                end: range.1 as nat,
                list: Seq::empty(),
            }),
    {
        let segment = Segment {
            left: range.0,
            right: range.0 + seg_size,
            end: range.1,
            list: Vec::new(),
        };
        assert(segment@.list =~= Seq::empty());
        segment
    }

    /// Takes in what the fetch of the segment's range returned and decides
    /// how the window goes on. A transport error ends it unchanged. A body
    /// is parsed, its items are added and both offsets move on by the bytes
    /// it committed; fewer than `min_bytes` of them end the window with
    /// `NoProgress`.
    pub fn parse_segment(&self, segment: Segment, fetched: Result<Vec<u8>, FeedError>) -> (step:
        SegmentStep)
        requires
            fetched matches Ok(body) ==> segment@.right + body@.len() <= u32::MAX,
        ensures
            step_view(step) == match fetched {
                Ok(body) => advanced(
                    segment@,
                    self.min_bytes as nat,
                    parsed(body@).items,
                    parsed(body@).total_bytes,
                ),
                Err(e) => SegmentStepView::Failed(e),
            },
            fetched matches Ok(body) && body@.len() < self.min_bytes ==> step_view(step)
                == SegmentStepView::Failed(FeedError::NoProgress),
            step matches SegmentStep::Fetch(next) ==> next@.right >= segment@.right
                + self.min_bytes,
    {
        proof {
            use_type_invariant(&segment);
        }
        let ghost before = segment@;
        match fetched {
            Err(e) => SegmentStep::Failed(e),
            Ok(body) => {
                let (items, total_bytes) = reader_to_xml(body.as_slice());
                let Segment { left, right, end, list } = segment;
                let mut list = list;
                let mut items = items;
                list.append(&mut items);
                assert(items_view(list@) =~= before.list + parsed(body@).items);
                let left = left + total_bytes;
                let right = right + total_bytes;
                if total_bytes < self.min_bytes {
                    SegmentStep::Failed(FeedError::NoProgress)
                } else if right > end {
                    SegmentStep::Done((list, left))
                } else {
                    SegmentStep::Fetch(Segment { left, right, end, list })
                }
            },
        }
    }
}

/// The value of a step.
pub open spec fn step_view(step: SegmentStep) -> SegmentStepView {
    match step {
        SegmentStep::Fetch(segment) => SegmentStepView::Fetch(segment@),
        SegmentStep::Done(info) => SegmentStepView::Done(items_view(info.0@), info.1 as nat),
        SegmentStep::Failed(e) => SegmentStepView::Failed(e),
    }
}

} // verus!
