//! The raw item that the parser gathers.

use vstd::prelude::*;

verus! {

/// One feed entry as the parser read it: raw bytes, each field empty until
/// its element has been seen.
#[derive(Debug, PartialEq)]
pub struct Item {
    pub title: Vec<u8>,
    pub subtitle: Vec<u8>,
    pub pub_date: Vec<u8>,
    pub url: Vec<u8>,
}

/// The mathematical value of an [`Item`].
pub struct ItemView {
    pub title: Seq<u8>,
    pub subtitle: Seq<u8>,
    pub pub_date: Seq<u8>,
    pub url: Seq<u8>,
}

impl ItemView {
    /// The item with every field empty.
    pub open spec fn empty() -> ItemView {
        ItemView {
            title: Seq::empty(),
            subtitle: Seq::empty(),
            pub_date: Seq::empty(),
            url: Seq::empty(),
        }
    }
}

impl View for Item {
    type V = ItemView;

    open spec fn view(&self) -> ItemView {
        ItemView {
            title: self.title@,
            subtitle: self.subtitle@,
            pub_date: self.pub_date@,
            url: self.url@,
        }
    }
}

impl Clone for Item {
    fn clone(&self) -> (copy: Self)
        ensures
            copy@ == self@,
    {
        Item {
            title: self.title.clone(),
            subtitle: self.subtitle.clone(),
            pub_date: self.pub_date.clone(),
            url: self.url.clone(),
        }
    }
}

impl Default for Item {
    fn default() -> (item: Self)
        ensures
            item@ == ItemView::empty(),
    {
        Item { title: Vec::new(), subtitle: Vec::new(), pub_date: Vec::new(), url: Vec::new() }
    }
}

/// The values of a list of items, in order.
pub open spec fn items_view(items: Seq<Item>) -> Seq<ItemView> {
    items.map_values(|item: Item| item@)
}

} // verus!
