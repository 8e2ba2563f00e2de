//! The episode that an item becomes.

use vstd::prelude::*;

verus! {

/// One episode of a podcast, ready to be stored.
#[derive(Debug, PartialEq)]
pub struct Episode {
    pub title: String,
    pub subtitle: String,
    pub description: String,
    pub date: String,
    pub timestamp: u64,
    pub url: String,
    pub image: String,
    pub date_key: String,
}

/// The mathematical value of an [`Episode`].
pub struct EpisodeView {
    pub title: Seq<char>,
    pub subtitle: Seq<char>,
    pub description: Seq<char>,
    pub date: Seq<char>,
    pub timestamp: u64,
    pub url: Seq<char>,
    pub image: Seq<char>,
    pub date_key: Seq<char>,
}

impl View for Episode {
    type V = EpisodeView;

    open spec fn view(&self) -> EpisodeView {
        EpisodeView {
            title: self.title@,
            subtitle: self.subtitle@,
            description: self.description@,
            date: self.date@,
            timestamp: self.timestamp,
            url: self.url@,
            image: self.image@,
            date_key: self.date_key@,
        }
    }
}

impl EpisodeView {
    /// The episode with every text empty and the timestamp 0.
    pub open spec fn empty() -> EpisodeView {
        EpisodeView {
            title: Seq::empty(),
            subtitle: Seq::empty(),
            description: Seq::empty(),
            date: Seq::empty(),
            timestamp: 0,
            url: Seq::empty(),
            image: Seq::empty(),
            date_key: Seq::empty(),
        }
    }
}

impl Clone for Episode {
    fn clone(&self) -> (copy: Self)
        ensures
            copy@ == self@,
    {
        Episode {
            title: self.title.clone(),
            subtitle: self.subtitle.clone(),
            description: self.description.clone(),
            date: self.date.clone(),
            timestamp: self.timestamp,
            url: self.url.clone(),
            image: self.image.clone(),
            date_key: self.date_key.clone(),
        }
    }
}

impl Default for Episode {
    fn default() -> (episode: Self)
        ensures
            episode@ == EpisodeView::empty(),
    {
        Episode {
            title: String::new(),
            subtitle: String::new(),
            description: String::new(),
            date: String::new(),
            timestamp: 0,
            url: String::new(),
            image: String::new(),
            date_key: String::new(),
        }
    }
}

/// The values of a list of episodes, in order.
pub open spec fn episodes_view(episodes: Seq<Episode>) -> Seq<EpisodeView> {
    episodes.map_values(|e: Episode| e@)
}

} // verus!
