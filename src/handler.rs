//! What the dispatch core knows of a registered handler.
use vstd::prelude::*;
use crate::text::str_eq;

verus! {

/// The channel name that stands for every channel.
pub const ALL_CHANNELS_MARKER: &'static str = "*";

/// Name, description and channel scope of a registered handler.
///
/// A scope that holds [`ALL_CHANNELS_MARKER`] reaches every channel, and
/// the other names in it are ignored.
pub struct HandlerInfo {
    pub name: String,
    pub description: String,
    pub channels: Vec<String>,
}

/// Mathematical view of a [`HandlerInfo`].
pub struct HandlerView {
    pub name: Seq<char>,
    pub description: Seq<char>,
    pub channels: Seq<Seq<char>>,
}

impl HandlerView {
    pub open spec fn for_all_channels(self) -> bool {
        self.channels.contains("*"@)
    }

    /// Reachable from channel `c` through its own scope.
    pub open spec fn scoped_in(self, c: Seq<char>) -> bool {
        !self.for_all_channels() && self.channels.contains(c)
    }
}

impl View for HandlerInfo {
    type V = HandlerView;

    open spec fn view(&self) -> HandlerView {
        HandlerView {
            name: self.name@,
            description: self.description@,
            channels: self.channels@.map_values(|c: String| c@),
        }
    }
}

/// The views of a sequence of handlers.
pub open spec fn views(hs: Seq<HandlerInfo>) -> Seq<HandlerView> {
    hs.map_values(|h: HandlerInfo| h@)
}

impl HandlerInfo {
    pub fn new(name: String, description: String, channels: Vec<String>) -> (r: Self)
        ensures
            r.name == name,
            r.description == description,
            r.channels == channels,
    {
        HandlerInfo { name, description, channels }
    }

    /// Whether the scope holds the all-channels marker.
    pub fn is_for_all_channels(&self) -> (r: bool)
        ensures
            r == self@.for_all_channels(),
    {
        let mut k: usize = 0;
        while k < self.channels.len()
            invariant
                k <= self.channels@.len(),
                forall|j: int| 0 <= j < k ==> self.channels@[j]@ != "*"@,
            decreases self.channels@.len() - k,
        {
            if str_eq(self.channels[k].as_str(), ALL_CHANNELS_MARKER) {
                assert(self@.channels[k as int] == "*"@);
                return true;
            }
            k += 1;
        }
        proof {
            if self@.channels.contains("*"@) {
                let j = choose|j: int| 0 <= j < self@.channels.len() && self@.channels[j] == "*"@;
                assert(self.channels@[j]@ == "*"@);
            }
        }
        false
    }
}

} // verus!
