//! Normalized discovery events and the lifecycle vocabulary.

use vstd::prelude::*;

verus! {

/// The kind of a lifecycle notification an instance can send.
///
/// `Unknown` is not a real lifecycle state: it is the classifier's result
/// for an event name outside the recognized vocabulary, and such datagrams
/// are discarded before any event is emitted.
#[derive(Debug, Clone, Copy, PartialEq, Eq, Structural)]
pub enum InstanceEvent {
    Down,
    Log,
    Unknown,
    Up,
}

/// The lifecycle kind a wire event name maps to: `"up"`, `"down"` and
/// `"log"` name real kinds, anything else is `Unknown`.
pub open spec fn event_kind(s: Seq<char>) -> InstanceEvent {
    if s == "down"@ {
        InstanceEvent::Down
    } else if s == "log"@ {
        InstanceEvent::Log
    } else if s == "up"@ {
        InstanceEvent::Up
    } else {
        InstanceEvent::Unknown
    }
}

impl InstanceEvent {
    /// Maps a wire event name to its lifecycle kind.
    pub fn from_str(s: &str) -> (r: InstanceEvent)
        ensures
            r == event_kind(s@),
    {
        let name = String::from_str(s);
        if name == String::from_str("down") {
            InstanceEvent::Down
        } else if name == String::from_str("log") {
            InstanceEvent::Log
        } else if name == String::from_str("up") {
            InstanceEvent::Up
        } else {
            InstanceEvent::Unknown
        }
    }
}

/// One normalized event the discovery core emits: which instance it is
/// about, the lifecycle kind, and, for a lifecycle datagram, the serialized
/// `data` object it carried.
#[derive(Debug, Clone)]
pub struct DiscoverEvent {
    pub uuid: String,
    pub event: InstanceEvent,
    pub data: Option<String>,
}

/// The mathematical value of a [`DiscoverEvent`].
pub struct DiscoverEventView {
    pub uuid: Seq<char>,
    pub event: InstanceEvent,
    pub data: Option<Seq<char>>,
}

impl View for DiscoverEvent {
    type V = DiscoverEventView;

    open spec fn view(&self) -> DiscoverEventView {
        DiscoverEventView {
            uuid: self.uuid@,
            event: self.event,
            data: match self.data {
                Some(d) => Some(d@),
                None => None,
            },
        }
    }
}

} // verus!
