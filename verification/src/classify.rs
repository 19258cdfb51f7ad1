//! The event classifier: from one decoded datagram to at most one
//! normalized [`DiscoverEvent`].
//!
//! A datagram is either a presence advertisement (`data.advertisement` is a
//! non-empty object) or a named lifecycle event (`event` plus `data.uuid`).
//! The advertisement check comes first; an unrecognized event name is a
//! deliberate no-op, distinct from an error.

use vstd::prelude::*;

use crate::DiscoverError;
use crate::event::{DiscoverEvent, DiscoverEventView, InstanceEvent, event_kind};
use crate::json::{fields_of, json_text_ok, parse_fields};
use std::str::from_utf8;
use vstd::utf8::{decode_utf8, valid_utf8};

verus! {

/// The fields of one decoded datagram that classification reads, drawn out
/// of the parsed JSON text as plain values.
pub struct PayloadFields {
    /// Whether `data.advertisement` is present as a non-empty JSON object.
    pub has_advertisement: bool,
    /// `Some(u)` exactly when `data.advertisement.uuid` is a JSON string
    /// `u`.
    pub advertisement_uuid: Option<String>,
    /// `Some(e)` exactly when the top-level `event` field is a JSON string
    /// `e`.
    pub event: Option<String>,
    /// `Some(u)` exactly when `data.uuid` is a JSON string `u`.
    pub data_uuid: Option<String>,
    /// The `data` object serialized back to text, when `data` is present
    /// and serializable.
    pub data_text: Option<String>,
}

/// The mathematical value of the fields of one decoded datagram.
pub struct PayloadFieldsView {
    pub has_advertisement: bool,
    pub advertisement_uuid: Option<Seq<char>>,
    pub event: Option<Seq<char>>,
    pub data_uuid: Option<Seq<char>>,
    pub data_text: Option<Seq<char>>,
}

impl View for PayloadFields {
    type V = PayloadFieldsView;

    open spec fn view(&self) -> PayloadFieldsView {
        PayloadFieldsView {
            has_advertisement: self.has_advertisement,
            advertisement_uuid: match self.advertisement_uuid {
                Some(u) => Some(u@),
                None => None,
            },
            event: match self.event {
                Some(e) => Some(e@),
                None => None,
            },
            data_uuid: match self.data_uuid {
                Some(u) => Some(u@),
                None => None,
            },
            data_text: match self.data_text {
                Some(t) => Some(t@),
                None => None,
            },
        }
    }
}

/// What the classifier decides for one decoded datagram: at most one
/// normalized event, or the reason the datagram is rejected.
pub open spec fn classify_spec(m: PayloadFieldsView) -> Result<
    Option<DiscoverEventView>,
    DiscoverError,
> {
    if m.has_advertisement {
        match m.advertisement_uuid {
            Some(u) => if u.len() > 0 {
                Ok(Some(DiscoverEventView { uuid: u, event: InstanceEvent::Up, data: None }))
            } else {
                Err(DiscoverError::Validation)
            },
            None => Err(DiscoverError::Validation),
        }
    } else {
        match m.event {
            None => Err(DiscoverError::Format),
            Some(e) => if event_kind(e) is Unknown {
                Ok(None)
            } else {
                match m.data_uuid {
                    None => Err(DiscoverError::Format),
                    Some(u) => if u.len() == 0 {
                        Err(DiscoverError::Validation)
                    } else {
                        match m.data_text {
                            Some(t) => Ok(
                                Some(
                                    DiscoverEventView {
                                        uuid: u,
                                        event: event_kind(e),
                                        data: Some(t),
                                    },
                                ),
                            ),
                            None => Err(DiscoverError::Format),
                        }
                    },
                }
            },
        }
    }
}

/// The mathematical value of a classification result.
pub open spec fn classification_view(r: Result<Option<DiscoverEvent>, DiscoverError>) -> Result<
    Option<DiscoverEventView>,
    DiscoverError,
> {
    match r {
        Ok(Some(ev)) => Ok(Some(ev@)),
        Ok(None) => Ok(None),
        Err(e) => Err(e),
    }
}

/// Classifies one decoded datagram.
pub fn classify(m: PayloadFields) -> (r: Result<Option<DiscoverEvent>, DiscoverError>)
    ensures
        classification_view(r) == classify_spec(m@),
{
    if m.has_advertisement {
        match m.advertisement_uuid {
            Some(u) => {
                if u.as_str().is_empty() {
                    Err(DiscoverError::Validation)
                } else {
                    Ok(Some(DiscoverEvent { uuid: u, event: InstanceEvent::Up, data: None }))
                }
            },
            None => Err(DiscoverError::Validation),
        }
    } else {
        match m.event {
            None => Err(DiscoverError::Format),
            Some(e) => {
                let kind = InstanceEvent::from_str(e.as_str());
                if matches!(kind, InstanceEvent::Unknown) {
                    Ok(None)
                } else {
                    match m.data_uuid {
                        None => Err(DiscoverError::Format),
                        Some(u) => {
                            if u.as_str().is_empty() {
                                Err(DiscoverError::Validation)
                            } else {
                                match m.data_text {
                                    Some(t) => Ok(
                                        Some(
                                            DiscoverEvent {
                                                uuid: u,
                                                event: kind,
                                                data: Some(t),
                                            },
                                        ),
                                    ),
                                    None => Err(DiscoverError::Format),
                                }
                            }
                        },
                    }
                }
            },
        }
    }
}

/// Law: a valid advertisement — `data.advertisement` a non-empty object
/// whose `uuid` is a non-empty string — yields exactly one event: kind
/// `Up`, that uuid as the instance, and no payload.
pub proof fn lemma_advertisement_up(m: PayloadFieldsView)
    requires
        m.has_advertisement,
        m.advertisement_uuid matches Some(u) && u.len() > 0,
    ensures
        m.advertisement_uuid matches Some(u) ==> classify_spec(m) == Ok::<
            Option<DiscoverEventView>,
            DiscoverError,
        >(Some(DiscoverEventView { uuid: u, event: InstanceEvent::Up, data: None })),
{
}

/// Law: a lifecycle datagram whose `event` names a recognized kind and
/// whose `data.uuid` is a non-empty string yields exactly one event: the
/// mapped kind, that uuid, and the serialized `data` object as payload.
pub proof fn lemma_lifecycle_event(m: PayloadFieldsView)
    requires
        !m.has_advertisement,
        m.event matches Some(e) && !(event_kind(e) is Unknown),
        m.data_uuid matches Some(u) && u.len() > 0,
        m.data_text is Some,
    ensures
        m.event matches Some(e) ==> m.data_uuid matches Some(u) ==> m.data_text matches Some(t)
            ==> classify_spec(m) == Ok::<Option<DiscoverEventView>, DiscoverError>(
            Some(DiscoverEventView { uuid: u, event: event_kind(e), data: Some(t) }),
        ),
{
}

/// Law: a datagram whose `event` name is outside the recognized vocabulary
/// yields no event at all — and no error either.
pub proof fn lemma_unknown_event_discarded(m: PayloadFieldsView)
    requires
        !m.has_advertisement,
        m.event matches Some(e) && event_kind(e) is Unknown,
    ensures
        classify_spec(m) == Ok::<Option<DiscoverEventView>, DiscoverError>(None),
{
}

/// Law: every event the classifier emits names an instance — a non-empty
/// uuid — and carries a real lifecycle kind, never `Unknown`.
pub proof fn lemma_emitted_event_wellformed(m: PayloadFieldsView)
    ensures
        classify_spec(m) matches Ok(Some(ev)) ==> ev.uuid.len() > 0 && ev.event
            != InstanceEvent::Unknown,
{
}

/// Relies on `str::from_utf8`: it returns `Ok` exactly when the bytes are
/// valid UTF-8, and the returned text is their decoding.
#[verifier::external_body]
fn utf8_to_str(b: &[u8]) -> (r: Option<&str>)
    ensures
        r is Some <==> valid_utf8(b@),
        r matches Some(s) ==> s@ == decode_utf8(b@),
{
    from_utf8(b).ok()
}

/// One step of the discovery listener: decode one received datagram and
/// classify it.  Total over all byte sequences — a malformed datagram is
/// reported as an error, never a crash, so the listener loop can log it and
/// keep listening.  On well-formed input the result is exactly the
/// classification of the datagram's fields.
pub fn handle_datagram(bytes: &[u8]) -> (r: Result<Option<DiscoverEvent>, DiscoverError>)
    ensures
        r matches Err(e) && e == DiscoverError::Encoding <==> !valid_utf8(bytes@),
        valid_utf8(bytes@) && !json_text_ok(decode_utf8(bytes@)) ==> (r matches Err(e) && e
            == DiscoverError::Format),
        valid_utf8(bytes@) && json_text_ok(decode_utf8(bytes@)) ==> classification_view(r)
            == classify_spec(fields_of(decode_utf8(bytes@))),
        r matches Ok(Some(ev)) ==> ev@.uuid.len() > 0 && ev@.event != InstanceEvent::Unknown,
{
    let s = match utf8_to_str(bytes) {
        Some(s) => s,
        None => {
            return Err(DiscoverError::Encoding);
        },
    };
    let m = match parse_fields(s) {
        Some(m) => m,
        None => {
            return Err(DiscoverError::Format);
        },
    };
    let ghost gm = m@;
    let r = classify(m);
    proof {
        lemma_emitted_event_wellformed(gm);
    }
    r
}

} // verus!
