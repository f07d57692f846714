//! Event basics: the event types of the Kiro event stream and the dispatch of
//! a decoded frame to an event.
use vstd::prelude::*;
use vstd::string::StringSliceAdditionalSpecFns;

use vstd::utf8::{decode_utf8, encode_utf8, is_char_boundary};

use crate::text::{
    boundary_at_most, cut_chars, cut_to_byte_len, lemma_boundary_at_most_is_last, from_utf8_lossy, push_str, same_text, trim, trim_chars,
    utf8_lossy,
};

verus! {

broadcast use vstd::string::group_string_axioms;

/// The event types the stream carries.
#[derive(Debug, Clone, Copy, PartialEq, Eq, Hash, Structural)]
pub enum EventType {
    /// Assistant text.
    AssistantResponse,
    /// A tool call.
    ToolUse,
    /// Billing.
    Metering,
    /// Context window usage.
    ContextUsage,
    /// Reasoning text.
    ReasoningContent,
    /// Any other type name.
    Unknown,
}

impl EventType {
    /// The wire name of an event type (`unknown` for `Unknown`).
    pub open spec fn spec_name(self) -> Seq<char> {
        match self {
            EventType::AssistantResponse => "assistantResponseEvent"@,
            EventType::ToolUse => "toolUseEvent"@,
            EventType::Metering => "meteringEvent"@,
            EventType::ContextUsage => "contextUsageEvent"@,
            EventType::ReasoningContent => "reasoningContentEvent"@,
            EventType::Unknown => "unknown"@,
        }
    }

    /// The event type a wire name denotes: the known type of that name,
    /// `Unknown` for any other name.
    pub open spec fn spec_from_name(s: Seq<char>) -> EventType {
        if s == "assistantResponseEvent"@ {
            EventType::AssistantResponse
        } else if s == "toolUseEvent"@ {
            EventType::ToolUse
        } else if s == "meteringEvent"@ {
            EventType::Metering
        } else if s == "contextUsageEvent"@ {
            EventType::ContextUsage
        } else if s == "reasoningContentEvent"@ {
            EventType::ReasoningContent
        } else {
            EventType::Unknown
        }
    }

    /// Parses an event type name.
    pub fn from_str(s: &str) -> (r: Self)
        ensures
            r == Self::spec_from_name(s@),
    {
        if same_text(s, "assistantResponseEvent") {
            EventType::AssistantResponse
        } else if same_text(s, "toolUseEvent") {
            EventType::ToolUse
        } else if same_text(s, "meteringEvent") {
            EventType::Metering
        } else if same_text(s, "contextUsageEvent") {
            EventType::ContextUsage
        } else if same_text(s, "reasoningContentEvent") {
            EventType::ReasoningContent
        } else {
            EventType::Unknown
        }
    }

    /// The wire name of the event type.
    pub fn as_str(&self) -> (r: &'static str)
        ensures
            r@ == self.spec_name(),
    {
        match self {
            EventType::AssistantResponse => "assistantResponseEvent",
            EventType::ToolUse => "toolUseEvent",
            EventType::Metering => "meteringEvent",
            EventType::ContextUsage => "contextUsageEvent",
            EventType::ReasoningContent => "reasoningContentEvent",
            EventType::Unknown => "unknown",
        }
    }
}

/// Largest payload excerpt kept for an unknown frame, in bytes: enough to see
/// the shape of a new event type without flooding the log.
pub const UNKNOWN_PAYLOAD_SNIPPET_MAX: usize = 512;

/// Marker appended to a cut excerpt.
pub open spec fn truncated_marker() -> Seq<char> {
    "…(truncated)"@
}

/// The excerpt of a payload: trimmed, and when longer than
/// `UNKNOWN_PAYLOAD_SNIPPET_MAX` bytes, cut at the last character boundary
/// within that many bytes and marked as cut.
pub open spec fn snippet_of(payload: Seq<char>) -> Seq<char> {
    let t = trim_chars(payload);
    if encode_utf8_len(t) <= UNKNOWN_PAYLOAD_SNIPPET_MAX {
        t
    } else {
        cut_chars(t, UNKNOWN_PAYLOAD_SNIPPET_MAX as int) + truncated_marker()
    }
}

/// Length of the UTF-8 encoding of `s`, in bytes.
pub open spec fn encode_utf8_len(s: Seq<char>) -> nat {
    vstd::utf8::encode_utf8(s).len()
}

/// Cuts a payload to a log excerpt without splitting a character.
pub fn truncate_snippet(payload: &str) -> (r: String)
    ensures
        r@ == snippet_of(payload@),
{
    let trimmed = trim(payload);
    let (head, cut) = cut_to_byte_len(trimmed.as_str(), UNKNOWN_PAYLOAD_SNIPPET_MAX);
    if !cut {
        return trimmed;
    }
    let mut out = head.to_string();
    push_str(&mut out, "…(truncated)");
    out
}

/// An event-stream frame as event dispatch reads it: its string-valued
/// headers (name, value) in the order they were set, and its payload.
pub struct Frame {
    pub headers: Vec<(String, String)>,
    pub payload: Vec<u8>,
}

/// The value of header `name`: the last one set, as in a map where a later
/// insert replaces an earlier one.
pub open spec fn header_value(headers: Seq<(String, String)>, name: Seq<char>) -> Option<Seq<char>>
    decreases headers.len(),
{
    if headers.len() == 0 {
        None
    } else if headers.last().0@ == name {
        Some(headers.last().1@)
    } else {
        header_value(headers.drop_last(), name)
    }
}

/// Names of the headers dispatch reads.
pub open spec fn message_type_header() -> Seq<char> {
    ":message-type"@
}

pub open spec fn event_type_header() -> Seq<char> {
    ":event-type"@
}

pub open spec fn error_code_header() -> Seq<char> {
    ":error-code"@
}

pub open spec fn exception_type_header() -> Seq<char> {
    ":exception-type"@
}

/// The value of an optional header, or `default` when it is absent.
pub open spec fn header_or(headers: Seq<(String, String)>, name: Seq<char>, default: Seq<char>) -> Seq<char> {
    match header_value(headers, name) {
        Some(v) => v,
        None => default,
    }
}

impl Frame {
    /// The value of header `name`, if set.
    pub fn header(&self, name: &str) -> (r: Option<&str>)
        ensures
            match r {
                Some(v) => header_value(self.headers@, name@) == Some(v@),
                None => header_value(self.headers@, name@) is None,
            },
    {
        let n = self.headers.len();
        let mut i: usize = n;
        assert(self.headers@.take(n as int) == self.headers@);
        while i > 0
            invariant
                n == self.headers@.len(),
                i <= n,
                header_value(self.headers@, name@) == header_value(
                    self.headers@.take(i as int),
                    name@,
                ),
            decreases i,
        {
            let ghost prefix = self.headers@.take(i as int);
            assert(prefix.drop_last() == self.headers@.take(i - 1));
            assert(prefix.last() == self.headers@[i - 1]);
            if same_text(self.headers[i - 1].0.as_str(), name) {
                return Some(self.headers[i - 1].1.as_str());
            }
            i = i - 1;
        }
        assert(self.headers@.take(n as int) == self.headers@);
        None
    }

    /// The `:message-type` header, if set.
    pub fn message_type(&self) -> (r: Option<&str>)
        ensures
            match r {
                Some(v) => header_value(self.headers@, message_type_header()) == Some(v@),
                None => header_value(self.headers@, message_type_header()) is None,
            },
    {
        self.header(":message-type")
    }

    /// The `:event-type` header, if set.
    pub fn event_type(&self) -> (r: Option<&str>)
        ensures
            match r {
                Some(v) => header_value(self.headers@, event_type_header()) == Some(v@),
                None => header_value(self.headers@, event_type_header()) is None,
            },
    {
        self.header(":event-type")
    }

    /// The payload as text (invalid UTF-8 replaced).
    pub fn payload_as_str(&self) -> (r: String)
        ensures
            r@ == utf8_lossy(self.payload@),
    {
        from_utf8_lossy(self.payload.as_slice())
    }
}

/// Why a frame could not be turned into an event.
#[derive(Debug, PartialEq)]
pub enum ParseError {
    /// The `:message-type` header names none of `event`, `error`, `exception`.
    InvalidMessageType(String),
    /// The payload of a known event type is not a JSON document.
    InvalidPayload,
}

/// Whether `serde_json` reads these bytes as one JSON document.
pub uninterp spec fn is_json_text(bytes: Seq<u8>) -> bool;

/// `serde_json::from_slice::<serde_json::Value>(bytes).is_ok()`: whether the
/// bytes hold one JSON document (surrounded by white space at most).
#[verifier::external_body]
fn json_document(bytes: &[u8]) -> (r: bool)
    ensures
        r == is_json_text(bytes@),
{
    serde_json::from_slice::<serde_json::Value>(bytes).is_ok()
}

/// Result of event parsing.
pub type ParseResult<T> = Result<T, ParseError>;

/// An event of the stream.
///
/// The known event kinds carry their payload as received, once it has been
/// read as a JSON document; decoding it into the kind's own structure is
/// serde's work and happens where the event is consumed.
#[derive(Debug, PartialEq)]
pub enum Event {
    /// Assistant text (payload of an `assistantResponseEvent`).
    AssistantResponse(Vec<u8>),
    /// A tool call (payload of a `toolUseEvent`).
    ToolUse(Vec<u8>),
    /// Billing (payload of a `meteringEvent`).
    Metering(Vec<u8>),
    /// Context usage (payload of a `contextUsageEvent`).
    ContextUsage(Vec<u8>),
    /// Reasoning text (payload of a `reasoningContentEvent`).
    ReasoningContent(Vec<u8>),
    /// An event of a type this parser does not know: its `:event-type` name
    /// and a payload excerpt, the only leads when the upstream introduces a
    /// new event type.
    Unknown {
        /// The raw `:event-type` header.
        event_type: String,
        /// Payload excerpt, cut for logging.
        payload_snippet: String,
    },
    /// An error sent by the server.
    Error {
        error_code: String,
        error_message: String,
    },
    /// An exception sent by the server.
    Exception {
        exception_type: String,
        message: String,
    },
}

/// What a frame with message type `event` becomes: for an unknown type, its
/// name and a payload excerpt; for a known type, the payload when it is a JSON
/// document, an invalid-payload error otherwise.
pub open spec fn event_frame_result(frame: Frame, r: ParseResult<Event>) -> bool {
    let name = header_or(frame.headers@, event_type_header(), "unknown"@);
    let kind = EventType::spec_from_name(name);
    if kind == EventType::Unknown {
        r matches Ok(Event::Unknown { event_type, payload_snippet }) && event_type@ == name
            && payload_snippet@ == snippet_of(utf8_lossy(frame.payload@))
    } else if !is_json_text(frame.payload@) {
        r matches Err(ParseError::InvalidPayload)
    } else {
        match kind {
            EventType::AssistantResponse => r matches Ok(Event::AssistantResponse(p)) && p@
                == frame.payload@,
            EventType::ToolUse => r matches Ok(Event::ToolUse(p)) && p@ == frame.payload@,
            EventType::Metering => r matches Ok(Event::Metering(p)) && p@ == frame.payload@,
            EventType::ContextUsage => r matches Ok(Event::ContextUsage(p)) && p@
                == frame.payload@,
            _ => r matches Ok(Event::ReasoningContent(p)) && p@ == frame.payload@,
        }
    }
}

/// What parsing a frame gives: by its message type (`event` when absent), an
/// event of the frame's event type, a server error, a server exception, or an
/// invalid-message-type error naming the type.
pub open spec fn frame_result(frame: Frame, r: ParseResult<Event>) -> bool {
    let mt = header_or(frame.headers@, message_type_header(), "event"@);
    if mt == "event"@ {
        event_frame_result(frame, r)
    } else if mt == "error"@ {
        r matches Ok(Event::Error { error_code, error_message }) && error_code@ == header_or(
            frame.headers@,
            error_code_header(),
            "UnknownError"@,
        ) && error_message@ == utf8_lossy(frame.payload@)
    } else if mt == "exception"@ {
        r matches Ok(Event::Exception { exception_type, message }) && exception_type@ == header_or(
            frame.headers@,
            exception_type_header(),
            "UnknownException"@,
        ) && message@ == utf8_lossy(frame.payload@)
    } else {
        r matches Err(ParseError::InvalidMessageType(t)) && t@ == mt
    }
}

/// A copy of a byte vector.
fn copy_bytes(v: &Vec<u8>) -> (r: Vec<u8>)
    ensures
        r@ == v@,
{
    let mut r: Vec<u8> = Vec::new();
    let n = v.len();
    let mut i: usize = 0;
    while i < n
        invariant
            n == v@.len(),
            i <= n,
            r@ == v@.take(i as int),
        decreases n - i,
    {
        r.push(v[i]);
        assert(v@.take(i + 1) == v@.take(i as int).push(v@[i as int]));
        i = i + 1;
    }
    assert(v@.take(n as int) == v@);
    r
}

/// A header's value as a `String`, or `default` when it is absent.
fn header_string(frame: &Frame, name: &str, default: &str) -> (r: String)
    ensures
        r@ == header_or(frame.headers@, name@, default@),
{
    match frame.header(name) {
        Some(v) => v.to_string(),
        None => default.to_string(),
    }
}

impl Event {
    /// Turns a frame into an event by its message type and event type.
    pub fn from_frame(frame: Frame) -> (r: ParseResult<Self>)
        ensures
            frame_result(frame, r),
    {
        proof {
            reveal_strlit(":message-type");
            reveal_strlit(":event-type");
        }
        let message_type = header_string(&frame, ":message-type", "event");
        if same_text(message_type.as_str(), "event") {
            Self::parse_event(frame)
        } else if same_text(message_type.as_str(), "error") {
            Ok(Self::parse_error(frame))
        } else if same_text(message_type.as_str(), "exception") {
            Ok(Self::parse_exception(frame))
        } else {
            Err(ParseError::InvalidMessageType(message_type))
        }
    }

    fn parse_event(frame: Frame) -> (r: ParseResult<Self>)
        ensures
            event_frame_result(frame, r),
    {
        let name = header_string(&frame, ":event-type", "unknown");
        let kind = EventType::from_str(name.as_str());
        if kind != EventType::Unknown && !json_document(frame.payload.as_slice()) {
            return Err(ParseError::InvalidPayload);
        }
        match kind {
            EventType::AssistantResponse => Ok(Self::AssistantResponse(copy_bytes(&frame.payload))),
            EventType::ToolUse => Ok(Self::ToolUse(copy_bytes(&frame.payload))),
            EventType::Metering => Ok(Self::Metering(copy_bytes(&frame.payload))),
            EventType::ContextUsage => Ok(Self::ContextUsage(copy_bytes(&frame.payload))),
            EventType::ReasoningContent => Ok(Self::ReasoningContent(copy_bytes(&frame.payload))),
            EventType::Unknown => {
                let text = frame.payload_as_str();
                Ok(
                    Self::Unknown {
                        event_type: name,
                        payload_snippet: truncate_snippet(text.as_str()),
                    },
                )
            },
        }
    }

    fn parse_error(frame: Frame) -> (r: Self)
        ensures
            r matches Event::Error { error_code, error_message } && error_code@ == header_or(
                frame.headers@,
                error_code_header(),
                "UnknownError"@,
            ) && error_message@ == utf8_lossy(frame.payload@),
    {
        let error_code = header_string(&frame, ":error-code", "UnknownError");
        let error_message = frame.payload_as_str();
        Event::Error { error_code, error_message }
    }

    fn parse_exception(frame: Frame) -> (r: Self)
        ensures
            r matches Event::Exception { exception_type, message } && exception_type@ == header_or(
                frame.headers@,
                exception_type_header(),
                "UnknownException"@,
            ) && message@ == utf8_lossy(frame.payload@),
    {
        let exception_type = header_string(&frame, ":exception-type", "UnknownException");
        let message = frame.payload_as_str();
        Event::Exception { exception_type, message }
    }
}

/// Every event type survives the trip through its wire name: parsing the name
/// of a type gives the type back.
pub proof fn lemma_event_type_name_roundtrip(t: EventType)
    ensures
        EventType::spec_from_name(t.spec_name()) == t,
{
    reveal_strlit("assistantResponseEvent");
    reveal_strlit("toolUseEvent");
    reveal_strlit("meteringEvent");
    reveal_strlit("contextUsageEvent");
    reveal_strlit("reasoningContentEvent");
    reveal_strlit("unknown");
    assert("assistantResponseEvent"@.len() == 22);
    assert("toolUseEvent"@.len() == 12);
    assert("meteringEvent"@.len() == 13);
    assert("contextUsageEvent"@.len() == 17);
    assert("reasoningContentEvent"@.len() == 21);
    assert("unknown"@.len() == 7);
}

/// A name that parses to a known type is exactly that type's wire name.
pub proof fn lemma_known_event_type_name(s: Seq<char>)
    ensures
        EventType::spec_from_name(s) != EventType::Unknown ==> EventType::spec_from_name(
            s,
        ).spec_name() == s,
{
}

/// A frame of message type `event` becomes the event its `:event-type` header
/// names: each of the five known names gives the event of that type carrying
/// the payload when the payload is a JSON document and an invalid-payload
/// error when it is not; any other name, or none, gives an unknown event that
/// keeps the name (`unknown` when absent).
pub proof fn lemma_event_frame_follows_event_type(frame: Frame, r: ParseResult<Event>)
    requires
        frame_result(frame, r),
        header_or(frame.headers@, ":message-type"@, "event"@) == "event"@,
    ensures
        ({
            let name = header_or(frame.headers@, ":event-type"@, "unknown"@);
            let p = frame.payload@;
            let known = name == "assistantResponseEvent"@ || name == "toolUseEvent"@ || name
                == "meteringEvent"@ || name == "contextUsageEvent"@ || name
                == "reasoningContentEvent"@;
            &&& (name == "assistantResponseEvent"@ && is_json_text(p)) ==> (r matches Ok(
                Event::AssistantResponse(q),
            ) && q@ == p)
            &&& (name == "toolUseEvent"@ && is_json_text(p)) ==> (r matches Ok(Event::ToolUse(q))
                && q@ == p)
            &&& (name == "meteringEvent"@ && is_json_text(p)) ==> (r matches Ok(Event::Metering(q))
                && q@ == p)
            &&& (name == "contextUsageEvent"@ && is_json_text(p)) ==> (r matches Ok(
                Event::ContextUsage(q),
            ) && q@ == p)
            &&& (name == "reasoningContentEvent"@ && is_json_text(p)) ==> (r matches Ok(
                Event::ReasoningContent(q),
            ) && q@ == p)
            &&& (known && !is_json_text(p)) ==> (r matches Err(ParseError::InvalidPayload))
            &&& !known ==> (r matches Ok(Event::Unknown { event_type, payload_snippet })
                && event_type@ == name)
        }),
{
    reveal_strlit("assistantResponseEvent");
    reveal_strlit("toolUseEvent");
    reveal_strlit("meteringEvent");
    reveal_strlit("contextUsageEvent");
    reveal_strlit("reasoningContentEvent");
    assert("assistantResponseEvent"@.len() == 22);
    assert("toolUseEvent"@.len() == 12);
    assert("meteringEvent"@.len() == 13);
    assert("contextUsageEvent"@.len() == 17);
    assert("reasoningContentEvent"@.len() == 21);
}

/// A frame whose message type is `error` becomes a server error carrying the
/// `:error-code` header (`UnknownError` when absent) and the payload as text;
/// one of type `exception` a server exception carrying the `:exception-type`
/// header (`UnknownException` when absent) and the payload as text; any type
/// but `event`, `error` and `exception` is refused with its name.
pub proof fn lemma_frame_dispatch_by_message_type(frame: Frame, r: ParseResult<Event>)
    requires
        frame_result(frame, r),
    ensures
        ({
            let mt = header_or(frame.headers@, ":message-type"@, "event"@);
            &&& mt == "error"@ ==> (r matches Ok(Event::Error { error_code, error_message })
                && error_code@ == header_or(frame.headers@, ":error-code"@, "UnknownError"@)
                && error_message@ == utf8_lossy(frame.payload@))
            &&& mt == "exception"@ ==> (r matches Ok(Event::Exception { exception_type, message })
                && exception_type@ == header_or(
                frame.headers@,
                ":exception-type"@,
                "UnknownException"@,
            ) && message@ == utf8_lossy(frame.payload@))
            &&& (mt != "event"@ && mt != "error"@ && mt != "exception"@) ==> (r matches Err(
                ParseError::InvalidMessageType(t),
            ) && t@ == mt)
        }),
{
    reveal_strlit("event");
    reveal_strlit("error");
    reveal_strlit("exception");
    assert("event"@.len() == 5);
    assert("error"@.len() == 5);
    assert("exception"@.len() == 9);
    assert("event"@[1] != "error"@[1]);
}

/// A header lookup finds the value set last under that name: setting a header
/// makes it the value of its name and leaves every other name as it was, and
/// no header is set in an empty list.
pub proof fn lemma_header_last_set_wins(
    headers: Seq<(String, String)>,
    name: String,
    value: String,
    other: Seq<char>,
)
    ensures
        header_value(Seq::empty(), other) is None,
        header_value(headers.push((name, value)), name@) == Some(value@),
        other != name@ ==> header_value(headers.push((name, value)), other) == header_value(
            headers,
            other,
        ),
{
    assert(headers.push((name, value)).drop_last() == headers);
}

/// The excerpt of a payload: the trimmed payload itself when it fits in 512
/// bytes of UTF-8; otherwise a prefix of it, cut at a character boundary at
/// most 512 bytes in with no boundary between the cut and byte 512, followed
/// by `…(truncated)`.
pub proof fn lemma_snippet_shape(payload: Seq<char>)
    ensures
        ({
            let t = trim_chars(payload);
            let bytes = encode_utf8(t);
            &&& bytes.len() <= 512 ==> snippet_of(payload) == t
            &&& bytes.len() > 512 ==> exists|k: int|
                0 <= k <= t.len() && snippet_of(payload) == t.take(k) + "…(truncated)"@
                    && #[trigger] encode_utf8(t.take(k)).len() <= 512 && is_char_boundary(
                    bytes,
                    encode_utf8(t.take(k)).len() as int,
                ) && encode_utf8(t.take(k)) == bytes.subrange(
                    0,
                    encode_utf8(t.take(k)).len() as int,
                ) && forall|j: int|
                    encode_utf8(t.take(k)).len() < j <= 512 ==> !is_char_boundary(bytes, j)
        }),
{
    broadcast use vstd::utf8::group_utf8_lib;

    let t = trim_chars(payload);
    let bytes = encode_utf8(t);
    if bytes.len() > 512 {
        let b = boundary_at_most(bytes, 512);
        lemma_boundary_at_most_is_last(bytes, 512);
        let head = bytes.subrange(0, b);
        let rest = bytes.subrange(b, bytes.len() as int);
        vstd::utf8::decode_utf8_split(bytes, b);
        vstd::utf8::valid_utf8_split(bytes, b);
        let cut = decode_utf8(head);
        assert(t == decode_utf8(bytes));
        assert(t == cut + decode_utf8(rest));
        let k = cut.len() as int;
        assert(t.take(k) =~= cut);
        assert(encode_utf8(cut) == head);
        assert(cut_chars(t, 512) == cut);
        assert(snippet_of(payload) == t.take(k) + "…(truncated)"@);
    }
}

} // verus!
