//! Classification of inbound frames: the wire protocol's decision of what a
//! frame asks the relay to do. A text frame is JSON; a registration message
//! (`{"type": "register", "connectionId": id}`) rebinds the sender's
//! identity, a message with a `target_id` field addresses a peer, and
//! everything else is dropped silently. JSON parsing itself is done by
//! serde_json behind trusted wrappers; the protocol rules over the parsed
//! fields are verified here.

use vstd::prelude::*;
use crate::frame::Frame;
use crate::frame::FrameView;

verus! {

#[verifier::external_type_specification]
#[verifier::external_body]
pub struct ExValue(serde_json::Value);

/// Whether `s` parses as a JSON document.
pub uninterp spec fn json_ok(s: Seq<char>) -> bool;

/// The top-level string-valued fields of the JSON document held in `s`:
/// empty unless `s` parses as a JSON object, and holding a key exactly when
/// that key's value is a JSON string.
pub uninterp spec fn json_str_fields(s: Seq<char>) -> Map<Seq<char>, Seq<char>>;

/// The top-level string-valued fields of an already parsed JSON value.
pub uninterp spec fn str_fields(v: serde_json::Value) -> Map<Seq<char>, Seq<char>>;

/// Relies on serde_json::from_str: Some exactly on well-formed JSON, and the
/// parsed value's string fields are those of the input text.
#[verifier::external_body]
fn parse_json(s: &str) -> (r: Option<serde_json::Value>)
    ensures
        r is Some <==> json_ok(s@),
        r matches Some(v) ==> str_fields(v) == json_str_fields(s@),
{
    serde_json::from_str::<serde_json::Value>(s).ok()
}

/// Relies on serde_json::Value::get and serde_json::Value::as_str: Some
/// exactly when the value is an object whose field `key` is a JSON string,
/// and then returns that string.
#[verifier::external_body]
fn get_str_field(v: &serde_json::Value, key: &str) -> (r: Option<String>)
    ensures
        match r {
            Some(val) => str_fields(*v).contains_key(key@) && val@ == str_fields(*v)[key@],
            None => !str_fields(*v).contains_key(key@),
        },
{
    match v.get(key) {
        Some(field) => match field.as_str() {
            Some(t) => Some(t.to_string()),
            None => None,
        },
        None => None,
    }
}

/// What a text frame asks of the relay.
#[derive(Debug, PartialEq, Eq)]
pub enum TextClass {
    /// A registration message: rebind the sender's identity to this value.
    Register(String),
    /// An addressed payload: bind and forward to this target identity.
    Addressed(String),
    /// Anything else: dropped silently.
    Plain,
}

/// The mathematical value of a classification.
pub enum TextClassView {
    Register(Seq<char>),
    Addressed(Seq<char>),
    Plain,
}

impl View for TextClass {
    type V = TextClassView;

    open spec fn view(&self) -> TextClassView {
        match self {
            TextClass::Register(id) => TextClassView::Register(id@),
            TextClass::Addressed(t) => TextClassView::Addressed(t@),
            TextClass::Plain => TextClassView::Plain,
        }
    }
}

/// The protocol's reading of a set of string fields: a `type` field equal to
/// `register` makes the message a registration (complete only if a
/// `connectionId` string is present); otherwise a `target_id` string makes
/// it an addressed payload; otherwise it asks nothing.
pub open spec fn classify_fields(fields: Map<Seq<char>, Seq<char>>) -> TextClassView {
    if fields.contains_key("type"@) && fields["type"@] == "register"@ {
        if fields.contains_key("connectionId"@) {
            TextClassView::Register(fields["connectionId"@])
        } else {
            TextClassView::Plain
        }
    } else if fields.contains_key("target_id"@) {
        TextClassView::Addressed(fields["target_id"@])
    } else {
        TextClassView::Plain
    }
}

/// What the text `s` asks of the relay: nothing unless it is JSON, else the
/// protocol's reading of its string fields.
pub open spec fn spec_classify(s: Seq<char>) -> TextClassView {
    if json_ok(s) {
        classify_fields(json_str_fields(s))
    } else {
        TextClassView::Plain
    }
}

/// Classify one text frame.
pub fn classify_text(text: &str) -> (c: TextClass)
    ensures
        c@ == spec_classify(text@),
{
    match parse_json(text) {
        None => TextClass::Plain,
        Some(v) => {
            let register_label: String = "register".to_owned();
            let is_register = match get_str_field(&v, "type") {
                Some(t) => t == register_label,
                None => false,
            };
            if is_register {
                match get_str_field(&v, "connectionId") {
                    Some(id) => TextClass::Register(id),
                    None => TextClass::Plain,
                }
            } else {
                match get_str_field(&v, "target_id") {
                    Some(t) => TextClass::Addressed(t),
                    None => TextClass::Plain,
                }
            }
        },
    }
}

/// What any one frame asks of the relay.
#[derive(Debug, PartialEq, Eq)]
pub enum Cmd {
    /// Rebind the sender's identity and register it.
    Register(String),
    /// Bind the sender's target and forward the raw text to it.
    Addressed(String, String),
    /// Forward this payload to the sender's currently bound target.
    BinaryIn(Vec<u8>),
    /// End the session.
    CloseIn,
    /// Ignored frame kinds, malformed text among them.
    Ignore,
}

/// The mathematical value of a command.
pub enum CmdView {
    Register(Seq<char>),
    Addressed(Seq<char>, Seq<char>),
    BinaryIn(Seq<u8>),
    CloseIn,
    Ignore,
}

impl View for Cmd {
    type V = CmdView;

    open spec fn view(&self) -> CmdView {
        match self {
            Cmd::Register(id) => CmdView::Register(id@),
            Cmd::Addressed(t, text) => CmdView::Addressed(t@, text@),
            Cmd::BinaryIn(d) => CmdView::BinaryIn(d@),
            Cmd::CloseIn => CmdView::CloseIn,
            Cmd::Ignore => CmdView::Ignore,
        }
    }
}

/// What the frame `f` asks of the relay: text frames by their JSON
/// classification, binary frames forwarded to the bound target, Close ends
/// the session, Ping and Pong are ignored.
pub open spec fn spec_classify_frame(f: FrameView) -> CmdView {
    match f {
        FrameView::Text(s) => match spec_classify(s) {
            TextClassView::Register(id) => CmdView::Register(id),
            TextClassView::Addressed(t) => CmdView::Addressed(t, s),
            TextClassView::Plain => CmdView::Ignore,
        },
        FrameView::Binary(d) => CmdView::BinaryIn(d),
        FrameView::Close => CmdView::CloseIn,
        FrameView::Ping(_) => CmdView::Ignore,
        FrameView::Pong(_) => CmdView::Ignore,
    }
}

/// Classify one frame.
pub fn classify_frame(f: Frame) -> (c: Cmd)
    ensures
        c@ == spec_classify_frame(f@),
{
    match f {
        Frame::Text(s) => match classify_text(s.as_str()) {
            TextClass::Register(id) => Cmd::Register(id),
            TextClass::Addressed(t) => Cmd::Addressed(t, s),
            TextClass::Plain => Cmd::Ignore,
        },
        Frame::Binary(d) => Cmd::BinaryIn(d),
        Frame::Close => Cmd::CloseIn,
        Frame::Ping(_) => Cmd::Ignore,
        Frame::Pong(_) => Cmd::Ignore,
    }
}

} // verus!
