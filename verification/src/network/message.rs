//! Messages: what one datagram asks for, decoded once at the boundary.

use vstd::prelude::*;
use crate::network::json::{json_object, parse_object, text_member};
use crate::network::text::{lossy_text, same_text, utf8_lossy};

verus! {

/// What one datagram asks for.
///
/// A payload is a JSON object whose member `action`, a string, names the
/// request. Other members are not read.
#[derive(Debug, PartialEq, Eq)]
pub enum Message {
    /// The payload is not one JSON object.
    Malformed,
    /// The payload is a JSON object without a string member `action`.
    NoAction,
    /// `"enter"`: register the sender.
    Enter,
    /// `"join"`: put the sender on the waiting queue.
    Join,
    /// `"leave"`: reserved.
    Leave,
    /// `"move"`: reserved.
    Move,
    /// Any other action, with its name.
    Unknown(String),
}

/// A message as plain mathematics.
pub ghost enum MessageView {
    Malformed,
    NoAction,
    Enter,
    Join,
    Leave,
    Move,
    Unknown(Seq<char>),
}

impl View for Message {
    type V = MessageView;

    open spec fn view(&self) -> MessageView {
        match *self {
            Message::Malformed => MessageView::Malformed,
            Message::NoAction => MessageView::NoAction,
            Message::Enter => MessageView::Enter,
            Message::Join => MessageView::Join,
            Message::Leave => MessageView::Leave,
            Message::Move => MessageView::Move,
            Message::Unknown(name) => MessageView::Unknown(name@),
        }
    }
}

/// The name of the member that selects the request.
pub open spec fn action_key() -> Seq<char> {
    "action"@
}

/// The message that the action `name` stands for.
pub open spec fn message_named(name: Seq<char>) -> MessageView {
    if name == "enter"@ {
        MessageView::Enter
    } else if name == "join"@ {
        MessageView::Join
    } else if name == "leave"@ {
        MessageView::Leave
    } else if name == "move"@ {
        MessageView::Move
    } else {
        MessageView::Unknown(name)
    }
}

/// The message that the member `action` of an object stands for, given the
/// text of that member where the object has it as a string.
pub open spec fn message_with(action: Option<Seq<char>>) -> MessageView {
    match action {
        Some(name) => message_named(name),
        None => MessageView::NoAction,
    }
}

/// The message of a payload, given the string members of the object it
/// holds, or `None` where it is not one JSON object.
pub open spec fn message_in(object: Option<Map<Seq<char>, Seq<char>>>) -> MessageView {
    match object {
        None => MessageView::Malformed,
        Some(members) => message_with(
            if members.contains_key(action_key()) {
                Some(members[action_key()])
            } else {
                None
            },
        ),
    }
}

/// The message of the payload `bytes`: the bytes are decoded as UTF-8, ill-formed
/// parts replaced, the text is read as one JSON object, and its member
/// `action` selects the message.
pub open spec fn message_of(bytes: Seq<u8>) -> MessageView {
    message_in(json_object(utf8_lossy(bytes)))
}

impl Message {
    /// The message that the action `name` stands for.
    pub fn named(name: String) -> (message: Message)
        ensures
            message@ == message_named(name@),
    {
        if same_text(name.as_str(), "enter") {
            Message::Enter
        } else if same_text(name.as_str(), "join") {
            Message::Join
        } else if same_text(name.as_str(), "leave") {
            Message::Leave
        } else if same_text(name.as_str(), "move") {
            Message::Move
        } else {
            Message::Unknown(name)
        }
    }

    /// The message that the member `action` of an object stands for, given
    /// the text of that member where the object has it as a string.
    pub fn with_action(action: Option<String>) -> (message: Message)
        ensures
            message@ == message_with(
                match action {
                    Some(name) => Some(name@),
                    None => None,
                },
            ),
    {
        match action {
            Some(name) => Message::named(name),
            None => Message::NoAction,
        }
    }

    /// Decodes one payload.
    pub fn decode(payload: &[u8]) -> (message: Message)
        ensures
            message@ == message_of(payload@),
    {
        let text = lossy_text(payload);
        match parse_object(text.as_str()) {
            Ok(object) => Message::with_action(text_member(&object, "action")),
            Err(_) => Message::Malformed,
        }
    }
}

} // verus!
