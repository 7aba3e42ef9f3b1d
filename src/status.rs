//! Status lines that the client's user interface shows.

use vstd::prelude::*;
use vstd::utf8::*;

verus! {

/// A line of status or text for the user interface.
pub enum Message {
    Connected,
    Disconnected,
    User(String),
    Data(Vec<u8>),
}

impl Message {
    /// A user line; `None` for an empty one.
    pub fn new(message: &str) -> (r: Option<Self>)
        ensures
            message@.len() == 0 ==> r is None,
            message@.len() > 0 ==> (r matches Some(Message::User(s)) && s@ == message@),
    {
        if message.is_empty() {
            None
        } else {
            Some(Message::User(message.to_owned()))
        }
    }

    /// The line shown once a connection is made.
    pub fn connected() -> (r: Self)
        ensures
            r is Connected,
    {
        Message::Connected
    }

    /// The line shown while the connection is lost.
    pub fn disconnected() -> (r: Self)
        ensures
            r is Disconnected,
    {
        Message::Disconnected
    }

    /// Whether the line can be shown as text: `Data` must be valid UTF-8.
    pub open spec fn is_text(&self) -> bool {
        match self {
            Message::Data(data) => valid_utf8(data@),
            _ => true,
        }
    }

    /// The text of the line.
    pub fn as_str(&self) -> (r: &str)
        requires
            self.is_text(),
        ensures
            match self {
                Message::Connected => r@ == "Connected successfully!"@,
                Message::Disconnected => r@ == "Connection lost... Retrying..."@,
                Message::User(s) => r@ == s@,
                Message::Data(data) => r@ == decode_utf8(data@),
            },
    {
        match self {
            Message::Connected => "Connected successfully!",
            Message::Disconnected => "Connection lost... Retrying...",
            Message::User(message) => message.as_str(),
            Message::Data(data) => match crate::wire::utf8_str(data.as_slice()) {
                Some(s) => s,
                None => "",
            },
        }
    }
}

} // verus!
