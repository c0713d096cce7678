//! What can go wrong when a camera is created.

use vstd::prelude::*;

verus! {

/// Construction failure.
///
/// Only the failure modes that occur while a camera is created are carried here; runtime
/// stream errors are reported as a disconnected [`State`](crate::camera::State).
#[derive(Clone, Debug, PartialEq, Eq)]
pub enum Error {
    /// The config is invalid (no modes, empty mode, zero fps, ...).
    InvalidConfig(String),
    /// Failed to connect to PipeWire (main loop, context, or stream creation).
    Connect(String),
}

impl Error {
    /// The text shown to an operator.
    pub open spec fn text(self) -> Seq<char> {
        match self {
            Error::InvalidConfig(message) => "invalid config: "@ + message@,
            Error::Connect(message) => "connect failed: "@ + message@,
        }
    }

    /// The text shown to an operator.
    pub fn to_string(&self) -> (r: String)
        ensures
            r@ == self.text(),
    {
        match self {
            Error::InvalidConfig(message) => {
                let mut r = "invalid config: ".to_owned();
                r.append(message.as_str());
                r
            },
            Error::Connect(message) => {
                let mut r = "connect failed: ".to_owned();
                r.append(message.as_str());
                r
            },
        }
    }
}

/// The text names the kind of failure, and then gives the message as it is.
pub proof fn law_text_ends_in_the_message(error: Error)
    ensures
        match error {
            Error::InvalidConfig(message) => {
                let head = "invalid config: "@;
                &&& error.text().len() == head.len() + message@.len()
                &&& error.text().take(head.len() as int) == head
                &&& error.text().skip(head.len() as int) == message@
            },
            Error::Connect(message) => {
                let head = "connect failed: "@;
                &&& error.text().len() == head.len() + message@.len()
                &&& error.text().take(head.len() as int) == head
                &&& error.text().skip(head.len() as int) == message@
            },
        },
{
    match error {
        Error::InvalidConfig(message) => {
            let head = "invalid config: "@;
            assert((head + message@).take(head.len() as int) == head);
            assert((head + message@).skip(head.len() as int) == message@);
        },
        Error::Connect(message) => {
            let head = "connect failed: "@;
            assert((head + message@).take(head.len() as int) == head);
            assert((head + message@).skip(head.len() as int) == message@);
        },
    }
}

} // verus!
