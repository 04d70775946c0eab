//! What can go wrong between the socket and the store, and the text with
//! which each failure is reported.

use vstd::prelude::*;
use vstd::std_specs::convert::FromSpecImpl;
use vstd::string::StringExecFns;
use crate::protocol::cmd::Verb;

verus! {

/// The peer closed the connection: a read returned no bytes.
#[derive(Debug, Clone, Copy, PartialEq, Eq, Structural)]
pub struct EOFError;

impl EOFError {
    pub open spec fn spec_message(self) -> Seq<char> {
        "End of file has reached!"@
    }

    /// The text of the failure.
    pub fn message(&self) -> (r: String)
        ensures
            r@ == self.spec_message(),
    {
        "End of file has reached!".to_owned()
    }
}

/// A failure of decoding, of turning values into commands, or of a command.
#[derive(Debug, Clone, Copy, PartialEq, Eq, Structural)]
pub enum Error {
    /// The buffer to decode is empty.
    NoData,
    /// The first byte of a frame is no type prefix of the protocol.
    CrossProtocol,
    /// The buffer ends before the frame does.
    Incomplete,
    /// The bytes of a string are not valid UTF-8.
    InvalidUtf8,
    /// A length, a count or an integer is not a decimal number in range.
    InvalidNumber,
    /// The peer closed the connection.
    EndOfFile,
    /// A decoded value that should be a command is not an array.
    NotAnArray,
    /// A command array without elements.
    EmptyCommand,
    /// A command got a number of arguments that it does not accept.
    WrongArity(Verb),
    /// An option of a command is unknown or lacks its value.
    Syntax,
    /// An argument or a stored value that must be a 64-bit integer is not.
    NotAnInteger,
    /// The stored object is not of the type that the command works on.
    WrongType,
    /// The stored value has not the shape that `INCR` works on.
    WrongData,
}

impl Error {
    /// The text of the failure, as it is sent in an error reply.
    pub open spec fn spec_message(self) -> Seq<char> {
        match self {
            Error::NoData => "No data"@,
            Error::CrossProtocol => "possible cross protocol scripting attack detected"@,
            Error::Incomplete => "incomplete frame"@,
            Error::InvalidUtf8 => "invalid utf-8 sequence"@,
            Error::InvalidNumber => "invalid number"@,
            Error::EndOfFile => EOFError.spec_message(),
            Error::NotAnArray => "Value is not a Vec type"@,
            Error::EmptyCommand => "empty command"@,
            Error::WrongArity(verb) => "ERR wrong number of arguments for '"@ + verb.spec_label()
                + "' commands"@,
            Error::Syntax => "ERR syntax error"@,
            Error::NotAnInteger => "ERR value is not an integer or out of range"@,
            Error::WrongType => "the operation is not permitted on this type"@,
            Error::WrongData => "wrong data type for 'incr' command"@,
        }
    }

    /// The text of the failure, as it is sent in an error reply.
    pub fn message(&self) -> (r: String)
        ensures
            r@ == self.spec_message(),
    {
        match self {
            Error::NoData => "No data".to_owned(),
            Error::CrossProtocol => "possible cross protocol scripting attack detected".to_owned(),
            Error::Incomplete => "incomplete frame".to_owned(),
            Error::InvalidUtf8 => "invalid utf-8 sequence".to_owned(),
            Error::InvalidNumber => "invalid number".to_owned(),
            Error::EndOfFile => EOFError.message(),
            Error::NotAnArray => "Value is not a Vec type".to_owned(),
            Error::EmptyCommand => "empty command".to_owned(),
            Error::WrongArity(verb) => {
                let mut text = "ERR wrong number of arguments for '".to_owned();
                let label = verb.label();
                text.append(label.as_str());
                text.append("' commands");
                text
            },
            Error::Syntax => "ERR syntax error".to_owned(),
            Error::NotAnInteger => "ERR value is not an integer or out of range".to_owned(),
            Error::WrongType => "the operation is not permitted on this type".to_owned(),
            Error::WrongData => "wrong data type for 'incr' command".to_owned(),
        }
    }
}

impl From<EOFError> for Error {
    fn from(e: EOFError) -> (r: Error) {
        Error::EndOfFile
    }
}

impl FromSpecImpl<EOFError> for Error {
    open spec fn obeys_from_spec() -> bool {
        true
    }

    open spec fn from_spec(e: EOFError) -> Error {
        Error::EndOfFile
    }
}

} // verus!
