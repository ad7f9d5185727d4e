use vstd::prelude::*;

verus! {

// Command-level failures.  They are recoverable: the session turns each into
// an ordinary error document and keeps the connection open.

#[derive(Debug, PartialEq)]
pub enum Error {
    /// The request names a command outside the table.
    UnknownCommand(String),
    /// The command needs the other request shape.
    InvalidOpCode,
    /// The request's primary document lacks or mistypes a needed field.
    InvalidOpMsg(String),
}

pub open spec fn sp_error_message(e: Error) -> Seq<char> {
    match e {
        Error::UnknownCommand(name) => "unknown command: "@ + name@,
        Error::InvalidOpCode => "invalid op code"@,
        Error::InvalidOpMsg(m) => m@,
    }
}

impl Error {
    /// The human-readable message carried into an error reply document.
    pub fn message(&self) -> (r: String)
        ensures
            r@ == sp_error_message(*self),
    {
        match self {
            Error::UnknownCommand(name) => {
                let prefix: String = "unknown command: ".to_owned();
                prefix.concat(name.as_str())
            },
            Error::InvalidOpCode => "invalid op code".to_owned(),
            Error::InvalidOpMsg(m) => m.clone(),
        }
    }
}

} // verus!
