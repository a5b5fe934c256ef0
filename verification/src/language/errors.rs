//! The single error type of the language and the engine.
use vstd::prelude::*;
use vstd::string::StringExecFns;

verus! {

/// An error: a message and nothing else. Errors are values; they are stored
/// in cells and never unwind.
#[derive(Debug)]
pub struct Error {
    pub message: String,
}

impl View for Error {
    type V = Seq<char>;

    open spec fn view(&self) -> Seq<char> {
        self.message@
    }
}

/// The message of the error that a cell gets when it reads the errored cell
/// `cell_name`.
pub open spec fn propagated_message(cell_name: Seq<char>) -> Seq<char> {
    "Error in read cell "@ + cell_name
}

/// The message of a parse error with the given detail.
pub open spec fn parse_message(detail: Seq<char>) -> Seq<char> {
    "Parse Error: "@ + detail
}

impl Error {
    /// An error with the given message.
    pub fn with_message(message: &str) -> (e: Error)
        ensures
            e@ == message@,
    {
        Error { message: message.to_owned() }
    }

    /// The error of a cell that read the errored cell `cell_name`.
    pub fn propogated_error(cell_name: &str) -> (e: Error)
        ensures
            e@ == propagated_message(cell_name@),
    {
        Error { message: "Error in read cell ".to_owned().concat(cell_name) }
    }

    /// A parse error with the given detail.
    pub fn parse_error(message: &str) -> (e: Error)
        ensures
            e@ == parse_message(message@),
    {
        Error { message: "Parse Error: ".to_owned().concat(message) }
    }
}

impl Clone for Error {
    fn clone(&self) -> (e: Error)
        ensures
            e@ == self@,
    {
        Error { message: self.message.clone() }
    }
}

} // verus!
