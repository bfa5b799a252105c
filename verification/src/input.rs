//! Receiving and parsing input: command-line arguments, mesh face data, and
//! the error type that every loader reports.

use vstd::prelude::*;
use vstd::string::StringExecFns;

pub mod arguments;
pub mod objparser;

pub use arguments::Config;



verus! {

/// The mathematical value of an `InputError`: its two lines of text.
pub struct InputErrorView {
    pub title: Seq<char>,
    pub msg: Seq<char>,
}

/// An error from any kind of input handling
/// (command-line arguments, scene documents, and mesh or texture files).
#[derive(Debug)]
pub struct InputError {
    title: String,
    msg: String,
}

impl View for InputError {
    type V = InputErrorView;

    closed spec fn view(&self) -> InputErrorView {
        InputErrorView { title: self.title@, msg: self.msg@ }
    }
}

impl InputError {
    pub fn new(title: String, msg: String) -> (r: InputError)
        ensures
            r@.title == title@,
            r@.msg == msg@,
    {
        InputError { title, msg }
    }

    /// The first line of the diagnostic.
    pub fn title(&self) -> (r: &str)
        ensures
            r@ == self@.title,
    {
        self.title.as_str()
    }

    /// The detail line of the diagnostic.
    pub fn message(&self) -> (r: &str)
        ensures
            r@ == self@.msg,
    {
        self.msg.as_str()
    }

    /// The full diagnostic text: the title, a colon, and the indented
    /// message wrapped in the terminal's red color codes.
    pub fn display_string(&self) -> (r: String)
        ensures
            r@ == self@.title + ":\n    \x1b[31m"@ + self@.msg + "\x1b[0m"@,
    {
        let mut s = self.title.clone();
        s.append(":\n    \x1b[31m");
        s.append(self.msg.as_str());
        s.append("\x1b[0m");
        s
    }
}

} // verus!
