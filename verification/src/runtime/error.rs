//! Why a session ends.

use vstd::prelude::*;

use crate::text::{concat, joined, texts};

verus! {

/// Why a session ends. Its view is what it says.
#[derive(Debug, PartialEq, Eq)]
pub struct SessionError {
    pub message: String,
}

impl View for SessionError {
    type V = Seq<char>;

    open spec fn view(&self) -> Seq<char> {
        self.message@
    }
}

impl SessionError {
    pub fn new(message: &str) -> (error: SessionError)
        ensures
            error@ == message@,
    {
        SessionError { message: message.to_owned() }
    }

    /// An error whose message has several parts.
    pub fn from_parts(parts: &[&str]) -> (error: SessionError)
        ensures
            error@ == joined(texts(parts@)),
    {
        SessionError { message: concat(parts) }
    }
}

} // verus!
