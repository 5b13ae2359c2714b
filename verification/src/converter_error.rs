//! The failure value of the conversion engine.

use vstd::prelude::*;

verus! {

/// A failed conversion; the message, when present, names what went wrong.
#[derive(Debug)]
pub struct ConversionError {
    message: Option<String>,
}

impl ConversionError {
    pub fn new(message: &str) -> (r: ConversionError)
        ensures
            r.spec_message() == Some(message@),
    {
        ConversionError { message: Some(message.to_owned()) }
    }

    pub fn default() -> (r: ConversionError)
        ensures
            r.spec_message() is None,
    {
        ConversionError { message: None }
    }

    pub closed spec fn spec_message(&self) -> Option<Seq<char>> {
        match self.message {
            Some(ref m) => Some(m@),
            None => None,
        }
    }

    /// A rendering of the failure for display by the embedder.
    pub fn describe(&self) -> (r: String)
        ensures
            match self.spec_message() {
                Some(m) => r@ == m,
                None => r@ == "An unknown error has occurred"@,
            },
    {
        match &self.message {
            Some(m) => m.clone(),
            None => "An unknown error has occurred".to_owned(),
        }
    }
}

} // verus!
