//! The library's general error: a message.
use vstd::prelude::*;

verus! {

#[derive(Debug)]
pub struct SionError {
    pub message: String,
}

impl SionError {
    pub fn new(message: &str) -> (r: SionError)
        ensures
            r.message@ == message@,
    {
        SionError { message: message.to_owned() }
    }
}

} // verus!
