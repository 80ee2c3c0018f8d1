//! What a source of servers reports when it fails.
use vstd::prelude::*;
use crate::text::{push_str, string_from_chars};

verus! {

/// A source failed to give its servers.
#[derive(Debug, Clone)]
pub struct GetServersInfosError {
    pub source_name: String,
    pub message: String,
}

impl GetServersInfosError {
    /// The error's text, as `Display` writes it.
    pub fn to_string(&self) -> (s: String)
        ensures
            s@ == "Failed to get servers information from source '"@ + self.source_name@ + "': "@
                + self.message@,
    {
        let mut out: Vec<char> = Vec::new();
        push_str(&mut out, "Failed to get servers information from source '");
        push_str(&mut out, self.source_name.as_str());
        push_str(&mut out, "': ");
        push_str(&mut out, self.message.as_str());
        string_from_chars(&out)
    }
}

} // verus!
