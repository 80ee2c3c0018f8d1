//! The sources of servers: named URLs that can be switched on and off.
use vstd::prelude::*;
use crate::keys::{text_codes, text_model};
use crate::ordered_map::OrderedKey;
use crate::text::copy_text;

verus! {

/// The key of a source: the URL it is fetched from.
#[derive(Debug, Hash, Ord, PartialOrd, Eq, PartialEq)]
pub struct SourceKey(String);

impl View for SourceKey {
    type V = Seq<char>;

    closed spec fn view(&self) -> Seq<char> {
        self.0@
    }
}

impl Clone for SourceKey {
    fn clone(&self) -> (r: Self)
        ensures
            r == *self,
    {
        SourceKey(self.0.clone())
    }
}

impl SourceKey {
    pub fn new(key: &str) -> (k: SourceKey)
        ensures
            k@ == key@,
    {
        SourceKey(copy_text(key))
    }

    pub fn as_str(&self) -> (s: &str)
        ensures
            s@ == self@,
    {
        self.0.as_str()
    }
}

impl OrderedKey for SourceKey {
    open spec fn key_model(&self) -> Seq<u32> {
        text_model(self@)
    }

    fn key_code(&self) -> (r: Vec<u32>) {
        text_codes(self.0.as_str())
    }
}

pub struct ServersSource {
    display_name: String,
    url: String,
    key: SourceKey,
    enabled: bool,
}

impl ServersSource {
    pub closed spec fn spec_display_name(&self) -> Seq<char> {
        self.display_name@
    }

    pub closed spec fn spec_url(&self) -> Seq<char> {
        self.url@
    }

    pub closed spec fn spec_key(&self) -> SourceKey {
        self.key
    }

    pub closed spec fn spec_enabled(&self) -> bool {
        self.enabled
    }

    /// A source named `display_name`, fetched from `url`, keyed by its URL, enabled.
    pub fn new(display_name: &str, url: &str) -> (s: ServersSource)
        ensures
            s.spec_display_name() == display_name@,
            s.spec_url() == url@,
            s.spec_key()@ == url@,
            s.spec_enabled(),
    {
        ServersSource {
            display_name: copy_text(display_name),
            url: copy_text(url),
            key: SourceKey(copy_text(url)),
            enabled: true,
        }
    }

    pub fn set_enabled(&mut self, enabled: bool)
        ensures
            final(self).spec_enabled() == enabled,
            final(self).spec_display_name() == old(self).spec_display_name(),
            final(self).spec_url() == old(self).spec_url(),
            final(self).spec_key() == old(self).spec_key(),
    {
        self.enabled = enabled;
    }

    pub fn url(&self) -> (u: &str)
        ensures
            u@ == self.spec_url(),
    {
        self.url.as_str()
    }

    pub fn key(&self) -> (k: &SourceKey)
        ensures
            *k == self.spec_key(),
    {
        &self.key
    }

    pub fn display_name(&self) -> (n: &str)
        ensures
            n@ == self.spec_display_name(),
    {
        self.display_name.as_str()
    }

    pub fn enabled(&self) -> (e: bool)
        ensures
            e == self.spec_enabled(),
    {
        self.enabled
    }
}

} // verus!
