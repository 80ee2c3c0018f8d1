//! The screens of the launcher and the panes of its main screen.
use vstd::prelude::*;
use crate::application::ip_port::IpPort;
use crate::text::{push_str, string_from_chars, text_is_empty};

verus! {

pub enum Screens {
    Main,
    Server(ServerView),
    Mods,
    AddMod(AddModView),
    Settings,
}

pub struct ServerView {
    pub ip_port: IpPort,
}

impl ServerView {
    pub fn new(ip_port: IpPort) -> (v: ServerView)
        ensures
            v.ip_port == ip_port,
    {
        ServerView { ip_port }
    }
}

#[derive(Clone, Copy, Debug, PartialEq, Eq, Structural)]
pub enum PaneId {
    Servers,
    Filters,
}

pub struct PaneView {
    pub id: PaneId,
}

impl PaneView {
    pub fn new(id: PaneId) -> (v: PaneView)
        ensures
            v.id == id,
    {
        PaneView { id }
    }
}

/// The form that adds a mod from a download URL.
pub struct AddModView {
    pub download_url: String,
    pub is_form_valid: bool,
    pub error: Option<String>,
    pub scanning: bool,
}

impl Default for AddModView {
    fn default() -> (v: AddModView)
        ensures
            v.download_url@ == Seq::<char>::empty(),
            !v.is_form_valid,
            v.error is None,
            !v.scanning,
    {
        AddModView { download_url: String::new(), is_form_valid: false, error: None, scanning: false }
    }
}

/// Why `reqwest::Url::parse` refuses a text, or `None` when it accepts it: the
/// URL grammar of the `url` crate, a function of the text alone.
pub uninterp spec fn url_parse_failure(text: Seq<char>) -> Option<Seq<char>>;

/// Parses `text` with `reqwest::Url::parse` and gives the message of the error
/// when it fails: `url_parse_failure` of the text.
#[verifier::external_body]
fn parse_url_failure(text: &str) -> (r: Option<String>)
    ensures
        r is Some <==> url_parse_failure(text@) is Some,
        r matches Some(e) ==> url_parse_failure(text@) == Some(e@),
{
    match reqwest::Url::parse(text) {
        Ok(_) => None,
        Err(error) => Some(error.to_string()),
    }
}

/// The form after its URL changed to `url`, given why the URL does not parse,
/// if it does not: an empty URL is not valid and clears the error; a URL that
/// parses is valid; another is not, and the error tells why.
pub open spec fn url_changed(
    before: AddModView,
    after: AddModView,
    url: Seq<char>,
    failure: Option<Seq<char>>,
) -> bool {
    &&& after.download_url@ == url
    &&& after.scanning == before.scanning
    &&& if url.len() == 0 {
        !after.is_form_valid && after.error is None
    } else {
        match failure {
            None => after.is_form_valid && after.error == before.error,
            Some(e) => !after.is_form_valid && (after.error matches Some(m) && m@ == "Invalid URL: "@ + e),
        }
    }
}

impl AddModView {
    /// Takes the URL typed, knowing whether and why it fails to parse.
    pub fn set_download_url(&mut self, url: String, failure: Option<String>)
        ensures
            url_changed(
                *old(self),
                *final(self),
                url@,
                match failure {
                    Some(e) => Some(e@),
                    None => None,
                },
            ),
    {
        let empty = text_is_empty(url.as_str());
        self.download_url = url;
        if !empty {
            match failure {
                None => {
                    self.is_form_valid = true;
                },
                Some(e) => {
                    let mut text: Vec<char> = Vec::new();
                    push_str(&mut text, "Invalid URL: ");
                    push_str(&mut text, e.as_str());
                    self.error = Some(string_from_chars(&text));
                    self.is_form_valid = false;
                },
            }
        } else {
            self.error = None;
            self.is_form_valid = false;
        }
    }

    /// Takes the URL typed, checking it with the URL parser.
    pub fn change_download_url(&mut self, url: String)
        ensures
            url_changed(*old(self), *final(self), url@, url_parse_failure(url@)),
    {
        let failure = if text_is_empty(url.as_str()) {
            None
        } else {
            parse_url_failure(url.as_str())
        };
        proof {
            assert(url@.len() != 0 ==> (match failure {
                Some(e) => Some(e@),
                None => None,
            }) == url_parse_failure(url@));
        }
        self.set_download_url(url, failure);
    }
}

} // verus!
