//! Requiring, rejecting or ignoring a property of servers.
use vstd::prelude::*;
use crate::application::server::Server;
use crate::text::{push_str, string_from_chars};

verus! {

#[derive(Debug, Clone, Copy, Ord, PartialOrd, PartialEq, Eq, Structural)]
pub enum PropertyFilterSwitch {
    With,
    Without,
    Ignore,
}

/// Whether a switch lets a server with the property's value `present` through.
pub open spec fn switch_accepts(switch: PropertyFilterSwitch, present: bool) -> bool {
    match switch {
        PropertyFilterSwitch::With => present,
        PropertyFilterSwitch::Without => !present,
        PropertyFilterSwitch::Ignore => true,
    }
}

impl PropertyFilterSwitch {
    /// Applies the switch to the property that `f` reads off the server.
    pub fn accept<F: Fn(&Server) -> bool>(&self, f: F, server: &Server) -> (r: bool)
        requires
            f.requires((server,)),
        ensures
            *self is Ignore ==> r,
            *self is With ==> f.ensures((server,), r),
            *self is Without ==> f.ensures((server,), !r),
    {
        match self {
            PropertyFilterSwitch::With => (f)(server),
            PropertyFilterSwitch::Without => !(f)(server),
            PropertyFilterSwitch::Ignore => true,
        }
    }

    /// The label shown for the switch, as `Display` writes it.
    pub fn to_string(&self) -> (s: String)
        ensures
            s@ == match *self {
                PropertyFilterSwitch::With => "Require"@,
                PropertyFilterSwitch::Without => "Reject"@,
                PropertyFilterSwitch::Ignore => "Ignore"@,
            },
    {
        let mut out: Vec<char> = Vec::new();
        match self {
            PropertyFilterSwitch::With => push_str(&mut out, "Require"),
            PropertyFilterSwitch::Without => push_str(&mut out, "Reject"),
            PropertyFilterSwitch::Ignore => push_str(&mut out, "Ignore"),
        }
        assert(out@ =~= Seq::<char>::empty() + out@);
        string_from_chars(&out)
    }
}

} // verus!
