//! Device identity: the records the registry keeps, and the best-effort
//! user-agent classification shown next to a device.

use vstd::prelude::*;
use crate::strutil::{chars_of, is_substring, str_contains_sub, str_eq};

verus! {

/// Kind of user agent, guessed from the `User-Agent` header by substring
/// matches. Cosmetic metadata only; never a trust input.
#[derive(Clone, Copy, PartialEq, Eq, Structural, Debug)]
pub enum Agent {
    Android,
    IPhone,
    Desktop,
    Unknown,
}

/// The classification `from_user_agent` performs, stated over the characters
/// of the header.
pub open spec fn agent_of(ua: Seq<char>) -> Agent {
    if is_substring("Android"@, ua) {
        Agent::Android
    } else if is_substring("iPhone"@, ua) {
        Agent::IPhone
    } else if is_substring("Windows"@, ua) || is_substring("Macintosh"@, ua) || is_substring(
        "X11"@,
        ua,
    ) {
        Agent::Desktop
    } else {
        Agent::Unknown
    }
}

/// The label a classification is written as, both on the wire (a credential
/// claim) and for display.
pub open spec fn agent_label(a: Agent) -> Seq<char> {
    match a {
        Agent::Android => "Android"@,
        Agent::IPhone => "iPhone"@,
        Agent::Desktop => "Desktop"@,
        Agent::Unknown => "Unknown"@,
    }
}

impl Agent {
    /// Guess the agent kind from a `User-Agent` header.
    pub fn from_user_agent(ua: &str) -> (r: Agent)
        ensures
            r == agent_of(ua@),
    {
        let chars = chars_of(ua);
        if str_contains_sub(&chars, "Android") {
            Agent::Android
        } else if str_contains_sub(&chars, "iPhone") {
            Agent::IPhone
        } else if str_contains_sub(&chars, "Windows") || str_contains_sub(&chars, "Macintosh")
            || str_contains_sub(&chars, "X11") {
            Agent::Desktop
        } else {
            Agent::Unknown
        }
    }

    /// The label this classification travels under.
    pub fn label(self) -> (r: &'static str)
        ensures
            r@ == agent_label(self),
    {
        match self {
            Agent::Android => "Android",
            Agent::IPhone => "iPhone",
            Agent::Desktop => "Desktop",
            Agent::Unknown => "Unknown",
        }
    }

    /// The classification a label names, if any.
    pub fn from_label(s: &str) -> (r: Option<Agent>)
        ensures
            r == agent_from_label(s@),
    {
        if str_eq(s, "Android") {
            Some(Agent::Android)
        } else if str_eq(s, "iPhone") {
            Some(Agent::IPhone)
        } else if str_eq(s, "Desktop") {
            Some(Agent::Desktop)
        } else if str_eq(s, "Unknown") {
            Some(Agent::Unknown)
        } else {
            None
        }
    }
}

/// Inverse of `agent_label`.
pub open spec fn agent_from_label(s: Seq<char>) -> Option<Agent> {
    if s == "Android"@ {
        Some(Agent::Android)
    } else if s == "iPhone"@ {
        Some(Agent::IPhone)
    } else if s == "Desktop"@ {
        Some(Agent::Desktop)
    } else if s == "Unknown"@ {
        Some(Agent::Unknown)
    } else {
        None
    }
}

/// Labelling then reading the label back yields the same classification.
pub proof fn lemma_agent_label_roundtrip(a: Agent)
    ensures
        agent_from_label(agent_label(a)) == Some(a),
{
    reveal_strlit("Android");
    reveal_strlit("iPhone");
    reveal_strlit("Desktop");
    reveal_strlit("Unknown");
    match a {
        Agent::Android => {
            assert(agent_label(a) == "Android"@);
        },
        Agent::IPhone => {
            assert(agent_label(a) != "Android"@) by {
                assert(agent_label(a).len() == 6);
            }
        },
        Agent::Desktop => {
            assert(agent_label(a) != "Android"@) by {
                assert(agent_label(a)[0] == 'D');
            }
            assert(agent_label(a) != "iPhone"@) by {
                assert(agent_label(a).len() == 7);
            }
        },
        Agent::Unknown => {
            assert(agent_label(a) != "Android"@) by {
                assert(agent_label(a)[0] == 'U');
            }
            assert(agent_label(a) != "iPhone"@) by {
                assert(agent_label(a).len() == 7);
            }
            assert(agent_label(a) != "Desktop"@) by {
                assert(agent_label(a)[0] == 'U');
            }
        },
    }
}

/// The part of an access request that the operator surface consumes.
pub struct AccessInfo {
    /// Identifier the device was issued at registration.
    pub uuid: u128,
    /// Display name the device registered under.
    pub name: String,
    /// Guessed agent kind.
    pub agent: Agent,
    /// Short human-entry pairing code, for on-screen display.
    pub code: String,
}

impl Clone for AccessInfo {
    fn clone(&self) -> (r: Self)
        ensures
            r == *self,
    {
        AccessInfo {
            uuid: self.uuid,
            name: self.name.clone(),
            agent: self.agent,
            code: self.code.clone(),
        }
    }
}

/// The part of an active connection that the operator surface consumes.
pub struct ActiveInfo {
    /// Identifier from the credential's subject.
    pub uuid: u128,
    /// Display name from the credential.
    pub name: String,
    /// Agent kind from the credential.
    pub agent: Agent,
}

impl Clone for ActiveInfo {
    fn clone(&self) -> (r: Self)
        ensures
            r == *self,
    {
        ActiveInfo { uuid: self.uuid, name: self.name.clone(), agent: self.agent }
    }
}

} // verus!
