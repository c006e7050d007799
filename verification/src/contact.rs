//! Known peers.

use crate::identity::Profile;
#[allow(unused_imports)]
use crate::identity::ProfileModel;
use crate::protocol::PeerKey;
use vstd::prelude::*;

verus! {

/// A peer with whom at least one handshake was completed.
#[derive(Debug, PartialEq, Eq)]
pub struct Contact {
    pub peer: PeerKey,
    /// The latest verified profile that the peer published.
    pub profile: Option<Profile>,
    /// The name that the owner chose, which overrides that of the profile.
    pub alias: Option<String>,
    /// The messaging identity key of the first `Hello`.
    pub pinned_msg_key: Option<[u8; 32]>,
    /// Another key that was seen later and is not accepted yet.
    pub pending_msg_key: Option<[u8; 32]>,
    /// Unix milliseconds of the last connect, disconnect or message.
    pub last_seen: u64,
    pub added_at: u64,
}

/// A contact as a mathematical value.
pub ghost struct ContactModel {
    pub peer: PeerKey,
    pub profile: Option<ProfileModel>,
    pub alias: Option<Seq<char>>,
    pub pinned_msg_key: Option<[u8; 32]>,
    pub pending_msg_key: Option<[u8; 32]>,
    pub last_seen: u64,
    pub added_at: u64,
}

/// The text of an optional string.
pub open spec fn optional_text(s: Option<String>) -> Option<Seq<char>> {
    match s {
        Some(t) => Some(t@),
        None => None,
    }
}

impl View for Contact {
    type V = ContactModel;

    open spec fn view(&self) -> ContactModel {
        ContactModel {
            peer: self.peer,
            profile: match self.profile {
                Some(p) => Some(p@),
                None => None,
            },
            alias: optional_text(self.alias),
            pinned_msg_key: self.pinned_msg_key,
            pending_msg_key: self.pending_msg_key,
            last_seen: self.last_seen,
            added_at: self.added_at,
        }
    }
}

impl Clone for Contact {
    fn clone(&self) -> (r: Self)
        ensures
            r@ == self@,
    {
        Contact {
            peer: self.peer,
            profile: match &self.profile {
                Some(p) => Some(p.clone()),
                None => None,
            },
            alias: match &self.alias {
                Some(a) => Some(a.clone()),
                None => None,
            },
            pinned_msg_key: self.pinned_msg_key,
            pending_msg_key: self.pending_msg_key,
            last_seen: self.last_seen,
            added_at: self.added_at,
        }
    }
}

impl ContactModel {
    /// A contact of which only the peer and the time are known.
    pub open spec fn fresh(peer: PeerKey, now: u64) -> Self {
        ContactModel {
            peer,
            profile: None,
            alias: None,
            pinned_msg_key: None,
            pending_msg_key: None,
            last_seen: now,
            added_at: now,
        }
    }

    /// The name for people: a non-empty alias, else a non-empty profile name.
    pub open spec fn name(self) -> Option<Seq<char>> {
        if self.alias is Some && self.alias->0.len() > 0 {
            self.alias
        } else if self.profile is Some && self.profile->0.display_name.len() > 0 {
            Some(self.profile->0.display_name)
        } else {
            None
        }
    }
}

impl Contact {
    /// A contact of which only the peer and the time are known.
    pub fn fresh(peer: PeerKey, now: u64) -> (r: Self)
        ensures
            r@ == ContactModel::fresh(peer, now),
    {
        Contact {
            peer,
            profile: None,
            alias: None,
            pinned_msg_key: None,
            pending_msg_key: None,
            last_seen: now,
            added_at: now,
        }
    }

    /// The name for people: a non-empty alias, else a non-empty profile name.
    pub fn display_name(&self) -> (r: Option<String>)
        ensures
            optional_text(r) == self@.name(),
    {
        if let Some(a) = &self.alias {
            if !a.as_str().is_empty() {
                return Some(a.clone());
            }
        }
        match &self.profile {
            Some(p) => if !p.display_name.as_str().is_empty() {
                Some(p.display_name.clone())
            } else {
                None
            },
            None => None,
        }
    }
}

} // verus!
