//! Resolution of a ticket to an identity, through a cache that is filled
//! only by successful verifications.
use crate::config::{parse_unsigned, unsigned_value, within};
use crate::shared_map::{new_ticket_map, ticket_entries, ticket_get, ticket_insert};
use dashmap::DashMap;
use vstd::prelude::*;

verus! {

/// The credential a request carries.
pub enum Credential {
    /// The request has no ticket header.
    Missing,
    /// The header is there but is not visible ASCII text.
    Unreadable,
    /// The ticket text.
    Ticket(String),
}

/// What the identity provider answered for a ticket.
pub enum VerifyOutcome {
    /// The provider could not be reached.
    Transport,
    /// The answer could not be read.
    Malformed,
    /// The provider's verdict (`OK` on success) and the identity it names.
    Answered { result: String, steamid: String },
}

/// Why a request could not be given an identity.
#[derive(Clone, Copy, PartialEq, Eq, Debug)]
pub enum AuthError {
    /// No credential.
    Unauthenticated,
    /// A credential that cannot be read: an unreadable header, or a ticket
    /// that is not a number where tickets stand for identities directly.
    BadRequest,
    /// The provider denied the ticket.
    Rejected,
    /// The provider could not be reached or gave an unreadable answer.
    UpstreamUnavailable,
}

/// The next step of resolving a credential.
pub enum Resolution {
    /// The identity is known.
    Resolved(u64),
    /// The ticket must be verified with the provider; hand the outcome to
    /// [`IdentityCache::finish`].
    NeedsVerification(String),
    /// The credential is refused.
    Failed(AuthError),
}

/// The identity a ticket text denotes where tickets stand for identities.
pub open spec fn ticket_number(t: Seq<char>) -> Option<int> {
    within(unsigned_value(t), 0, u64::MAX as int)
}

/// The identity that a provider answer grants, or why it grants none.
pub open spec fn verdict(outcome: VerifyOutcome) -> Result<u64, AuthError> {
    match outcome {
        VerifyOutcome::Answered { result, steamid } => if result@ != "OK"@ {
            Err(AuthError::Rejected)
        } else {
            match ticket_number(steamid@) {
                Some(id) => Ok(id as u64),
                None => Err(AuthError::UpstreamUnavailable),
            }
        },
        _ => Err(AuthError::UpstreamUnavailable),
    }
}

/// The outcome of the first step of resolving `credential`, with cache
/// contents `pre` before and `post` after.
pub open spec fn began(
    pre: Map<Seq<char>, u64>,
    post: Map<Seq<char>, u64>,
    credential: Credential,
    tickets_are_identities: bool,
    r: Resolution,
) -> bool {
    match credential {
        Credential::Missing => r == Resolution::Failed(AuthError::Unauthenticated) && post == pre,
        Credential::Unreadable => r == Resolution::Failed(AuthError::BadRequest) && post == pre,
        Credential::Ticket(t) => if pre.contains_key(t@) {
            r == Resolution::Resolved(pre[t@]) && post == pre
        } else if tickets_are_identities {
            match ticket_number(t@) {
                Some(id) => r == Resolution::Resolved(id as u64) && post == pre.insert(t@, id as u64),
                None => r == Resolution::Failed(AuthError::BadRequest) && post == pre,
            }
        } else {
            r == Resolution::NeedsVerification(t) && post == pre
        },
    }
}

/// Cache from raw ticket text to the identity it was verified as.
pub struct IdentityCache {
    tickets: DashMap<String, u64>,
}

impl IdentityCache {
    /// The cached identity of each ticket text.
    pub closed spec fn entries(&self) -> Map<Seq<char>, u64> {
        ticket_entries(self.tickets)
    }

    /// An empty cache.
    pub fn new() -> (r: IdentityCache)
        ensures
            r.entries() == Map::<Seq<char>, u64>::empty(),
    {
        let r = IdentityCache { tickets: new_ticket_map() };
        assert(r.entries() =~= Map::<Seq<char>, u64>::empty());
        r
    }

    /// The identity cached for `ticket`, if any.
    pub fn cached(&self, ticket: &str) -> (r: Option<u64>)
        ensures
            r == (if self.entries().contains_key(ticket@) {
                Some(self.entries()[ticket@])
            } else {
                None
            }),
    {
        ticket_get(&self.tickets, ticket)
    }

    /// Caches `identity` for `ticket`.
    pub fn remember(&mut self, ticket: String, identity: u64)
        ensures
            final(self).entries() == old(self).entries().insert(ticket@, identity),
    {
        ticket_insert(&mut self.tickets, ticket, identity);
    }

    /// First step of resolving a credential: a cache hit resolves at once;
    /// where tickets stand for identities, the ticket is read as a number
    /// and cached; otherwise the ticket goes to the provider.
    pub fn begin(&mut self, credential: Credential, tickets_are_identities: bool) -> (r: Resolution)
        ensures
            began(
                old(self).entries(),
                final(self).entries(),
                credential,
                tickets_are_identities,
                r,
            ),
    {
        match credential {
            Credential::Missing => Resolution::Failed(AuthError::Unauthenticated),
            Credential::Unreadable => Resolution::Failed(AuthError::BadRequest),
            Credential::Ticket(t) => {
                if let Some(id) = self.cached(t.as_str()) {
                    return Resolution::Resolved(id);
                }
                if tickets_are_identities {
                    match parse_unsigned(t.as_str(), u64::MAX) {
                        Some(id) => {
                            self.remember(t, id);
                            Resolution::Resolved(id)
                        },
                        None => Resolution::Failed(AuthError::BadRequest),
                    }
                } else {
                    Resolution::NeedsVerification(t)
                }
            },
        }
    }

    /// Last step of resolving a ticket: takes the provider's answer, and on
    /// success caches the identity under the raw ticket text.
    pub fn finish(&mut self, ticket: String, outcome: VerifyOutcome) -> (r: Result<u64, AuthError>)
        ensures
            r == verdict(outcome),
            final(self).entries() == (match r {
                Ok(id) => old(self).entries().insert(ticket@, id),
                Err(_) => old(self).entries(),
            }),
    {
        match outcome {
            VerifyOutcome::Answered { result, steamid } => {
                if result != "OK".to_owned() {
                    return Err(AuthError::Rejected);
                }
                match parse_unsigned(steamid.as_str(), u64::MAX) {
                    Some(id) => {
                        self.remember(ticket, id);
                        Ok(id)
                    },
                    None => Err(AuthError::UpstreamUnavailable),
                }
            },
            _ => Err(AuthError::UpstreamUnavailable),
        }
    }
}

} // verus!
