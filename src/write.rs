use vstd::prelude::*;

use crate::handler::{parse_url, parsed_url};
use crate::id::{CodecError, ID};
use crate::models::{LinkView, ShortUrlState, ShortenedURL, StateView, Timestamp};

verus! {

/// A failure of the store or of the protocol spoken with it.
#[derive(Debug, Clone, Copy, PartialEq, Eq)]
pub enum StoreError {
    /// A conditional insert was not applied and its reply lacks a column of the existing row.
    MissingColumn,
    /// Every attempt to advance the sequence counter failed.
    AllocationExhausted,
    /// No code could be generated for the allocated sequence number.
    Codec(CodecError),
    /// A continuation token that this store did not issue.
    InvalidCursor,
    /// A request to the store failed in transport or was refused.
    Transport,
    /// The existing row that a conflicting insert reports holds a URL that does not parse.
    InvalidStoredUrl,
}

/// The reply to "insert if absent": whether it was applied and, where it was not,
/// the columns of the row that was already there as far as the reply carries them.
#[derive(Debug, Clone)]
pub struct InsertReply {
    pub applied: bool,
    pub existing_url: Option<String>,
    pub existing_created_at: Option<Timestamp>,
    pub existing_expires_at: Option<Timestamp>,
}

/// How a create ended: this call wrote the record, or one was already there.
#[derive(Debug, Clone)]
pub enum InsertOutcome {
    Applied(ShortenedURL),
    Conflict(ShortenedURL),
}

impl InsertOutcome {
    pub open spec fn link(self) -> LinkView {
        match self {
            InsertOutcome::Applied(l) => l@,
            InsertOutcome::Conflict(l) => l@,
        }
    }

    /// The record that callers receive.
    pub fn into_link(self) -> (r: ShortenedURL)
        ensures
            r@ == self.link(),
    {
        match self {
            InsertOutcome::Applied(l) => l,
            InsertOutcome::Conflict(l) => l,
        }
    }
}

/// The record as a conflicting reply describes it: the requested identifier with
/// the existing row's values.
pub open spec fn existing_link(requested: LinkView, url: Seq<char>, created_at: Timestamp, expires_at: Option<Timestamp>) -> LinkView {
    LinkView { id: requested.id, original_url: url, created_at, expires_at }
}

/// Reads the reply to the conditional insert of `requested`. No reply, or an
/// applied one, means this call created the record. A reply that was not
/// applied gives the first-written record, which must carry its URL and
/// creation time, and that URL must parse; otherwise the reply breaks the
/// protocol, and nothing is guessed.
pub fn interpret_insert(requested: ShortenedURL, reply: Option<InsertReply>) -> (r: Result<
    InsertOutcome,
    StoreError,
>)
    ensures
        match reply {
            None => r matches Ok(InsertOutcome::Applied(l)) && l@ == requested@,
            Some(rep) => if rep.applied {
                r matches Ok(InsertOutcome::Applied(l)) && l@ == requested@
            } else {
                match (rep.existing_url, rep.existing_created_at) {
                    (Some(u), Some(c)) => if parsed_url(u@) is Some {
                        r matches Ok(InsertOutcome::Conflict(l)) && l@ == existing_link(
                            requested@,
                            u@,
                            c,
                            rep.existing_expires_at,
                        )
                    } else {
                        r == Err::<InsertOutcome, StoreError>(StoreError::InvalidStoredUrl)
                    },
                    _ => r == Err::<InsertOutcome, StoreError>(StoreError::MissingColumn),
                }
            },
        },
{
    match reply {
        None => Ok(InsertOutcome::Applied(requested)),
        Some(rep) => {
            if rep.applied {
                Ok(InsertOutcome::Applied(requested))
            } else {
                match (rep.existing_url, rep.existing_created_at) {
                    (Some(u), Some(c)) => {
                        if parse_url(u.as_str()).is_none() {
                            return Err(StoreError::InvalidStoredUrl);
                        }
                        Ok(
                            InsertOutcome::Conflict(
                                ShortenedURL {
                                    id: requested.id,
                                    original_url: u,
                                    created_at: c,
                                    expires_at: rep.existing_expires_at,
                                },
                            ),
                        )
                    },
                    _ => Err(StoreError::MissingColumn),
                }
            }
        },
    }
}

/// The state record that enabling or disabling at `now` writes; a create writes
/// the enabled one.
pub open spec fn state_record(id: Seq<char>, enabled: bool, now: Timestamp) -> StateView {
    StateView { id, enabled, disabled_at: if enabled { None } else { Some(now) }, updated_at: now }
}

/// The writes that follow a conditional insert that this call won.
#[derive(Debug, Clone)]
pub struct FollowUp {
    /// The link's initial state: enabled.
    pub state: ShortUrlState,
    /// The link's row in the creation-time index.
    pub index_row: ShortenedURL,
}

/// The writes owed after a conditional insert, built from the values just
/// established: on a win, the enabled state record and the index row; on a
/// conflict, none.
pub fn follow_up(outcome: &InsertOutcome) -> (r: Option<FollowUp>)
    ensures
        match outcome {
            InsertOutcome::Applied(l) => r matches Some(f) && f.state@ == state_record(
                l@.id,
                true,
                l.created_at,
            ) && f.index_row@ == l@,
            InsertOutcome::Conflict(_) => r is None,
        },
{
    match outcome {
        InsertOutcome::Applied(l) => Some(
            FollowUp {
                state: ShortUrlState {
                    id: ID(l.id.0.clone()),
                    enabled: true,
                    disabled_at: None,
                    updated_at: l.created_at,
                },
                index_row: l.duplicate(),
            },
        ),
        InsertOutcome::Conflict(_) => None,
    }
}

} // verus!
