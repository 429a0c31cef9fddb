use vstd::prelude::*;

use crate::id::ID;

verus! {

/// A point in time, in milliseconds since the Unix epoch.
pub type Timestamp = i64;

/// The canonical record of a short link; it never changes once created.
#[derive(Debug, Clone)]
pub struct ShortenedURL {
    pub id: ID,
    pub original_url: String,
    pub created_at: Timestamp,
    pub expires_at: Option<Timestamp>,
}

/// A short link as plain values.
pub struct LinkView {
    pub id: Seq<char>,
    pub original_url: Seq<char>,
    pub created_at: Timestamp,
    pub expires_at: Option<Timestamp>,
}

impl View for ShortenedURL {
    type V = LinkView;

    open spec fn view(&self) -> LinkView {
        LinkView {
            id: self.id@,
            original_url: self.original_url@,
            created_at: self.created_at,
            expires_at: self.expires_at,
        }
    }
}

impl ShortenedURL {
    /// A copy with the same values.
    pub fn duplicate(&self) -> (r: Self)
        ensures
            r@ == self@,
    {
        ShortenedURL {
            id: ID(self.id.0.clone()),
            original_url: self.original_url.clone(),
            created_at: self.created_at,
            expires_at: self.expires_at,
        }
    }
}

/// Whether a link may be followed. A link with no state record is enabled.
#[derive(Debug, Clone)]
pub struct ShortUrlState {
    pub id: ID,
    pub enabled: bool,
    pub disabled_at: Option<Timestamp>,
    pub updated_at: Timestamp,
}

/// A link's state as plain values.
pub struct StateView {
    pub id: Seq<char>,
    pub enabled: bool,
    pub disabled_at: Option<Timestamp>,
    pub updated_at: Timestamp,
}

impl View for ShortUrlState {
    type V = StateView;

    open spec fn view(&self) -> StateView {
        StateView {
            id: self.id@,
            enabled: self.enabled,
            disabled_at: self.disabled_at,
            updated_at: self.updated_at,
        }
    }
}

impl ShortUrlState {
    /// A copy with the same values.
    pub fn duplicate(&self) -> (r: Self)
        ensures
            r@ == self@,
    {
        ShortUrlState {
            id: ID(self.id.0.clone()),
            enabled: self.enabled,
            disabled_at: self.disabled_at,
            updated_at: self.updated_at,
        }
    }
}

/// What an administrator sees of one identifier: the link, if any, and its state, if any.
#[derive(Debug, Clone)]
pub struct ShortUrlAdminView {
    pub id: ID,
    pub original_url: Option<String>,
    pub created_at: Option<Timestamp>,
    pub expires_at: Option<Timestamp>,
    pub state: Option<ShortUrlState>,
}

/// Who created a link: written once per identifier, the first writer wins.
#[derive(Debug, Clone)]
pub struct CreateMeta {
    pub created_at: Timestamp,
    pub ip: String,
    pub user_agent: String,
    pub request_id: String,
}

/// Creator metadata as plain values.
pub struct MetaView {
    pub created_at: Timestamp,
    pub ip: Seq<char>,
    pub user_agent: Seq<char>,
    pub request_id: Seq<char>,
}

impl View for CreateMeta {
    type V = MetaView;

    open spec fn view(&self) -> MetaView {
        MetaView {
            created_at: self.created_at,
            ip: self.ip@,
            user_agent: self.user_agent@,
            request_id: self.request_id@,
        }
    }
}

impl CreateMeta {
    /// A copy with the same values.
    pub fn duplicate(&self) -> (r: Self)
        ensures
            r@ == self@,
    {
        CreateMeta {
            created_at: self.created_at,
            ip: self.ip.clone(),
            user_agent: self.user_agent.clone(),
            request_id: self.request_id.clone(),
        }
    }
}

/// The most recent resolution of a link: when, and with which status code.
#[derive(Debug, Clone, Copy, PartialEq, Eq)]
pub struct LastAccess {
    pub at: Timestamp,
    pub status_code: i32,
}

/// One row of the access log of a link.
#[derive(Debug, Clone)]
pub struct AccessLogEntry {
    pub ts: Timestamp,
    pub ip: String,
    pub user_agent: String,
    pub request_id: String,
    pub status_code: i32,
}

/// An access-log row as plain values.
pub struct AccessView {
    pub ts: Timestamp,
    pub ip: Seq<char>,
    pub user_agent: Seq<char>,
    pub request_id: Seq<char>,
    pub status_code: i32,
}

impl View for AccessLogEntry {
    type V = AccessView;

    open spec fn view(&self) -> AccessView {
        AccessView {
            ts: self.ts,
            ip: self.ip@,
            user_agent: self.user_agent@,
            request_id: self.request_id@,
            status_code: self.status_code,
        }
    }
}

impl AccessLogEntry {
    /// A copy with the same values.
    pub fn duplicate(&self) -> (r: Self)
        ensures
            r@ == self@,
    {
        AccessLogEntry {
            ts: self.ts,
            ip: self.ip.clone(),
            user_agent: self.user_agent.clone(),
            request_id: self.request_id.clone(),
            status_code: self.status_code,
        }
    }
}

/// One row of the creation log of a link.
#[derive(Debug, Clone)]
pub struct CreateLogEntry {
    pub ts: Timestamp,
    pub ip: String,
    pub user_agent: String,
    pub original_url: String,
    pub request_id: String,
}

/// A creation-log row as plain values.
pub struct CreateLogView {
    pub ts: Timestamp,
    pub ip: Seq<char>,
    pub user_agent: Seq<char>,
    pub original_url: Seq<char>,
    pub request_id: Seq<char>,
}

impl View for CreateLogEntry {
    type V = CreateLogView;

    open spec fn view(&self) -> CreateLogView {
        CreateLogView {
            ts: self.ts,
            ip: self.ip@,
            user_agent: self.user_agent@,
            original_url: self.original_url@,
            request_id: self.request_id@,
        }
    }
}

/// The text stored for an optional request attribute: the empty string stands for none.
pub open spec fn stored_text(v: Option<Seq<char>>) -> Seq<char> {
    match v {
        Some(s) => s,
        None => Seq::empty(),
    }
}

/// The text stored for an optional request attribute.
pub fn or_empty(v: Option<&str>) -> (r: String)
    ensures
        r@ == stored_text(
            match v {
                Some(s) => Some(s@),
                None => None,
            },
        ),
{
    match v {
        Some(s) => s.to_string(),
        None => String::new(),
    }
}

/// A stored request attribute as read back: the empty string stands for none.
pub fn non_empty(s: String) -> (r: Option<String>)
    ensures
        s@.len() == 0 ==> r is None,
        s@.len() > 0 ==> (r matches Some(t) && t@ == s@),
{
    if s.as_str().is_empty() {
        None
    } else {
        Some(s)
    }
}

} // verus!
