pub mod config;

use vstd::prelude::*;

use crate::id::{normalized, ID};
use crate::models::{
    non_empty, AccessLogEntry, CreateMeta, LastAccess, ShortUrlAdminView, ShortUrlState,
    ShortenedURL, Timestamp,
};
use crate::text::{trim, trimmed};
use crate::write::StoreError;

verus! {

/// Status code of a redirect to the link's target.
pub const STATUS_REDIRECT: i32 = 308;

/// Status code of an identifier with no link.
pub const STATUS_NOT_FOUND: i32 = 404;

/// Status code of a disabled link.
pub const STATUS_GONE: i32 = 410;

/// Why a request failed.
#[derive(Debug, Clone)]
pub enum HandlerError {
    /// The caller's input is invalid; the text says how.
    ParamError(String),
    /// The store failed; callers see an internal error.
    DBError(StoreError),
    /// No link has this identifier.
    NotFound,
    /// The link is disabled.
    Disabled,
}

impl HandlerError {
    /// The HTTP status code of the error.
    pub fn status_code(&self) -> (r: u16)
        ensures
            r == match self {
                HandlerError::ParamError(_) => 400u16,
                HandlerError::DBError(_) => 500u16,
                HandlerError::NotFound => 404u16,
                HandlerError::Disabled => 410u16,
            },
    {
        match self {
            HandlerError::ParamError(_) => 400,
            HandlerError::DBError(_) => 500,
            HandlerError::NotFound => 404,
            HandlerError::Disabled => 410,
        }
    }

    /// The text of the error shown to callers; a store failure shows no detail.
    pub fn message(&self) -> (r: String)
        ensures
            match self {
                HandlerError::ParamError(m) => r@ == m@,
                HandlerError::DBError(_) => r@ == "Internal Server Error"@,
                HandlerError::NotFound => r@ == "URL not found"@,
                HandlerError::Disabled => r@ == "URL disabled"@,
            },
    {
        match self {
            HandlerError::ParamError(m) => m.clone(),
            HandlerError::DBError(_) => "Internal Server Error".to_string(),
            HandlerError::NotFound => "URL not found".to_string(),
            HandlerError::Disabled => "URL disabled".to_string(),
        }
    }
}

/// The serialization that `url::Url::parse` gives for the text, if it is a valid absolute URL.
pub uninterp spec fn parsed_url(s: Seq<char>) -> Option<Seq<char>>;

/// Relies on `url::Url::parse`, and on `From<Url> for String`, which hands back the
/// parsed URL's serialization.
#[verifier::external_body]
pub(crate) fn parse_url(s: &str) -> (r: Option<String>)
    ensures
        match r {
            Some(u) => parsed_url(s@) == Some(u@),
            None => parsed_url(s@) is None,
        },
{
    url::Url::parse(s).ok().map(String::from)
}

/// The target of a shorten request: trimmed, required, and a valid URL, given in
/// the parser's serialization.
pub fn validate_target_url(raw: &str) -> (r: Result<String, HandlerError>)
    ensures
        trimmed(raw@).len() == 0 ==> (r matches Err(HandlerError::ParamError(m)) && m@
            == "The 'url' parameter is required."@),
        trimmed(raw@).len() > 0 ==> match parsed_url(trimmed(raw@)) {
            Some(u) => r matches Ok(v) && v@ == u,
            None => r matches Err(HandlerError::ParamError(m)) && m@ == "Invalid URL format"@,
        },
{
    let url = trim(raw);
    if url.is_empty() {
        return Err(HandlerError::ParamError("The 'url' parameter is required.".to_string()));
    }
    match parse_url(url) {
        Some(u) => Ok(u),
        None => Err(HandlerError::ParamError("Invalid URL format".to_string())),
    }
}

/// The identifier of an access-log request: trimmed, required, and normalized,
/// as every lookup is.
pub fn required_id(raw: &str) -> (r: Result<ID, HandlerError>)
    ensures
        trimmed(raw@).len() == 0 ==> (r matches Err(HandlerError::ParamError(m)) && m@
            == "The 'id' parameter is required."@),
        trimmed(raw@).len() > 0 ==> (r matches Ok(v) && v@ == normalized(trimmed(raw@))),
{
    let id = trim(raw);
    if id.is_empty() {
        return Err(HandlerError::ParamError("The 'id' parameter is required.".to_string()));
    }
    Ok(ID::new(id.to_string()))
}

/// How resolving an identifier ends.
#[derive(Debug, Clone)]
pub enum Resolution {
    /// Redirect to this target.
    Redirect(String),
    /// No link has the identifier.
    NotFound,
    /// The link exists and is disabled.
    Disabled,
}

impl Resolution {
    /// The status code recorded for this outcome.
    pub fn status_code(&self) -> (r: i32)
        ensures
            r == match self {
                Resolution::Redirect(_) => STATUS_REDIRECT,
                Resolution::NotFound => STATUS_NOT_FOUND,
                Resolution::Disabled => STATUS_GONE,
            },
    {
        match self {
            Resolution::Redirect(_) => STATUS_REDIRECT,
            Resolution::NotFound => STATUS_NOT_FOUND,
            Resolution::Disabled => STATUS_GONE,
        }
    }

    /// Whether this outcome is recorded as the link's last access: every outcome
    /// but a missing link is.
    pub fn records_last_access(&self) -> (r: bool)
        ensures
            r == !(self is NotFound),
    {
        match self {
            Resolution::NotFound => false,
            _ => true,
        }
    }

    /// The error a redirect request ends with, if it does not redirect.
    pub fn error(&self) -> (r: Option<HandlerError>)
        ensures
            match self {
                Resolution::Redirect(_) => r is None,
                Resolution::NotFound => r matches Some(HandlerError::NotFound),
                Resolution::Disabled => r matches Some(HandlerError::Disabled),
            },
    {
        match self {
            Resolution::Redirect(_) => None,
            Resolution::NotFound => Some(HandlerError::NotFound),
            Resolution::Disabled => Some(HandlerError::Disabled),
        }
    }
}

/// Decides how a redirect request for a link ends.
pub fn resolve(link: Option<&ShortenedURL>, state: Option<&ShortUrlState>) -> (r: Resolution)
    ensures
        link is None ==> r is NotFound,
        link matches Some(l) ==> (state matches Some(s) && !s.enabled ==> r is Disabled),
        link matches Some(l) ==> (!(state matches Some(s) && !s.enabled) ==> (
        r matches Resolution::Redirect(u) && u@ == l.original_url@)),
{
    match link {
        None => Resolution::NotFound,
        Some(l) => {
            match state {
                Some(s) if !s.enabled => Resolution::Disabled,
                _ => Resolution::Redirect(l.original_url.clone()),
            }
        },
    }
}

/// One link as the administrator's list shows it.
#[derive(Debug, Clone)]
pub struct AdminLinkListItem {
    pub id: ID,
    pub original_url: String,
    pub created_at: Timestamp,
    pub expires_at: Option<Timestamp>,
    pub enabled: bool,
    pub disabled_at: Option<Timestamp>,
    pub last_access_at: Option<Timestamp>,
    pub creator_ip: Option<String>,
    pub creator_user_agent: Option<String>,
    pub creator_request_id: Option<String>,
}

/// Assembles a list item from a link and what the store holds beside it. A link
/// without state is enabled; empty creator attributes are absent.
pub fn admin_link_item(
    url: ShortenedURL,
    state: Option<ShortUrlState>,
    last_access: Option<LastAccess>,
    meta: Option<CreateMeta>,
) -> (r: AdminLinkListItem)
    ensures
        r.id@ == url.id@,
        r.original_url@ == url.original_url@,
        r.created_at == url.created_at,
        r.expires_at == url.expires_at,
        r.enabled == match state {
            Some(s) => s.enabled,
            None => true,
        },
        r.disabled_at == match state {
            Some(s) => s.disabled_at,
            None => None,
        },
        r.last_access_at == match last_access {
            Some(a) => Some(a.at),
            None => None,
        },
        meta is None ==> r.creator_ip is None && r.creator_user_agent is None
            && r.creator_request_id is None,
        meta matches Some(m) ==> (m.ip@.len() == 0 <==> r.creator_ip is None) && (
        m.user_agent@.len() == 0 <==> r.creator_user_agent is None) && (m.request_id@.len() == 0
            <==> r.creator_request_id is None),
        meta matches Some(m) ==> (r.creator_ip matches Some(v) ==> v@ == m.ip@) && (
        r.creator_user_agent matches Some(v) ==> v@ == m.user_agent@) && (
        r.creator_request_id matches Some(v) ==> v@ == m.request_id@),
{
    let (enabled, disabled_at) = match state {
        Some(s) => (s.enabled, s.disabled_at),
        None => (true, None),
    };
    let (creator_ip, creator_user_agent, creator_request_id) = match meta {
        Some(m) => (non_empty(m.ip), non_empty(m.user_agent), non_empty(m.request_id)),
        None => (None, None, None),
    };
    AdminLinkListItem {
        id: url.id,
        original_url: url.original_url,
        created_at: url.created_at,
        expires_at: url.expires_at,
        enabled,
        disabled_at,
        last_access_at: match last_access {
            Some(a) => Some(a.at),
            None => None,
        },
        creator_ip,
        creator_user_agent,
        creator_request_id,
    }
}

/// One page of the administrator's list, with the token for the next page.
#[derive(Debug, Clone)]
pub struct AdminLinkListResponse {
    pub items: Vec<AdminLinkListItem>,
    pub next_page_state: Option<String>,
}

/// The query of the administrator's list.
#[derive(Debug, Clone)]
pub struct AdminListQuery {
    pub limit: Option<i32>,
    pub page_state: Option<String>,
}

/// The query of a link's access log.
#[derive(Debug, Clone, Copy)]
pub struct AdminAccessLogQuery {
    pub limit: Option<i32>,
}

/// One access as the administrator sees it.
#[derive(Debug, Clone)]
pub struct AdminAccessLogItem {
    pub ts: Timestamp,
    pub ip: Option<String>,
    pub user_agent: Option<String>,
    pub request_id: Option<String>,
    pub status_code: i32,
}

/// The accesses of one link, newest first.
#[derive(Debug, Clone)]
pub struct AdminAccessLogResponse {
    pub items: Vec<AdminAccessLogItem>,
}

/// An access-log row as the administrator sees it: empty attributes are absent.
pub fn admin_access_item(e: AccessLogEntry) -> (r: AdminAccessLogItem)
    ensures
        r.ts == e.ts,
        r.status_code == e.status_code,
        e.ip@.len() == 0 <==> r.ip is None,
        e.user_agent@.len() == 0 <==> r.user_agent is None,
        e.request_id@.len() == 0 <==> r.request_id is None,
        r.ip matches Some(v) ==> v@ == e.ip@,
        r.user_agent matches Some(v) ==> v@ == e.user_agent@,
        r.request_id matches Some(v) ==> v@ == e.request_id@,
{
    AdminAccessLogItem {
        ts: e.ts,
        ip: non_empty(e.ip),
        user_agent: non_empty(e.user_agent),
        request_id: non_empty(e.request_id),
        status_code: e.status_code,
    }
}

/// What the administrator sees of an identifier: the link's values where it exists,
/// and its state where one is recorded.
pub fn admin_view(id: ID, url: Option<ShortenedURL>, state: Option<ShortUrlState>) -> (r:
    ShortUrlAdminView)
    ensures
        r.id@ == id@,
        url is None ==> r.original_url is None && r.created_at is None && r.expires_at is None,
        url matches Some(u) ==> (r.original_url matches Some(o) && o@ == u.original_url@)
            && r.created_at == Some(u.created_at) && r.expires_at == u.expires_at,
        r.state == state,
{
    match url {
        Some(u) => ShortUrlAdminView {
            id,
            original_url: Some(u.original_url),
            created_at: Some(u.created_at),
            expires_at: u.expires_at,
            state,
        },
        None => ShortUrlAdminView {
            id,
            original_url: None,
            created_at: None,
            expires_at: None,
            state,
        },
    }
}

/// The body of a shorten request.
#[derive(Debug, Clone)]
pub struct ShortenParams {
    pub url: String,
    pub custom_id: Option<String>,
}

/// The answer to a shorten request.
#[derive(Debug, Clone)]
pub struct ShortenResponse {
    pub id: ID,
}

} // verus!
