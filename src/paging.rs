use vstd::prelude::*;

verus! {

/// Rows per page when the caller names no limit.
pub const DEFAULT_PAGE_LIMIT: i32 = 20;

/// Most rows per page.
pub const MAX_PAGE_LIMIT: i32 = 100;

/// Access-log rows returned when the caller names no limit.
pub const DEFAULT_ACCESS_LOG_LIMIT: i32 = 100;

/// Most access-log rows returned at once.
pub const MAX_ACCESS_LOG_LIMIT: i32 = 500;

/// `v` brought into `[lo, hi]`.
pub open spec fn clamped(v: int, lo: int, hi: int) -> int {
    if v < lo {
        lo
    } else if v > hi {
        hi
    } else {
        v
    }
}

/// `v` brought into `[lo, hi]`.
pub fn clamp_i32(v: i32, lo: i32, hi: i32) -> (r: i32)
    requires
        lo <= hi,
    ensures
        r == clamped(v as int, lo as int, hi as int),
{
    if v < lo {
        lo
    } else if v > hi {
        hi
    } else {
        v
    }
}

/// The page size for a requested limit: twenty by default, at least one, at most a hundred.
pub fn page_limit(requested: Option<i32>) -> (r: i32)
    ensures
        r == clamped(
            match requested {
                Some(l) => l as int,
                None => DEFAULT_PAGE_LIMIT as int,
            },
            1,
            MAX_PAGE_LIMIT as int,
        ),
        1 <= r <= MAX_PAGE_LIMIT,
{
    let l = match requested {
        Some(l) => l,
        None => DEFAULT_PAGE_LIMIT,
    };
    clamp_i32(l, 1, MAX_PAGE_LIMIT)
}

/// How many access-log rows to return: a hundred by default, at least one, at most five hundred.
pub fn access_log_limit(requested: Option<i32>) -> (r: i32)
    ensures
        r == clamped(
            match requested {
                Some(l) => l as int,
                None => DEFAULT_ACCESS_LOG_LIMIT as int,
            },
            1,
            MAX_ACCESS_LOG_LIMIT as int,
        ),
        1 <= r <= MAX_ACCESS_LOG_LIMIT,
{
    let l = match requested {
        Some(l) => l,
        None => DEFAULT_ACCESS_LOG_LIMIT,
    };
    clamp_i32(l, 1, MAX_ACCESS_LOG_LIMIT)
}

/// The position that a continuation token of the in-memory store stands for:
/// eight bytes, most significant first.
pub open spec fn cursor_position(b: Seq<u8>) -> Option<u64> {
    if b.len() == 8 {
        Some(
            ((b[0] as u64) << 56u64) | ((b[1] as u64) << 48u64) | ((b[2] as u64) << 40u64) | ((
            b[3] as u64) << 32u64) | ((b[4] as u64) << 24u64) | ((b[5] as u64) << 16u64) | ((
            b[6] as u64) << 8u64) | (b[7] as u64),
        )
    } else {
        None
    }
}

/// The position a continuation token stands for, if it is one.
pub fn decode_cursor(b: &Vec<u8>) -> (r: Option<u64>)
    ensures
        r == cursor_position(b@),
{
    if b.len() == 8 {
        Some(
            ((b[0] as u64) << 56u64) | ((b[1] as u64) << 48u64) | ((b[2] as u64) << 40u64) | ((
            b[3] as u64) << 32u64) | ((b[4] as u64) << 24u64) | ((b[5] as u64) << 16u64) | ((
            b[6] as u64) << 8u64) | (b[7] as u64),
        )
    } else {
        None
    }
}

fn byte_at(n: u64, shift: u64) -> (r: u8)
    requires
        shift <= 56,
    ensures
        r as u64 == (n >> shift) & 0xffu64,
{
    let v = (n >> shift) & 0xffu64;
    assert(v < 256) by (bit_vector)
        requires
            v == (n >> shift) & 0xffu64,
    ;
    v as u8
}

/// The continuation token for a position.
pub fn encode_cursor(n: u64) -> (r: Vec<u8>)
    ensures
        cursor_position(r@) == Some(n),
{
    let mut out: Vec<u8> = Vec::new();
    out.push(byte_at(n, 56));
    out.push(byte_at(n, 48));
    out.push(byte_at(n, 40));
    out.push(byte_at(n, 32));
    out.push(byte_at(n, 24));
    out.push(byte_at(n, 16));
    out.push(byte_at(n, 8));
    out.push(byte_at(n, 0));
    assert(((((n >> 56u64) & 0xffu64) << 56u64) | (((n >> 48u64) & 0xffu64) << 48u64) | (((n
        >> 40u64) & 0xffu64) << 40u64) | (((n >> 32u64) & 0xffu64) << 32u64) | (((n >> 24u64)
        & 0xffu64) << 24u64) | (((n >> 16u64) & 0xffu64) << 16u64) | (((n >> 8u64) & 0xffu64)
        << 8u64) | ((n >> 0u64) & 0xffu64)) == n) by (bit_vector);
    out
}

/// The text of a token that travels base64url-encoded without padding.
pub uninterp spec fn base64url_encoding(b: Seq<u8>) -> Seq<char>;

/// The bytes that base64url text without padding decodes to, if it is valid.
pub uninterp spec fn base64url_decoding(s: Seq<char>) -> Option<Seq<u8>>;

/// A character of the URL-safe base64 alphabet.
pub open spec fn base64url_char(c: char) -> bool {
    ('A' <= c && c <= 'Z') || ('a' <= c && c <= 'z') || ('0' <= c && c <= '9') || c == '-' || c
        == '_'
}

/// Relies on `base64::Engine::encode` of `URL_SAFE_NO_PAD`: the text is written in
/// the URL-safe alphabet without padding, is empty only for no bytes, and the
/// same engine decodes it back to the bytes.
#[verifier::external_body]
fn base64url_encode(b: &Vec<u8>) -> (r: String)
    ensures
        r@ == base64url_encoding(b@),
        forall|i: int| 0 <= i < r@.len() ==> base64url_char(#[trigger] r@[i]),
        b@.len() > 0 ==> r@.len() > 0,
        base64url_decoding(r@) == Some(b@),
{
    base64::Engine::encode(&base64::engine::general_purpose::URL_SAFE_NO_PAD, b)
}

/// Relies on `base64::Engine::decode` of `URL_SAFE_NO_PAD`, which fails on text
/// that is not base64url without padding.
#[verifier::external_body]
fn base64url_decode(s: &str) -> (r: Option<Vec<u8>>)
    ensures
        match r {
            Some(v) => base64url_decoding(s@) == Some(v@),
            None => base64url_decoding(s@) is None,
        },
{
    base64::Engine::decode(&base64::engine::general_purpose::URL_SAFE_NO_PAD, s).ok()
}

/// The token handed to clients for a store's continuation state.
pub fn encode_page_state(raw: &Vec<u8>) -> (r: String)
    ensures
        r@ == base64url_encoding(raw@),
        raw@.len() > 0 ==> crate::text::trimmed(r@) == r@ && r@.len() > 0
            && base64url_decoding(r@) == Some(raw@),
{
    let r = base64url_encode(raw);
    proof {
        if r@.len() > 0 {
            assert(base64url_char(r@[0]) && base64url_char(r@.last()));
            assert(crate::text::trim_start(r@) == r@);
        }
    }
    r
}

/// The continuation state a client's token carries: none for a missing or blank
/// token, `Err(())` for one that is not base64url.
pub fn decode_page_state(token: Option<&str>) -> (r: Result<Option<Vec<u8>>, ()>)
    ensures
        match token {
            None => r == Ok::<Option<Vec<u8>>, ()>(None),
            Some(t) => if crate::text::trimmed(t@).len() == 0 {
                r == Ok::<Option<Vec<u8>>, ()>(None)
            } else {
                match base64url_decoding(crate::text::trimmed(t@)) {
                    Some(b) => r matches Ok(Some(v)) && v@ == b,
                    None => r is Err,
                }
            },
        },
{
    match token {
        None => Ok(None),
        Some(t) => {
            let t = crate::text::trim(t);
            if t.is_empty() {
                Ok(None)
            } else {
                match base64url_decode(t) {
                    Some(v) => Ok(Some(v)),
                    None => Err(()),
                }
            }
        },
    }
}

} // verus!
