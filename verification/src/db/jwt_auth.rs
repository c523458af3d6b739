//! Authentication of a request from the claims of its JWT and the sessions
//! found for its user.
use vstd::prelude::*;
use vstd::string::*;
use crate::db::domains::{parse_uuid, uuid_value};

verus! {

broadcast use vstd::string::group_string_axioms;

/// The claims of a JWT. The ids are UUIDs, kept in their text form.
pub struct AuthClaims {
    pub email: String,
    pub user_id: String,
    pub session_id: String,
}

/// An authenticated request.
pub struct AuthFromJWT {
    pub from_claims: AuthClaims,
    pub verified: bool,
}

/// A session of the claimed user joined with the user, as the database gives
/// it (the ids in their text form), with the IP address the session was
/// opened from, when one was recorded.
pub struct SessionRow {
    pub email: String,
    pub user_id: String,
    pub session_id: String,
    pub ip: Option<String>,
}

/// Why a request was not authenticated.
#[derive(PartialEq, Eq, Structural, Clone, Copy, Debug)]
pub enum AuthFailure {
    /// The `Authorization` header is missing.
    MissingHeader,
    /// The JWT could not be decoded or validated.
    InvalidJwt,
    /// The sessions of the user could not be read.
    CannotRetrieveData,
    /// Not exactly one session matches the claims.
    CannotAuthenticate,
}

/// `ip` is known and is the IP address recorded for the session.
pub open spec fn same_ip(session_ip: Option<String>, client_ip: Option<String>) -> bool {
    session_ip matches Some(s) && client_ip matches Some(c) && s@ == c@
}

/// `row` matches the claims and the client: same email, user and session,
/// and the client's IP address is the session's.
pub open spec fn row_matches(row: SessionRow, claims: AuthClaims, client_ip: Option<String>) -> bool {
    &&& row.email@ == claims.email@
    &&& row.user_id@ == claims.user_id@
    &&& row.session_id@ == claims.session_id@
    &&& same_ip(row.ip, client_ip)
}

/// The number of rows that match the claims and the client.
pub open spec fn matching_rows(rows: Seq<SessionRow>, claims: AuthClaims, client_ip: Option<String>) -> nat
    decreases rows.len(),
{
    if rows.len() == 0 {
        0
    } else {
        matching_rows(rows.drop_last(), claims, client_ip) + if row_matches(rows.last(), claims, client_ip) {
            1nat
        } else {
            0nat
        }
    }
}

/// Whether the recorded IP of a session is the client's.
fn ip_matches(session_ip: &Option<String>, client_ip: &Option<String>) -> (b: bool)
    ensures
        b == same_ip(*session_ip, *client_ip),
{
    match (session_ip, client_ip) {
        (Some(s), Some(c)) => *s == *c,
        _ => false,
    }
}

impl AuthFailure {
    /// The HTTP status answered for this failure.
    pub fn status(&self) -> (code: u16)
        ensures
            code == if *self == AuthFailure::MissingHeader { 400u16 } else { 500u16 },
    {
        match self {
            AuthFailure::MissingHeader => 400,
            _ => 500,
        }
    }

    /// The message answered for this failure.
    pub fn message(&self) -> (m: String)
        ensures
            m@ == match *self {
                AuthFailure::MissingHeader => "Authorization header is missing"@,
                AuthFailure::InvalidJwt => "JWT decoding failed: invalid JWT"@,
                AuthFailure::CannotRetrieveData => "JWT decoding failed: cannot retrieve data"@,
                AuthFailure::CannotAuthenticate => "JWT decoding failed: cannot authenticate"@,
            },
    {
        match self {
            AuthFailure::MissingHeader => String::from_str("Authorization header is missing"),
            AuthFailure::InvalidJwt => String::from_str("JWT decoding failed: invalid JWT"),
            AuthFailure::CannotRetrieveData => String::from_str("JWT decoding failed: cannot retrieve data"),
            AuthFailure::CannotAuthenticate => String::from_str("JWT decoding failed: cannot authenticate"),
        }
    }
}

/// Authenticates the claims of a valid JWT, sent from `client_ip` (`None`
/// when the client's address is unknown), against the sessions found for its
/// user: verified when exactly one session matches them and was opened from
/// the client's IP address.
pub fn authenticate(claims: AuthClaims, client_ip: Option<String>, rows: &Vec<SessionRow>) -> (r: Result<AuthFromJWT, AuthFailure>)
    ensures
        match r {
            Ok(auth) => matching_rows(rows@, claims, client_ip) == 1 && auth.verified && auth.from_claims == claims,
            Err(f) => matching_rows(rows@, claims, client_ip) != 1 && f == AuthFailure::CannotAuthenticate,
        },
{
    let n = rows.len();
    let mut count: usize = 0;
    let mut i: usize = 0;
    proof {
        assert(rows@.take(0) =~= Seq::<SessionRow>::empty());
    }
    while i < n
        invariant
            i <= n,
            n == rows@.len(),
            count as nat == matching_rows(rows@.take(i as int), claims, client_ip),
            count <= i,
        decreases n - i,
    {
        proof {
            assert(rows@.take(i + 1).drop_last() =~= rows@.take(i as int));
        }
        let row = &rows[i];
        if row.email == claims.email && row.user_id == claims.user_id && row.session_id == claims.session_id
            && ip_matches(&row.ip, &client_ip) {
            count = count + 1;
        }
        i = i + 1;
    }
    proof {
        assert(rows@.take(n as int) =~= rows@);
    }
    if count == 1 {
        Ok(AuthFromJWT { from_claims: claims, verified: true })
    } else {
        Err(AuthFailure::CannotAuthenticate)
    }
}

/// The claimed user id as a UUID's 128-bit value, or `None` when it is not a
/// UUID.
pub fn claims_user_uuid(claims: &AuthClaims) -> (r: Option<u128>)
    ensures
        r == uuid_value(claims.user_id@),
{
    parse_uuid(claims.user_id.as_str())
}

} // verus!
