use vstd::prelude::*;

verus! {

/// `uuid::Error`, carried through as an opaque value.
#[verifier::external_type_specification]
#[verifier::external_body]
pub struct ExUuidError(uuid::Error);

/// The 128-bit value of the UUID that a text spells, in the forms that
/// `uuid::Uuid::try_parse` reads; `None` for a text that it refuses.
pub uninterp spec fn parsed_uuid(text: Seq<char>) -> Option<u128>;

/// Calls `uuid::Uuid::try_parse` and reads the result with `as_u128`.
/// Trusted: the outcome is the one that [`parsed_uuid`] names.
#[verifier::external_body]
fn parse_uuid(input: &str) -> (r: Result<u128, uuid::Error>)
    ensures
        r is Ok <==> parsed_uuid(input@) is Some,
        r is Ok ==> parsed_uuid(input@) == Some(r->Ok_0),
{
    match uuid::Uuid::try_parse(input) {
        Ok(id) => Ok(id.as_u128()),
        Err(error) => Err(error),
    }
}

/// Calls `uuid::Uuid::new_v4` and reads the result with `as_u128`.
/// Trusted: whatever the random bits, the value carries version 4 and the
/// RFC 4122 variant.
#[verifier::external_body]
fn random_uuid() -> (value: u128)
    ensures
        is_random_uuid(value),
{
    uuid::Uuid::new_v4().as_u128()
}

/// Whether the version and variant bits of a UUID mark it as random:
/// version 4, variant RFC 4122.
pub open spec fn is_random_uuid(value: u128) -> bool {
    value & 0xF000_C000_0000_0000_0000u128 == 0x4000_8000_0000_0000_0000u128
}

/// Why a request was not accepted as coming from an account.
#[derive(Clone, Copy, Debug, PartialEq, Eq, Hash, Structural)]
pub enum AuthRejection {
    /// The request carries no token, or one that is no UUID.
    TokenInvalidOrMissing,
    /// The token is a UUID, but no account is known by it.
    TokenUnknown,
}

impl AuthRejection {
    /// The HTTP status that answers the request: 401, unauthorized.
    pub fn status(&self) -> (code: u16)
        ensures
            code == 401,
    {
        401
    }

    /// The text that answers the request.
    pub fn message(&self) -> (text: &'static str)
        ensures
            text@ == self.message_text(),
    {
        match self {
            AuthRejection::TokenInvalidOrMissing => "Auth token invalid or missing",
            AuthRejection::TokenUnknown => "Auth token is not in the database",
        }
    }

    /// The text that [`AuthRejection::message`] returns.
    pub open spec fn message_text(&self) -> Seq<char> {
        match self {
            AuthRejection::TokenInvalidOrMissing => "Auth token invalid or missing"@,
            AuthRejection::TokenUnknown => "Auth token is not in the database"@,
        }
    }
}

/// The token by which a client proves that it acts for an account: a UUID,
/// held as its 128-bit value.
#[derive(Clone, Copy, Debug, PartialEq, Eq, Hash, Structural)]
pub struct AuthToken(pub u128);

impl View for AuthToken {
    type V = u128;

    open spec fn view(&self) -> u128 {
        self.0
    }
}

impl AuthToken {
    /// A fresh random token.
    pub fn new() -> (token: AuthToken)
        ensures
            is_random_uuid(token@),
    {
        AuthToken(random_uuid())
    }

    /// The token that `input` spells, or `TokenInvalidOrMissing` when
    /// `input` spells no UUID.
    pub fn try_parse(input: &str) -> (r: Result<AuthToken, AuthRejection>)
        ensures
            r == AuthToken::parsed(parsed_uuid(input@)),
    {
        let outcome = parse_uuid(input);
        let value: Option<u128> = match outcome {
            Ok(value) => Some(value),
            Err(_) => None,
        };
        AuthToken::from_parsed(value)
    }

    /// The token for the outcome of reading a UUID.
    pub fn from_parsed(value: Option<u128>) -> (r: Result<AuthToken, AuthRejection>)
        ensures
            r == AuthToken::parsed(value),
    {
        match value {
            Some(value) => Ok(AuthToken(value)),
            None => Err(AuthRejection::TokenInvalidOrMissing),
        }
    }

    /// What [`AuthToken::from_parsed`] returns: the token of the value, or
    /// `TokenInvalidOrMissing` where there is none.
    pub open spec fn parsed(value: Option<u128>) -> Result<AuthToken, AuthRejection> {
        match value {
            Some(value) => Ok(AuthToken(value)),
            None => Err(AuthRejection::TokenInvalidOrMissing),
        }
    }
}

/// The token that a request carries in its token header, of which `header`
/// is the value, if the request has that header and its value is text.
/// `TokenInvalidOrMissing` when there is no such value or it spells no
/// UUID.
pub fn get_auth_token(header: Option<&str>) -> (r: Result<AuthToken, AuthRejection>)
    ensures
        match header {
            Some(text) => r == AuthToken::parsed(parsed_uuid(text@)),
            None => r == Err::<AuthToken, AuthRejection>(AuthRejection::TokenInvalidOrMissing),
        },
{
    match header {
        Some(text) => AuthToken::try_parse(text),
        None => Err(AuthRejection::TokenInvalidOrMissing),
    }
}

/// The account on whose behalf a request is made, by its id.
#[derive(Clone, Copy, Debug, PartialEq, Eq, Hash, Structural)]
pub struct Authentication(pub i64);

impl Authentication {
    /// Accepts a request whose token belongs to the account `account`;
    /// `TokenUnknown` when the token belongs to none.
    pub fn from_account(account: Option<i64>) -> (r: Result<Authentication, AuthRejection>)
        ensures
            r == match account {
                Some(id) => Ok::<Authentication, AuthRejection>(Authentication(id)),
                None => Err::<Authentication, AuthRejection>(AuthRejection::TokenUnknown),
            },
    {
        match account {
            Some(id) => Ok(Authentication(id)),
            None => Err(AuthRejection::TokenUnknown),
        }
    }
}

} // verus!
