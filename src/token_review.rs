use vstd::prelude::*;
use vstd::string::StringExecFns;

use crate::authenticators::authenticator::strings_view;
use crate::authenticators::authenticator::AuthResult;

verus! {

/// A token-review request: the token to decide on, in `spec`.
#[allow(non_snake_case)]
pub struct TokenRequest {
    pub apiVersion: String,
    pub kind: String,
    pub spec: TokenReviewRequestSpec,
}

/// The part of a token-review request that carries the token.
#[derive(Clone)]
pub struct TokenReviewRequestSpec {
    pub token: String,
}

/// A token-review response.
pub struct TokenReviewResponse {
    pub api_version: String,
    pub kind: String,
    pub status: TokenReviewResponseStatus,
}

/// The decision of a token-review response.
pub struct TokenReviewResponseStatus {
    pub authenticated: bool,
    pub user: TokenReviewResponseUser,
}

/// The principal of a token-review response.
pub struct TokenReviewResponseUser {
    pub username: String,
    pub uid: String,
    pub groups: Vec<String>,
}

/// HTTP status of an accepted review.
pub const STATUS_OK: u16 = 200;

/// HTTP status of a refused review.
pub const STATUS_UNAUTHORIZED: u16 = 401;

/// A response of the token-review protocol's version and kind, with this
/// decision, name and groups; the uid is the name.
pub open spec fn is_review(
    r: TokenReviewResponse,
    authenticated: bool,
    username: Seq<char>,
    groups: Seq<Seq<char>>,
) -> bool {
    &&& r.api_version@ == "authentication.k8s.io/v1"@
    &&& r.kind@ == "TokenReview"@
    &&& r.status.authenticated == authenticated
    &&& r.status.user.username@ == username
    &&& r.status.user.uid@ == username
    &&& strings_view(r.status.user.groups@) == groups
}

/// The refusal: not authenticated, empty name and uid, no groups.
pub fn default_token_review_response() -> (r: TokenReviewResponse)
    ensures
        is_review(r, false, Seq::empty(), Seq::empty()),
{
    let r = TokenReviewResponse {
        api_version: String::from_str("authentication.k8s.io/v1"),
        kind: String::from_str("TokenReview"),
        status: TokenReviewResponseStatus {
            authenticated: false,
            user: TokenReviewResponseUser {
                username: String::new(),
                uid: String::new(),
                groups: Vec::new(),
            },
        },
    };
    assert(strings_view(r.status.user.groups@) =~= Seq::<Seq<char>>::empty());
    r
}

/// An acceptance of `username` with `groups`.
pub fn token_review_response(username: &str, groups: Vec<String>) -> (r: TokenReviewResponse)
    ensures
        is_review(r, true, username@, strings_view(groups@)),
{
    TokenReviewResponse {
        api_version: String::from_str("authentication.k8s.io/v1"),
        kind: String::from_str("TokenReview"),
        status: TokenReviewResponseStatus {
            authenticated: true,
            user: TokenReviewResponseUser {
                username: String::from_str(username),
                uid: String::from_str(username),
                groups,
            },
        },
    }
}

/// The HTTP status and response body for a decision: 200 with the
/// principal and its groups when accepted, 401 with the refusal otherwise.
pub fn review_outcome(result: AuthResult) -> (r: (u16, TokenReviewResponse))
    ensures
        result.0 ==> r.0 == STATUS_OK && is_review(r.1, true, result.1@, strings_view(result.2@)),
        !result.0 ==> r.0 == STATUS_UNAUTHORIZED && is_review(
            r.1,
            false,
            Seq::empty(),
            Seq::empty(),
        ),
{
    let (authenticated, username, groups) = result;
    if authenticated {
        (STATUS_OK, token_review_response(username.as_str(), groups))
    } else {
        (STATUS_UNAUTHORIZED, default_token_review_response())
    }
}

} // verus!
