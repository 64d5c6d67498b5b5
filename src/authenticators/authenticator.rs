use vstd::prelude::*;

use crate::authenticators::token::token_parts;

verus! {

/// What an authenticator decides: whether the token was accepted, the
/// principal's name and its groups.
pub type AuthResult = (bool, String, Vec<String>);

/// View of a list of strings.
pub open spec fn strings_view(v: Seq<String>) -> Seq<Seq<char>> {
    v.map_values(|s: String| s@)
}

/// View of a decision.
pub open spec fn result_view(r: AuthResult) -> (bool, Seq<char>, Seq<Seq<char>>) {
    (r.0, r.1@, strings_view(r.2@))
}

/// The one value that every refusal has: not accepted, no name, no groups.
pub open spec fn denial() -> (bool, Seq<char>, Seq<Seq<char>>) {
    (false, Seq::empty(), Seq::empty())
}

pub open spec fn is_denial(r: AuthResult) -> bool {
    result_view(r) == denial()
}

/// An acceptance of `principal` with `groups`.
pub open spec fn is_acceptance(r: AuthResult, principal: Seq<char>, groups: Seq<Seq<char>>) -> bool {
    result_view(r) == (true, principal, groups)
}

/// The refusal.
pub fn deny() -> (r: AuthResult)
    ensures
        is_denial(r),
{
    let r = (false, String::new(), Vec::new());
    assert(strings_view(r.2@) =~= Seq::<Seq<char>>::empty());
    r
}

/// A backend that decides on a `principal:secret` token.
pub trait Authenticator {
    /// Decides on `token`. A malformed token is refused, every refusal is the
    /// canonical one, and an acceptance names the token's principal.
    fn auth(&self, token: &str) -> (r: AuthResult)
        ensures
            token_parts(token@) is None ==> is_denial(r),
            r.0 || is_denial(r),
            r.0 ==> token_parts(token@) is Some && r.1@ == (token_parts(token@)->0).0,
    ;
}

} // verus!
