use vstd::prelude::*;
use vstd::string::StrSliceExecFns;
use vstd::string::StringExecFns;

verus! {

/// `i` is the position of the first `:` of `t`.
pub open spec fn is_first_colon(t: Seq<char>, i: int) -> bool {
    &&& 0 <= i < t.len()
    &&& t[i] == ':'
    &&& forall|j: int| 0 <= j < i ==> t[j] != ':'
}

/// The principal and the secret of a token: the text before and after its
/// first `:`, both non-empty. A token without a colon, or with an empty
/// principal or secret, has none.
pub open spec fn token_parts(t: Seq<char>) -> Option<(Seq<char>, Seq<char>)> {
    if exists|i: int| is_first_colon(t, i) {
        let i = choose|i: int| is_first_colon(t, i);
        let principal = t.subrange(0, i);
        let secret = t.subrange(i + 1, t.len() as int);
        if principal.len() > 0 && secret.len() > 0 {
            Some((principal, secret))
        } else {
            None
        }
    } else {
        None
    }
}

/// Splits a token on its first colon into principal and secret.
pub fn split_token(token: &str) -> (r: Option<(String, String)>)
    ensures
        match r {
            Some((p, s)) => token_parts(token@) == Some((p@, s@)),
            None => token_parts(token@) is None,
        },
{
    let n = token.unicode_len();
    let mut i: usize = 0;
    while i < n
        invariant
            n == token@.len(),
            i <= n,
            forall|j: int| 0 <= j < i ==> token@[j] != ':',
        decreases n - i,
    {
        if token.get_char(i) == ':' {
            proof {
                let t = token@;
                assert(is_first_colon(t, i as int));
                assert forall|k: int| is_first_colon(t, k) implies k == i as int by {
                    if k < i {
                        assert(t[k] != ':');
                    } else if k > i {
                        assert(t[i as int] != ':');
                    }
                }
            }
            if i == 0 || i + 1 == n {
                return None;
            }
            let principal = String::from_str(token.substring_char(0, i));
            let secret = String::from_str(token.substring_char(i + 1, n));
            return Some((principal, secret));
        }
        i = i + 1;
    }
    None
}

} // verus!

verus! {

/// A token without a colon, or whose principal before the first colon is
/// empty, has no parts.
pub proof fn lemma_malformed_token(t: Seq<char>)
    requires
        (forall|i: int| 0 <= i < t.len() ==> t[i] != ':') || (t.len() > 0 && t[0] == ':'),
    ensures
        token_parts(t) is None,
{
    if exists|i: int| is_first_colon(t, i) {
        let i = choose|i: int| is_first_colon(t, i);
        if t.len() > 0 && t[0] == ':' {
            assert(i == 0);
        }
    }
}

} // verus!
