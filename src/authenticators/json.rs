use vstd::prelude::*;
use vstd::string::StringExecFns;

use argon2::PasswordVerifier;

use crate::authenticators::authenticator::deny;
use crate::authenticators::authenticator::denial;
use crate::authenticators::authenticator::result_view;
use crate::authenticators::authenticator::strings_view;
use crate::authenticators::authenticator::AuthResult;
use crate::authenticators::authenticator::Authenticator;
use crate::authenticators::token::lemma_malformed_token;
use crate::authenticators::token::split_token;
use crate::authenticators::token::token_parts;

verus! {

/// Whether `secret`, hashed with the algorithm, parameters and salt that the
/// PHC string `digest` records, gives the digest's output.
pub uninterp spec fn argon2_verifies(secret: Seq<char>, digest: Seq<char>) -> bool;

pub open spec fn is_ascii_digit(c: char) -> bool {
    '0' <= c && c <= '9'
}

/// A `p=` parameter (the parallelism of an argon2 digest) starts at `i`: a
/// PHC parameter opens after a `$` or a `,`.
pub open spec fn lanes_field_at(d: Seq<char>, i: int) -> bool {
    &&& 0 <= i
    &&& i + 1 < d.len()
    &&& d[i] == 'p'
    &&& d[i + 1] == '='
    &&& (i == 0 || d[i - 1] == '$' || d[i - 1] == ',')
}

/// Nine digits in a row start at `j`.
pub open spec fn nine_digits_at(d: Seq<char>, j: int) -> bool {
    &&& 0 <= j
    &&& j + 9 <= d.len()
    &&& forall|k: int| 0 <= k < 9 ==> is_ascii_digit(#[trigger] d[j + k])
}

/// No `p=` parameter of the digest has nine digits or more. A decimal of
/// PHC has no leading zero, so each `p` value is then below 10^8: below
/// 2^29, where argon2's parameter check would overflow, and any value of
/// nine digits is above the largest parallelism that argon2 takes.
pub open spec fn lanes_bounded(d: Seq<char>) -> bool {
    forall|i: int| lanes_field_at(d, i) ==> !nine_digits_at(d, i + 2)
}

/// Whether the digest's parallelism parameters are bounded, as above.
fn lanes_within_bound(digest: &str) -> (r: bool)
    ensures
        r == lanes_bounded(digest@),
{
    let ghost d = digest@;
    let n = digest.unicode_len();
    let mut i: usize = 0;
    while i < n
        invariant
            n == d.len(),
            d == digest@,
            i <= n,
            forall|k: int| 0 <= k < i && lanes_field_at(d, k) ==> !nine_digits_at(d, k + 2),
        decreases n - i,
    {
        if i + 1 < n && digest.get_char(i) == 'p' && digest.get_char(i + 1) == '=' && (i == 0
            || digest.get_char(i - 1) == '$' || digest.get_char(i - 1) == ',') {
            assert(lanes_field_at(d, i as int));
            if n - i >= 11 {
                let mut k: usize = 0;
                while k < 9 && ('0' <= digest.get_char(i + 2 + k) && digest.get_char(i + 2 + k)
                    <= '9')
                    invariant
                        n == d.len(),
                        d == digest@,
                        i + 11 <= n,
                        k <= 9,
                        forall|m: int| 0 <= m < k ==> is_ascii_digit(#[trigger] d[i + 2 + m]),
                    decreases 9 - k,
                {
                    k = k + 1;
                }
                if k == 9 {
                    assert(forall|m: int| 0 <= m < 9 ==> is_ascii_digit(#[trigger] d[i + 2 + m]));
                    assert(nine_digits_at(d, i + 2));
                    return false;
                }
                assert(!is_ascii_digit(d[i + 2 + k]));
            }
        }
        i = i + 1;
    }
    true
}

/// Relies on argon2's `PasswordHash::new`, which reads a PHC string, and
/// `PasswordVerifier::verify_password` on `Argon2`, which hashes the secret
/// with the algorithm, version, parameters and salt read from the digest and
/// compares the outputs. A digest that does not parse, or that names another
/// algorithm, verifies no secret. No fresh salt is drawn, so the answer
/// depends on the two strings alone. A `p` parameter of 2^29 or more would
/// overflow in argon2's `Params::new`, so such digests are left out.
#[verifier::external_body]
fn verify_password_hash(secret: &str, digest: &str) -> (r: bool)
    requires
        lanes_bounded(digest@),
    ensures
        r == argon2_verifies(secret@, digest@),
{
    match argon2::PasswordHash::new(digest) {
        Ok(hash) => argon2::Argon2::default().verify_password(secret.as_bytes(), &hash).is_ok(),
        Err(_) => false,
    }
}

/// A principal of the credential store.
pub struct User {
    pub username: String,
    pub password: String,
    pub groups: Vec<String>,
}

/// What the store holds for a principal: its stored secret and its groups.
pub open spec fn user_view(u: User) -> (Seq<char>, Seq<Seq<char>>) {
    (u.password@, strings_view(u.groups@))
}

/// The store that a list of records makes: a later record of a name
/// replaces an earlier one.
pub open spec fn store_of(us: Seq<User>) -> Map<Seq<char>, (Seq<char>, Seq<Seq<char>>)>
    decreases us.len(),
{
    if us.len() == 0 {
        Map::empty()
    } else {
        store_of(us.drop_last()).insert(us.last().username@, user_view(us.last()))
    }
}

/// The record that the store keeps for a name is its last one.
pub proof fn lemma_store_of_last(us: Seq<User>, name: Seq<char>, i: int)
    requires
        0 <= i < us.len(),
        us[i].username@ == name,
        forall|j: int| i < j < us.len() ==> us[j].username@ != name,
    ensures
        store_of(us).contains_key(name),
        store_of(us)[name] == user_view(us[i]),
    decreases us.len(),
{
    if i < us.len() - 1 {
        lemma_store_of_last(us.drop_last(), name, i);
    }
}

/// A name without a record is not in the store.
pub proof fn lemma_store_of_absent(us: Seq<User>, name: Seq<char>)
    requires
        forall|j: int| 0 <= j < us.len() ==> us[j].username@ != name,
    ensures
        !store_of(us).contains_key(name),
    decreases us.len(),
{
    if us.len() > 0 {
        lemma_store_of_absent(us.drop_last(), name);
    }
}

/// Whether a supplied secret matches a stored one: byte for byte, or, with
/// hashing, by verification against the stored digest, which must keep its
/// parallelism within bounds.
pub open spec fn secret_matches(hashed: bool, secret: Seq<char>, stored: Seq<char>) -> bool {
    if hashed {
        lanes_bounded(stored) && argon2_verifies(secret, stored)
    } else {
        secret == stored
    }
}

/// The decision on `principal` once its secret has been checked.
pub open spec fn local_verdict(
    store: Map<Seq<char>, (Seq<char>, Seq<Seq<char>>)>,
    principal: Seq<char>,
    verified: bool,
) -> (bool, Seq<char>, Seq<Seq<char>>) {
    if verified && store.contains_key(principal) {
        (true, principal, store[principal].1)
    } else {
        denial()
    }
}

/// The decision of the local authenticator on a token.
pub open spec fn local_outcome(
    store: Map<Seq<char>, (Seq<char>, Seq<Seq<char>>)>,
    hashed: bool,
    t: Seq<char>,
) -> (bool, Seq<char>, Seq<Seq<char>>) {
    match token_parts(t) {
        None => denial(),
        Some((p, s)) => local_verdict(
            store,
            p,
            store.contains_key(p) && secret_matches(hashed, s, store[p].0),
        ),
    }
}

/// Authenticates against a credential store loaded at start.
pub struct JsonAuthenticator {
    pub users: Vec<User>,
    pub hashed_pw: bool,
}

impl JsonAuthenticator {
    /// What the authenticator holds, by principal.
    pub open spec fn store(&self) -> Map<Seq<char>, (Seq<char>, Seq<Seq<char>>)> {
        store_of(self.users@)
    }

    /// An authenticator over `users`, where a later record of a name
    /// replaces an earlier one; `hashed_pw` selects hashed comparison.
    pub fn new(users: Vec<User>, hashed_pw: bool) -> (r: Self)
        ensures
            r.store() == store_of(users@),
            r.hashed_pw == hashed_pw,
    {
        JsonAuthenticator { users, hashed_pw }
    }

    /// The position of the record that counts for `name`: its last one.
    fn find_user(&self, name: &String) -> (r: Option<usize>)
        ensures
            match r {
                Some(i) => i < self.users@.len() && self.users@[i as int].username@ == name@ && self.store().contains_key(name@)
                    && self.store()[name@] == user_view(self.users@[i as int]),
                None => !self.store().contains_key(name@),
            },
    {
        let mut k: usize = self.users.len();
        while k > 0
            invariant
                k <= self.users@.len(),
                forall|j: int| k <= j < self.users@.len() ==> self.users@[j].username@ != name@,
            decreases k,
        {
            if self.users[k - 1].username == *name {
                proof {
                    lemma_store_of_last(self.users@, name@, k - 1);
                }
                return Some(k - 1);
            }
            k = k - 1;
        }
        proof {
            lemma_store_of_absent(self.users@, name@);
        }
        None
    }

    /// The decision on `principal` once the check of its secret has given
    /// `verified`: acceptance with the stored groups when the principal is in
    /// the store and the secret verified, else the refusal.
    pub fn conclude(&self, principal: String, verified: bool) -> (r: AuthResult)
        ensures
            result_view(r) == local_verdict(self.store(), principal@, verified),
    {
        if !verified {
            return deny();
        }
        match self.find_user(&principal) {
            Some(i) => {
                let groups = self.users[i].groups.clone();
                assert(strings_view(groups@) =~= strings_view(self.users@[i as int].groups@));
                (true, principal, groups)
            },
            None => deny(),
        }
    }

    /// Decides on a `principal:secret` token: accepted, with the stored
    /// groups, when the principal is in the store and the secret matches its
    /// stored one; refused otherwise.
    pub fn decide(&self, token: &str) -> (r: AuthResult)
        ensures
            result_view(r) == local_outcome(self.store(), self.hashed_pw, token@),
    {
        match split_token(token) {
            None => deny(),
            Some((username, password)) => match self.find_user(&username) {
                None => deny(),
                Some(i) => {
                    let stored = &self.users[i].password;
                    let verified = if self.hashed_pw {
                        lanes_within_bound(stored.as_str()) && verify_password_hash(
                            password.as_str(),
                            stored.as_str(),
                        )
                    } else {
                        *stored == password
                    };
                    self.conclude(username, verified)
                },
            },
        }
    }
}

/// Whether the values given for the hashing option turn hashed comparison
/// on: the first of them must be `true`.
pub fn hashed_option(values: Option<&Vec<String>>) -> (r: bool)
    ensures
        r == (values is Some && values->0@.len() > 0 && values->0@[0]@ == "true"@),
{
    match values {
        Some(v) => v.len() > 0 && v[0] == String::from_str("true"),
        None => false,
    }
}

/// The credential-store path among the values given for its option: the
/// first; none when the option is missing or has no value.
pub fn users_file_option(values: Option<&Vec<String>>) -> (r: Option<String>)
    ensures
        match r {
            Some(path) => values is Some && values->0@.len() > 0 && path == values->0@[0],
            None => values is None || values->0@.len() == 0,
        },
{
    match values {
        Some(v) => if v.len() > 0 {
            Some(v[0].clone())
        } else {
            None
        },
        None => None,
    }
}

impl Authenticator for JsonAuthenticator {
    fn auth(&self, token: &str) -> (r: AuthResult)
        ensures
            result_view(r) == local_outcome(self.store(), self.hashed_pw, token@),
    {
        self.decide(token)
    }
}

} // verus!

verus! {

/// The local authenticator refuses a token without a colon or with an empty
/// principal, with the canonical refusal.
pub proof fn lemma_malformed_tokens_refused(
    store: Map<Seq<char>, (Seq<char>, Seq<Seq<char>>)>,
    hashed: bool,
    t: Seq<char>,
)
    requires
        (forall|i: int| 0 <= i < t.len() ==> t[i] != ':') || (t.len() > 0 && t[0] == ':'),
    ensures
        local_outcome(store, hashed, t) == denial(),
{
    lemma_malformed_token(t);
}

/// A principal that the store does not hold is refused.
pub proof fn lemma_unknown_principal_refused(
    store: Map<Seq<char>, (Seq<char>, Seq<Seq<char>>)>,
    hashed: bool,
    t: Seq<char>,
)
    requires
        token_parts(t) is Some,
        !store.contains_key((token_parts(t)->0).0),
    ensures
        local_outcome(store, hashed, t) == denial(),
{
}

/// With plaintext comparison, a well-formed token of a stored principal is
/// accepted, with its stored groups, exactly when its secret equals the
/// stored one character for character; else it gets the refusal.
pub proof fn lemma_plaintext_comparison(
    store: Map<Seq<char>, (Seq<char>, Seq<Seq<char>>)>,
    t: Seq<char>,
)
    requires
        token_parts(t) is Some,
        store.contains_key((token_parts(t)->0).0),
    ensures
        ({
            let (p, s) = token_parts(t)->0;
            if s == store[p].0 {
                local_outcome(store, false, t) == (true, p, store[p].1)
            } else {
                local_outcome(store, false, t) == denial()
            }
        }),
{
}

/// With hashed comparison, a well-formed token of a stored principal is
/// accepted, with its stored groups, exactly when its secret verifies
/// against the stored digest with that digest's own salt (a digest whose
/// parallelism is out of argon2's range verifies nothing); the decision is a
/// function of the store and the token, so two checks of the same token
/// agree.
pub proof fn lemma_hashed_comparison(
    store: Map<Seq<char>, (Seq<char>, Seq<Seq<char>>)>,
    t: Seq<char>,
    first: AuthResult,
    second: AuthResult,
)
    requires
        token_parts(t) is Some,
        store.contains_key((token_parts(t)->0).0),
        result_view(first) == local_outcome(store, true, t),
        result_view(second) == local_outcome(store, true, t),
    ensures
        ({
            let (p, s) = token_parts(t)->0;
            if lanes_bounded(store[p].0) && argon2_verifies(s, store[p].0) {
                local_outcome(store, true, t) == (true, p, store[p].1)
            } else {
                local_outcome(store, true, t) == denial()
            }
        }),
        result_view(first) == result_view(second),
{
}

} // verus!
