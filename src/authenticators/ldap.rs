use vstd::prelude::*;
use vstd::string::StrSliceExecFns;
use vstd::string::StringExecFns;

use crate::authenticators::authenticator::deny;
use crate::authenticators::authenticator::is_acceptance;
use crate::authenticators::authenticator::is_denial;
use crate::authenticators::authenticator::strings_view;
use crate::authenticators::authenticator::AuthResult;
use crate::authenticators::token::lemma_malformed_token;
use crate::authenticators::token::split_token;
use crate::authenticators::token::token_parts;

verus! {

/// Settings of the directory-service authenticator.
pub struct LdapAuthenticator {
    pub ldap_server_url: String,
    pub service_account_username: String,
    pub service_account_password: String,
    pub base_dn: String,
    pub filter: String,
}

/// The first index at or after `k` at which `s` holds `c`, or -1.
pub open spec fn index_of_from(s: Seq<char>, c: char, k: int) -> int
    decreases s.len() - k,
{
    if k < 0 || k >= s.len() {
        -1
    } else if s[k] == c {
        k
    } else {
        index_of_from(s, c, k + 1)
    }
}

/// View of a list of named values.
pub open spec fn vars_view(v: Seq<(String, String)>) -> Seq<(Seq<char>, Seq<char>)> {
    v.map_values(|p: (String, String)| (p.0@, p.1@))
}

/// The value of the first variable called `name`; nothing for an unknown name.
pub open spec fn var_value(vars: Seq<(Seq<char>, Seq<char>)>, name: Seq<char>) -> Seq<char>
    decreases vars.len(),
{
    if vars.len() == 0 {
        Seq::empty()
    } else if vars[0].0 == name {
        vars[0].1
    } else {
        var_value(vars.subrange(1, vars.len() as int), name)
    }
}

/// A filter template with every `${name}` replaced by the variable's value.
/// An unknown name is replaced by nothing, and so is an unterminated
/// placeholder with all that follows it; all other text, a `$` that does
/// not open a placeholder included, is kept.
pub open spec fn expand(f: Seq<char>, vars: Seq<(Seq<char>, Seq<char>)>) -> Seq<char>
    decreases f.len(),
{
    if f.len() == 0 {
        Seq::empty()
    } else if f[0] != '$' {
        seq![f[0]] + expand(f.subrange(1, f.len() as int), vars)
    } else if f.len() == 1 || f[1] != '{' {
        seq!['$'] + expand(f.subrange(1, f.len() as int), vars)
    } else {
        let j = index_of_from(f, '}', 2);
        if 2 <= j < f.len() {
            var_value(vars, f.subrange(2, j)) + expand(f.subrange(j + 1, f.len() as int), vars)
        } else {
            Seq::empty()
        }
    }
}

fn lookup_var(vars: &Vec<(String, String)>, name: &String) -> (r: String)
    ensures
        r@ == var_value(vars_view(vars@), name@),
{
    let ghost whole = vars_view(vars@);
    let mut k: usize = 0;
    assert(whole.subrange(0, whole.len() as int) =~= whole);
    while k < vars.len()
        invariant
            k <= vars.len(),
            whole == vars_view(vars@),
            var_value(whole, name@) == var_value(whole.subrange(k as int, whole.len() as int), name@),
        decreases vars.len() - k,
    {
        let ghost rest = whole.subrange(k as int, whole.len() as int);
        assert(rest.subrange(1, rest.len() as int) =~= whole.subrange(k + 1, whole.len() as int));
        if vars[k].0 == *name {
            return vars[k].1.clone();
        }
        k = k + 1;
    }
    String::new()
}

/// Replaces each `${name}` of a filter template by the value that `vars`
/// gives the name.
pub fn replace_vars(filter: &str, vars: &Vec<(String, String)>) -> (r: String)
    ensures
        r@ == expand(filter@, vars_view(vars@)),
{
    let ghost f = filter@;
    let ghost vs = vars_view(vars@);
    let n = filter.unicode_len();
    let mut result = String::new();
    let mut i: usize = 0;
    assert(f.subrange(0, n as int) =~= f);
    assert(result@ + expand(f, vs) =~= expand(f, vs));
    while i < n
        invariant
            n == f.len(),
            f == filter@,
            vs == vars_view(vars@),
            i <= n,
            result@ + expand(f.subrange(i as int, n as int), vs) == expand(f, vs),
        decreases n - i,
    {
        let ghost rest = f.subrange(i as int, n as int);
        let c = filter.get_char(i);
        if c != '$' {
            assert(rest.subrange(1, rest.len() as int) =~= f.subrange(i + 1, n as int));
            result.append(filter.substring_char(i, i + 1));
            assert(result@ + expand(f.subrange(i + 1, n as int), vs) =~= expand(f, vs));
            i = i + 1;
        } else if i + 1 == n || filter.get_char(i + 1) != '{' {
            proof {
                reveal_strlit("$");
            }
            assert(rest.subrange(1, rest.len() as int) =~= f.subrange(i + 1, n as int));
            result.append("$");
            assert(result@ + expand(f.subrange(i + 1, n as int), vs) =~= expand(f, vs));
            i = i + 1;
        } else {
            let mut j: usize = i + 2;
            while j < n && filter.get_char(j) != '}'
                invariant
                    n == f.len(),
                    f == filter@,
                    i + 2 <= j <= n,
                    rest == f.subrange(i as int, n as int),
                    index_of_from(rest, '}', 2) == index_of_from(rest, '}', j - i),
                decreases n - j,
            {
                j = j + 1;
            }
            if j == n {
                assert(index_of_from(rest, '}', (j - i) as int) == -1);
                assert(expand(rest, vs) == Seq::<char>::empty());
                assert(result@ + expand(f.subrange(n as int, n as int), vs) =~= expand(f, vs));
                i = n;
            } else {
                assert(index_of_from(rest, '}', (j - i) as int) == j - i);
                let name = String::from_str(filter.substring_char(i + 2, j));
                assert(name@ =~= rest.subrange(2, j - i));
                let value = lookup_var(vars, &name);
                result.append(value.as_str());
                assert(rest.subrange(j - i + 1, rest.len() as int) =~= f.subrange(
                    j + 1,
                    n as int,
                ));
                assert(result@ + expand(f.subrange(j + 1, n as int), vs) =~= expand(f, vs));
                i = j + 1;
            }
        }
    }
    assert(f.subrange(n as int, n as int) =~= Seq::<char>::empty());
    assert(result@ =~= expand(f, vs));
    result
}

} // verus!

verus! {

pub open spec fn is_ascii_alphanumeric(c: char) -> bool {
    ('0' <= c && c <= '9') || ('A' <= c && c <= 'Z') || ('a' <= c && c <= 'z')
}

/// Every character of `s` is an ASCII letter or digit.
pub open spec fn alphanumeric(s: Seq<char>) -> bool {
    forall|i: int| 0 <= i < s.len() ==> is_ascii_alphanumeric(#[trigger] s[i])
}

/// The value of a distinguished-name component whose key is `ou`.
pub open spec fn ou_value(c: Seq<char>) -> Option<Seq<char>> {
    if c.len() >= 3 && c[0] == 'o' && c[1] == 'u' && c[2] == '=' {
        Some(c.subrange(3, c.len() as int))
    } else {
        None
    }
}

/// The pieces of `s` between the separators `sep`; one more than there are
/// separators.
pub open spec fn split_on(s: Seq<char>, sep: char) -> Seq<Seq<char>>
    decreases s.len(),
{
    if s.len() == 0 {
        seq![Seq::empty()]
    } else {
        let rest = split_on(s.drop_last(), sep);
        if s.last() == sep {
            rest.push(Seq::empty())
        } else {
            rest.update(rest.len() - 1, rest.last().push(s.last()))
        }
    }
}

pub proof fn lemma_split_on_len(s: Seq<char>, sep: char)
    ensures
        split_on(s, sep).len() >= 1,
    decreases s.len(),
{
    if s.len() > 0 {
        lemma_split_on_len(s.drop_last(), sep);
    }
}

/// The values of the `ou` components, in order.
pub open spec fn ou_values(cs: Seq<Seq<char>>) -> Seq<Seq<char>>
    decreases cs.len(),
{
    if cs.len() == 0 {
        Seq::empty()
    } else {
        let front = ou_values(cs.drop_last());
        match ou_value(cs.last()) {
            Some(v) => front.push(v),
            None => front,
        }
    }
}

/// The groups that a distinguished name names: the value of each of its
/// comma-separated components whose key is `ou`, in order.
pub open spec fn dn_groups(dn: Seq<char>) -> Seq<Seq<char>> {
    ou_values(split_on(dn, ','))
}

impl LdapAuthenticator {
    /// Whether `username` holds only ASCII letters and digits, so that it
    /// can stand in a directory query as it is.
    pub fn contains_only_alphanumeric(username: String) -> (r: bool)
        ensures
            r == alphanumeric(username@),
    {
        let s = username.as_str();
        let n = s.unicode_len();
        let mut i: usize = 0;
        while i < n
            invariant
                n == username@.len(),
                s@ == username@,
                i <= n,
                forall|j: int| 0 <= j < i ==> is_ascii_alphanumeric(#[trigger] username@[j]),
            decreases n - i,
        {
            let c = s.get_char(i);
            if !(('0' <= c && c <= '9') || ('A' <= c && c <= 'Z') || ('a' <= c && c <= 'z')) {
                return false;
            }
            i = i + 1;
        }
        true
    }
}

/// The `ou` values of a distinguished name, in order.
pub fn groups_from_dn(dn: &str) -> (r: Vec<String>)
    ensures
        strings_view(r@) == dn_groups(dn@),
{
    let ghost d = dn@;
    let n = dn.unicode_len();
    let mut groups: Vec<String> = Vec::new();
    let mut start: usize = 0;
    let mut i: usize = 0;
    assert(d.subrange(0, 0) =~= Seq::<char>::empty());
    assert(strings_view(groups@) =~= Seq::<Seq<char>>::empty());
    while i < n
        invariant
            n == d.len(),
            d == dn@,
            start <= i <= n,
            split_on(d.subrange(0, i as int), ',').last() == d.subrange(start as int, i as int),
            strings_view(groups@) == ou_values(split_on(d.subrange(0, i as int), ',').drop_last()),
        decreases n - i,
    {
        let ghost pre = d.subrange(0, i as int);
        let ghost next = d.subrange(0, i + 1);
        assert(next.drop_last() =~= pre);
        proof {
            lemma_split_on_len(pre, ',');
        }
        let c = dn.get_char(i);
        if c == ',' {
            let ghost parts = split_on(pre, ',');
            let ghost comp = d.subrange(start as int, i as int);
            assert(split_on(next, ',') == parts.push(Seq::<char>::empty()));
            assert(split_on(next, ',').drop_last() =~= parts);
            assert(parts =~= parts.drop_last().push(comp));
            if i - start >= 3 && dn.get_char(start) == 'o' && dn.get_char(start + 1) == 'u'
                && dn.get_char(start + 2) == '=' {
                let v = String::from_str(dn.substring_char(start + 3, i));
                assert(v@ =~= comp.subrange(3, comp.len() as int));
                groups.push(v);
                assert(strings_view(groups@) =~= ou_values(parts));
            } else {
                assert(strings_view(groups@) =~= ou_values(parts));
            }
            start = i + 1;
            assert(split_on(next, ',').last() =~= d.subrange(start as int, i + 1));
        } else {
            let ghost parts = split_on(pre, ',');
            assert(split_on(next, ',') == parts.update(parts.len() - 1, parts.last().push(c)));
            assert(split_on(next, ',').drop_last() =~= parts.drop_last());
            assert(split_on(next, ',').last() =~= d.subrange(start as int, i + 1));
        }
        i = i + 1;
    }
    let ghost parts = split_on(d, ',');
    let ghost comp = d.subrange(start as int, n as int);
    assert(d.subrange(0, n as int) =~= d);
    proof {
        lemma_split_on_len(d, ',');
    }
    assert(parts =~= parts.drop_last().push(comp));
    if n - start >= 3 && dn.get_char(start) == 'o' && dn.get_char(start + 1) == 'u'
        && dn.get_char(start + 2) == '=' {
        let v = String::from_str(dn.substring_char(start + 3, n));
        assert(v@ =~= comp.subrange(3, comp.len() as int));
        groups.push(v);
    }
    assert(strings_view(groups@) =~= dn_groups(d));
    groups
}

} // verus!

verus! {

/// Where a directory-service authentication stands.
#[derive(Clone, Copy, PartialEq, Eq, Debug)]
pub enum LdapPhase {
    Connecting,
    BindingUser,
    BindingService,
    Searching,
    Done,
}

/// One authentication against the directory service, between two steps.
pub struct LdapSession {
    pub phase: LdapPhase,
    pub username: String,
    pub password: String,
}

/// What came back from the directory service for the last action.
pub enum LdapEvent {
    Connected,
    ConnectFailed,
    /// A bind was answered with this result code.
    Bound(u32),
    /// A bind failed without an answer.
    BindFailed,
    /// A search returned an entry with this distinguished name first.
    Found(String),
    NotFound,
    SearchFailed,
}

/// What the caller is to do next.
pub enum LdapAction {
    /// Open a connection to this URL.
    Connect(String),
    /// Simple-bind the connection with this distinguished name and password.
    Bind(String, String),
    /// Search the subtree under this base with this filter.
    Search(String, String),
    /// Stop, with this decision.
    Finish(AuthResult),
}

/// Result code of a successful bind.
pub const LDAP_SUCCESS: u32 = 0;

/// The distinguished name of `name` under `base`.
pub open spec fn user_dn(name: Seq<char>, base: Seq<char>) -> Seq<char> {
    "cn="@ + name + ","@ + base
}

pub open spec fn is_deny_finish(a: LdapAction) -> bool {
    a is Finish && is_denial(a->Finish_0)
}

/// A token that may go to the directory: well formed, with an alphanumeric
/// principal.
pub open spec fn admitted(t: Seq<char>) -> bool {
    token_parts(t) is Some && alphanumeric((token_parts(t)->0).0)
}

fn concat_dn(name: &String, base: &String) -> (r: String)
    ensures
        r@ == user_dn(name@, base@),
{
    let mut s = String::from_str("cn=");
    s.append(name.as_str());
    s.append(",");
    s.append(base.as_str());
    s
}

fn finish_denied(session: &mut LdapSession) -> (a: LdapAction)
    ensures
        final(session).phase == LdapPhase::Done,
        final(session).username == old(session).username,
        final(session).password == old(session).password,
        is_deny_finish(a),
{
    session.phase = LdapPhase::Done;
    LdapAction::Finish(deny())
}

impl LdapAuthenticator {
    /// Settings from the given values, each absent one taking its default.
    pub fn new(
        ldap_server_url: Option<String>,
        service_account_username: Option<String>,
        service_account_password: Option<String>,
        base_dn: Option<String>,
        filter: Option<String>,
    ) -> (r: Self)
        ensures
            r.ldap_server_url@ == (match ldap_server_url {
                Some(v) => v@,
                None => "ldap://localhost:3893"@,
            }),
            r.service_account_username@ == (match service_account_username {
                Some(v) => v@,
                None => "serviceuser"@,
            }),
            r.service_account_password@ == (match service_account_password {
                Some(v) => v@,
                None => "mysecret"@,
            }),
            r.base_dn@ == (match base_dn {
                Some(v) => v@,
                None => "dc=glauth,dc=com"@,
            }),
            r.filter@ == (match filter {
                Some(v) => v@,
                None => "cn=${username}"@,
            }),
    {
        LdapAuthenticator {
            ldap_server_url: match ldap_server_url {
                Some(v) => v,
                None => String::from_str("ldap://localhost:3893"),
            },
            service_account_username: match service_account_username {
                Some(v) => v,
                None => String::from_str("serviceuser"),
            },
            service_account_password: match service_account_password {
                Some(v) => v,
                None => String::from_str("mysecret"),
            },
            base_dn: match base_dn {
                Some(v) => v,
                None => String::from_str("dc=glauth,dc=com"),
            },
            filter: match filter {
                Some(v) => v,
                None => String::from_str("cn=${username}"),
            },
        }
    }

    /// The search filter for `username`: the template with `${username}`
    /// replaced.
    pub open spec fn search_filter(&self, username: Seq<char>) -> Seq<char> {
        expand(self.filter@, seq![("username"@, username)])
    }

    /// Starts an authentication of `token`. A malformed token, or one whose
    /// principal is not alphanumeric, is refused at once, before any
    /// connection; otherwise the first action is to connect.
    pub fn begin(&self, token: &str) -> (r: (LdapSession, LdapAction))
        ensures
            admitted(token@) ==> {
                &&& r.0.phase == LdapPhase::Connecting
                &&& r.0.username@ == (token_parts(token@)->0).0
                &&& r.0.password@ == (token_parts(token@)->0).1
                &&& r.1 is Connect
                &&& r.1->Connect_0@ == self.ldap_server_url@
            },
            !admitted(token@) ==> r.0.phase == LdapPhase::Done && is_deny_finish(r.1),
    {
        match split_token(token) {
            Some((username, password)) => {
                if LdapAuthenticator::contains_only_alphanumeric(username.clone()) {
                    let url = self.ldap_server_url.clone();
                    (
                        LdapSession { phase: LdapPhase::Connecting, username, password },
                        LdapAction::Connect(url),
                    )
                } else {
                    (
                        LdapSession { phase: LdapPhase::Done, username, password },
                        LdapAction::Finish(deny()),
                    )
                }
            },
            None => (
                LdapSession {
                    phase: LdapPhase::Done,
                    username: String::new(),
                    password: String::new(),
                },
                LdapAction::Finish(deny()),
            ),
        }
    }

    /// Takes the answer to the last action and gives the next one. The user
    /// is bound with the token's secret, then the service account with its
    /// password, each needing result code 0; then the search for the user
    /// must return an entry, whose `ou` components are the groups. Anything
    /// else refuses.
    pub fn advance(&self, session: &mut LdapSession, event: LdapEvent) -> (a: LdapAction)
        ensures
            final(session).username == old(session).username,
            final(session).password == old(session).password,
            old(session).phase == LdapPhase::Done ==> final(session).phase == LdapPhase::Done
                && is_deny_finish(a),
            old(session).phase == LdapPhase::Connecting && event is Connected ==> {
                &&& final(session).phase == LdapPhase::BindingUser
                &&& a is Bind
                &&& a->Bind_0@ == user_dn(old(session).username@, self.base_dn@)
                &&& a->Bind_1@ == old(session).password@
            },
            old(session).phase == LdapPhase::BindingUser && event == LdapEvent::Bound(LDAP_SUCCESS)
                ==> {
                &&& final(session).phase == LdapPhase::BindingService
                &&& a is Bind
                &&& a->Bind_0@ == user_dn(self.service_account_username@, self.base_dn@)
                &&& a->Bind_1@ == self.service_account_password@
            },
            old(session).phase == LdapPhase::BindingService && event == LdapEvent::Bound(
                LDAP_SUCCESS,
            ) ==> {
                &&& final(session).phase == LdapPhase::Searching
                &&& a is Search
                &&& a->Search_0@ == self.base_dn@
                &&& a->Search_1@ == self.search_filter(old(session).username@)
            },
            old(session).phase == LdapPhase::Searching && event is Found ==> {
                &&& final(session).phase == LdapPhase::Done
                &&& a is Finish
                &&& is_acceptance(a->Finish_0, old(session).username@, dn_groups(event->Found_0@))
            },
            !(old(session).phase == LdapPhase::Connecting && event is Connected) && !(
            old(session).phase == LdapPhase::BindingUser && event == LdapEvent::Bound(LDAP_SUCCESS))
                && !(old(session).phase == LdapPhase::BindingService && event == LdapEvent::Bound(
                LDAP_SUCCESS,
            )) && !(old(session).phase == LdapPhase::Searching && event is Found) ==> {
                &&& final(session).phase == LdapPhase::Done
                &&& is_deny_finish(a)
            },
    {
        match (session.phase, event) {
            (LdapPhase::Connecting, LdapEvent::Connected) => {
                session.phase = LdapPhase::BindingUser;
                LdapAction::Bind(
                    concat_dn(&session.username, &self.base_dn),
                    session.password.clone(),
                )
            },
            (LdapPhase::BindingUser, LdapEvent::Bound(rc)) if rc == LDAP_SUCCESS => {
                session.phase = LdapPhase::BindingService;
                LdapAction::Bind(
                    concat_dn(&self.service_account_username, &self.base_dn),
                    self.service_account_password.clone(),
                )
            },
            (LdapPhase::BindingService, LdapEvent::Bound(rc)) if rc == LDAP_SUCCESS => {
                session.phase = LdapPhase::Searching;
                let vars = vec![(String::from_str("username"), session.username.clone())];
                assert(vars_view(vars@) =~= seq![("username"@, session.username@)]);
                LdapAction::Search(self.base_dn.clone(), replace_vars(self.filter.as_str(), &vars))
            },
            (LdapPhase::Searching, LdapEvent::Found(dn)) => {
                session.phase = LdapPhase::Done;
                let groups = groups_from_dn(dn.as_str());
                LdapAction::Finish((true, session.username.clone(), groups))
            },
            _ => finish_denied(session),
        }
    }
}

} // verus!

verus! {

/// The directory authenticator refuses a token without a colon or with an
/// empty principal: such a token is not admitted, so `begin` answers with
/// the canonical refusal and the finished phase, from which `advance` only
/// refuses; no connection, bind or search is ever asked for.
pub proof fn lemma_malformed_token_not_admitted(t: Seq<char>)
    requires
        (forall|i: int| 0 <= i < t.len() ==> t[i] != ':') || (t.len() > 0 && t[0] == ':'),
    ensures
        !admitted(t),
{
    lemma_malformed_token(t);
}

/// A well-formed token whose principal holds a character other than an
/// ASCII letter or digit is not admitted, so `begin` refuses it with the
/// finished phase: no connection, bind or search is ever asked for.
pub proof fn lemma_injection_guard(t: Seq<char>, i: int)
    requires
        token_parts(t) is Some,
        0 <= i < (token_parts(t)->0).0.len(),
        !is_ascii_alphanumeric((token_parts(t)->0).0[i]),
    ensures
        !admitted(t),
{
}

} // verus!
