use vstd::prelude::*;
use vstd::string::StringExecFns;

use crate::authenticators::authenticator::deny;
use crate::authenticators::authenticator::denial;
use crate::authenticators::authenticator::is_denial;
use crate::authenticators::authenticator::result_view;
use crate::authenticators::authenticator::strings_view;
use crate::authenticators::authenticator::AuthResult;

verus! {

/// The kinds of authenticator that a chain may name.
#[derive(Clone, Copy, PartialEq, Eq, Debug)]
pub enum AuthenticatorKind {
    /// The local credential store, named `json_auth`.
    Json,
    /// The directory service, named `ldap_auth`.
    Ldap,
}

/// The registry: the kind that a configured name selects.
pub open spec fn kind_of(name: Seq<char>) -> Option<AuthenticatorKind> {
    if name == "json_auth"@ {
        Some(AuthenticatorKind::Json)
    } else if name == "ldap_auth"@ {
        Some(AuthenticatorKind::Ldap)
    } else {
        None
    }
}

/// Looks a configured name up in the registry.
pub fn authenticator_kind(name: &String) -> (r: Option<AuthenticatorKind>)
    ensures
        r == kind_of(name@),
{
    if *name == String::from_str("json_auth") {
        Some(AuthenticatorKind::Json)
    } else if *name == String::from_str("ldap_auth") {
        Some(AuthenticatorKind::Ldap)
    } else {
        None
    }
}

/// The position of the first name of a chain that the registry does not
/// know, if any.
pub fn first_unknown(kinds: &Vec<String>) -> (r: Option<usize>)
    ensures
        match r {
            Some(i) => i < kinds@.len() && kind_of(kinds@[i as int]@) is None && forall|j: int|
                0 <= j < i ==> kind_of(#[trigger] kinds@[j]@) is Some,
            None => forall|j: int| 0 <= j < kinds@.len() ==> kind_of(#[trigger] kinds@[j]@) is Some,
        },
{
    let mut i: usize = 0;
    while i < kinds.len()
        invariant
            i <= kinds@.len(),
            forall|j: int| 0 <= j < i ==> kind_of(#[trigger] kinds@[j]@) is Some,
        decreases kinds.len() - i,
    {
        if authenticator_kind(&kinds[i]).is_none() {
            return Some(i);
        }
        i = i + 1;
    }
    None
}

/// What the caller of a pipeline is to do next.
pub enum PipelineAction {
    /// Run the authenticator of this kind on the token and resume with its
    /// decision.
    Invoke(AuthenticatorKind),
    /// Stop, with this decision.
    Finish(AuthResult),
}

/// The action that position `i` of a chain calls for: its authenticator,
/// or, past the end or at an unknown name, the refusal.
pub open spec fn opens_at(kinds: Seq<Seq<char>>, i: int, a: PipelineAction) -> bool {
    if 0 <= i < kinds.len() && kind_of(kinds[i]) is Some {
        a == PipelineAction::Invoke(kind_of(kinds[i])->0)
    } else {
        a is Finish && is_denial(a->Finish_0)
    }
}

/// The decision of a chain from position `i` on, where `results[j]` is what
/// the authenticator at position `j` decides: the first acceptance; the
/// refusal at an unknown name or when all refuse.
pub open spec fn outcome_from(
    kinds: Seq<Seq<char>>,
    results: Seq<(bool, Seq<char>, Seq<Seq<char>>)>,
    i: int,
) -> (bool, Seq<char>, Seq<Seq<char>>)
    decreases kinds.len() - i,
{
    if i < 0 || i >= kinds.len() || kind_of(kinds[i]) is None {
        denial()
    } else if i < results.len() && results[i].0 {
        results[i]
    } else {
        outcome_from(kinds, results, i + 1)
    }
}

/// How many authenticators a chain runs from position `i` on: up to and
/// including the first that accepts.
pub open spec fn consulted_from(
    kinds: Seq<Seq<char>>,
    results: Seq<(bool, Seq<char>, Seq<Seq<char>>)>,
    i: int,
) -> nat
    decreases kinds.len() - i,
{
    if i < 0 || i >= kinds.len() || kind_of(kinds[i]) is None {
        0
    } else if i < results.len() && results[i].0 {
        1
    } else {
        1 + consulted_from(kinds, results, i + 1)
    }
}

/// Order decides: where `a` refuses a token and `b` accepts it, the chain
/// `[a, b]` answers with `b`'s acceptance, and the chain `[b, a]` answers
/// with it too, having run `b` alone.
pub proof fn lemma_first_acceptance_wins(
    a: Seq<char>,
    b: Seq<char>,
    ra: (bool, Seq<char>, Seq<Seq<char>>),
    rb: (bool, Seq<char>, Seq<Seq<char>>),
)
    requires
        kind_of(a) is Some,
        kind_of(b) is Some,
        !ra.0,
        rb.0,
    ensures
        outcome_from(seq![a, b], seq![ra, rb], 0) == rb,
        consulted_from(seq![a, b], seq![ra, rb], 0) == 2,
        outcome_from(seq![b, a], seq![rb, ra], 0) == rb,
        consulted_from(seq![b, a], seq![rb, ra], 0) == 1,
{
    assert(outcome_from(seq![a, b], seq![ra, rb], 1) == rb);
    assert(consulted_from(seq![a, b], seq![ra, rb], 1) == 1);
}

/// The action that a pipeline gives at position `i` is the first step of
/// the chain's decision from there: a refusal at once, or the decision of
/// the authenticator it runs when that accepts, else the decision from the
/// next position.
pub proof fn lemma_step_outcome(
    kinds: Seq<Seq<char>>,
    results: Seq<(bool, Seq<char>, Seq<Seq<char>>)>,
    i: int,
    a: PipelineAction,
)
    requires
        0 <= i,
        opens_at(kinds, i, a),
    ensures
        a is Finish ==> outcome_from(kinds, results, i) == result_view(a->Finish_0),
        a is Invoke && i < results.len() && results[i].0 ==> outcome_from(kinds, results, i)
            == results[i],
        a is Invoke && !(i < results.len() && results[i].0) ==> outcome_from(kinds, results, i)
            == outcome_from(kinds, results, i + 1),
{
}

/// An ordered chain of authenticators run on one token, the first
/// acceptance winning.
pub struct Pipeline {
    pub kinds: Vec<String>,
    /// The position of the authenticator that runs, or ran last.
    pub position: usize,
    pub done: bool,
}

impl Pipeline {
    pub open spec fn chain(&self) -> Seq<Seq<char>> {
        strings_view(self.kinds@)
    }

    /// A pipeline over the configured chain, in its order.
    pub fn new(kinds: Vec<String>) -> (r: Self)
        ensures
            r.kinds@ == kinds@,
            r.position == 0,
            !r.done,
    {
        Pipeline { kinds, position: 0, done: false }
    }

    fn open_at(&mut self, i: usize) -> (a: PipelineAction)
        requires
            i <= old(self).kinds@.len(),
        ensures
            final(self).kinds == old(self).kinds,
            final(self).position == i,
            opens_at(old(self).chain(), i as int, a),
            final(self).done == a is Finish,
    {
        self.position = i;
        if i < self.kinds.len() {
            match authenticator_kind(&self.kinds[i]) {
                Some(k) => {
                    self.done = false;
                    return PipelineAction::Invoke(k);
                },
                None => {},
            }
        }
        self.done = true;
        PipelineAction::Finish(deny())
    }

    /// The first action: run the first authenticator of the chain, or refuse
    /// at once when the chain is empty or its first name unknown.
    pub fn start(&mut self) -> (a: PipelineAction)
        ensures
            final(self).kinds == old(self).kinds,
            final(self).position == 0,
            opens_at(old(self).chain(), 0, a),
            final(self).done == a is Finish,
    {
        self.open_at(0)
    }

    /// Takes the decision of the authenticator that ran and gives the next
    /// action: an acceptance ends the run with that decision, so that no
    /// later authenticator runs; a refusal moves on to the next position.
    /// A pipeline that has finished only refuses.
    pub fn resume(&mut self, outcome: AuthResult) -> (a: PipelineAction)
        ensures
            final(self).kinds == old(self).kinds,
            old(self).done || old(self).position >= old(self).kinds@.len() ==> {
                &&& final(self).done
                &&& a is Finish
                &&& is_denial(a->Finish_0)
            },
            !old(self).done && old(self).position < old(self).kinds@.len() && outcome.0 ==> {
                &&& final(self).done
                &&& final(self).position == old(self).position
                &&& a == PipelineAction::Finish(outcome)
            },
            !old(self).done && old(self).position < old(self).kinds@.len() && !outcome.0 ==> {
                &&& final(self).position == old(self).position + 1
                &&& opens_at(old(self).chain(), old(self).position + 1, a)
                &&& final(self).done == a is Finish
            },
    {
        if self.done || self.position >= self.kinds.len() {
            self.done = true;
            return PipelineAction::Finish(deny());
        }
        if outcome.0 {
            self.done = true;
            return PipelineAction::Finish(outcome);
        }
        let next = self.position + 1;
        self.open_at(next)
    }
}

} // verus!
