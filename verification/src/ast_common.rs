//! Names shared by every program representation: predicate identities and
//! predicate signatures.

use vstd::prelude::*;

verus! {

/// Atoms are symbolic names; equality is string equality.
pub type Atom = String;

/// Mathematical picture of a predicate identity.
pub enum PredV {
    Sys(Seq<char>, int),
    User(Seq<char>),
}

/// A predicate identity: a system predicate with its arity, or a user one.
#[derive(Debug, Hash, PartialEq, Eq, PartialOrd, Ord)]
pub enum Pred {
    Sys(String, usize),
    User(String),
}

impl View for Pred {
    type V = PredV;

    open spec fn view(&self) -> PredV {
        match self {
            Pred::Sys(name, arity) => PredV::Sys(name@, *arity as int),
            Pred::User(name) => PredV::User(name@),
        }
    }
}

impl Clone for Pred {
    /// Cloning preserves the identity.
    fn clone(&self) -> (r: Pred)
        ensures
            r@ == self@,
    {
        match self {
            Pred::Sys(name, arity) => Pred::Sys(name.clone(), *arity),
            Pred::User(name) => Pred::User(name.clone()),
        }
    }
}

/// Identity comparison of predicates, usable from verified code.
pub fn pred_eq(a: &Pred, b: &Pred) -> (r: bool)
    ensures
        r == (a@ == b@),
{
    match (a, b) {
        (Pred::Sys(n1, a1), Pred::Sys(n2, a2)) => n1.eq(n2) && a1 == a2,
        (Pred::User(n1), Pred::User(n2)) => n1.eq(n2),
        _ => false,
    }
}

/// A predicate signature: identity plus arity; user predicates are resolved
/// by signature.
#[derive(Debug, Hash, PartialEq, Eq)]
pub struct PredSig(pub Pred, pub usize);

impl View for PredSig {
    type V = (PredV, int);

    open spec fn view(&self) -> (PredV, int) {
        (self.0@, self.1 as int)
    }
}

impl Clone for PredSig {
    /// Cloning preserves the signature.
    fn clone(&self) -> (r: PredSig)
        ensures
            r@ == self@,
    {
        PredSig(self.0.clone(), self.1)
    }
}

/// Signature comparison, usable from verified code.
pub fn sig_eq(a: &PredSig, b: &PredSig) -> (r: bool)
    ensures
        r == (a@ == b@),
{
    pred_eq(&a.0, &b.0) && a.1 == b.1
}

} // verus!
