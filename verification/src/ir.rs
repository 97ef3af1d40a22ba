//! Runtime values and the bytecode instruction set of the virtual machine.

use vstd::prelude::*;

use crate::ast_common::{Atom, PredSig, PredV};

verus! {

/// Logic-variable identifiers: dense unsigned integers handed out by the VM.
pub type LV = u64;

/// Checkpoint labels: integers enumerated by the compiler.
pub type Label = i64;

/// The mathematical picture of a runtime term.
pub enum TermV {
    Atom(Seq<char>),
    LV(int),
    Num(int),
    Ctor(Seq<char>, Seq<TermV>),
}

/// Runtime terms: atoms, 64-bit integers, logic variables, and compound terms.
#[derive(Debug, Hash, PartialEq, Eq)]
pub enum Value {
    Atom(Atom),
    LV(LV),
    Num(i64),
    Ctor(Atom, Vec<Value>),
}

impl View for Value {
    type V = TermV;

    open spec fn view(&self) -> TermV
        decreases self,
    {
        match self {
            Value::Atom(a) => TermV::Atom(a@),
            Value::LV(x) => TermV::LV(*x as int),
            Value::Num(n) => TermV::Num(*n as int),
            Value::Ctor(f, args) => TermV::Ctor(f@, view_terms(args@)),
        }
    }
}

/// Elementwise view of a sequence of terms.
pub open spec fn view_terms(s: Seq<Value>) -> Seq<TermV>
    decreases s,
{
    if s.len() == 0 {
        Seq::empty()
    } else {
        seq![s[0]@] + view_terms(s.drop_first())
    }
}

/// `view_terms` is the elementwise view.
pub broadcast proof fn lemma_view_terms(s: Seq<Value>)
    ensures
        (#[trigger] view_terms(s)).len() == s.len(),
        forall|i: int| 0 <= i < s.len() ==> view_terms(s)[i] == s[i]@,
    decreases s.len(),
{
    if s.len() > 0 {
        lemma_view_terms(s.drop_first());
        assert(view_terms(s) == seq![s[0]@] + view_terms(s.drop_first()));
        assert(view_terms(s).len() == s.len());
        assert forall|i: int| 0 <= i < s.len() implies view_terms(s)[i] == s[i]@ by {
            if i == 0 {
                assert(view_terms(s)[0] == (seq![s[0]@] + view_terms(s.drop_first()))[0]);
            } else {
                assert(view_terms(s)[i] == view_terms(s.drop_first())[i - 1]);
                assert(view_terms(s.drop_first())[i - 1] == s.drop_first()[i - 1]@);
                assert(s.drop_first()[i - 1] == s[i]);
            }
        }
    }
}

/// A compound term is structurally larger than each of its arguments; this is
/// what justifies termination of the recursive walks over terms.
pub proof fn lemma_ctor_arg_decreases(v: Value, i: int)
    requires
        v is Ctor,
        0 <= i < v->Ctor_1@.len(),
    ensures
        decreases_to!(v => v->Ctor_1@[i]),
{
    assert(decreases_to!(v => v->Ctor_1));
    assert(decreases_to!(v->Ctor_1 => v->Ctor_1@));
    assert(decreases_to!(v->Ctor_1@ => v->Ctor_1@[i]));
}

/// Deep copy of a term.
pub fn term_clone(v: &Value) -> (r: Value)
    ensures
        r@ == v@,
    decreases v,
{
    broadcast use lemma_view_terms;

    match v {
        Value::Atom(a) => Value::Atom(a.clone()),
        Value::LV(x) => Value::LV(*x),
        Value::Num(n) => Value::Num(*n),
        Value::Ctor(f, args) => {
            let n = args.len();
            let mut out: Vec<Value> = Vec::new();
            let mut i: usize = 0;
            while i < n
                invariant
                    n == args@.len(),
                    i <= n,
                    v == Value::Ctor(*f, *args),
                    out@.len() == i as int,
                    forall|j: int| 0 <= j < i ==> out@[j]@ == args@[j]@,
                decreases n - i,
            {
                proof {
                    lemma_ctor_arg_decreases(*v, i as int);
                }
                out.push(term_clone(&args[i]));
                i += 1;
            }
            proof {
                assert(view_terms(out@) =~= view_terms(args@));
            }
            Value::Ctor(f.clone(), out)
        },
    }
}

impl Clone for Value {
    /// Cloning a term preserves its mathematical view.
    fn clone(&self) -> (r: Value)
        ensures
            r@ == self@,
    {
        term_clone(self)
    }
}

/// Structural equality of terms, usable from verified code.
pub fn term_eq(a: &Value, b: &Value) -> (r: bool)
    ensures
        r == (a@ == b@),
    decreases a,
{
    broadcast use lemma_view_terms;

    match (a, b) {
        (Value::Atom(x), Value::Atom(y)) => x.eq(y),
        (Value::LV(x), Value::LV(y)) => x == y,
        (Value::Num(x), Value::Num(y)) => x == y,
        (Value::Ctor(f, fa), Value::Ctor(g, ga)) => {
            if !f.eq(g) {
                return false;
            }
            if fa.len() != ga.len() {
                proof {
                    lemma_view_terms(fa@);
                    lemma_view_terms(ga@);
                }
                return false;
            }
            let n = fa.len();
            let mut i: usize = 0;
            while i < n
                invariant
                    n == fa@.len() == ga@.len(),
                    i <= n,
                    f@ == g@,
                    a == Value::Ctor(*f, *fa),
                    b == Value::Ctor(*g, *ga),
                    forall|j: int| 0 <= j < i ==> fa@[j]@ == ga@[j]@,
                decreases n - i,
            {
                proof {
                    lemma_ctor_arg_decreases(*a, i as int);
                }
                if !term_eq(&fa[i], &ga[i]) {
                    proof {
                        lemma_view_terms(fa@);
                        lemma_view_terms(ga@);
                        assert(view_terms(fa@)[i as int] != view_terms(ga@)[i as int]);
                    }
                    return false;
                }
                i += 1;
            }
            proof {
                assert(view_terms(fa@) =~= view_terms(ga@));
            }
            true
        },
        _ => false,
    }
}

/// Mathematical picture of an instruction.
pub enum InsnV {
    PushValue(TermV),
    Pop,
    Dup,
    Fresh,
    Load(int),
    Store(int),
    Construct(Seq<char>, int),
    Unify,
    MkCheckpoint(int, int),
    Jump(int),
    Call((PredV, int)),
    Det(int),
    DetUntil(int),
    Fail,
    Ret,
    Halt,
}

/// Instructions the virtual machine executes.  Checkpoint and jump targets
/// are signed offsets in instructions, relative to the carrying instruction.
#[derive(Debug, PartialEq, Eq)]
pub enum Insn {
    PushValue(Value),
    Pop,
    Dup,
    Fresh,
    Load(usize),
    Store(usize),
    Construct(Atom, usize),
    Unify,
    MkCheckpoint(Label, isize),
    Jump(isize),
    Call(PredSig),
    Det(Label),
    DetUntil(Label),
    Fail,
    Ret,
    Halt,
}

impl View for Insn {
    type V = InsnV;

    open spec fn view(&self) -> InsnV {
        match self {
            Insn::PushValue(v) => InsnV::PushValue(v@),
            Insn::Pop => InsnV::Pop,
            Insn::Dup => InsnV::Dup,
            Insn::Fresh => InsnV::Fresh,
            Insn::Load(i) => InsnV::Load(*i as int),
            Insn::Store(i) => InsnV::Store(*i as int),
            Insn::Construct(f, k) => InsnV::Construct(f@, *k as int),
            Insn::Unify => InsnV::Unify,
            Insn::MkCheckpoint(l, d) => InsnV::MkCheckpoint(*l as int, *d as int),
            Insn::Jump(d) => InsnV::Jump(*d as int),
            Insn::Call(sig) => InsnV::Call(sig@),
            Insn::Det(l) => InsnV::Det(*l as int),
            Insn::DetUntil(l) => InsnV::DetUntil(*l as int),
            Insn::Fail => InsnV::Fail,
            Insn::Ret => InsnV::Ret,
            Insn::Halt => InsnV::Halt,
        }
    }
}

/// The instruction with its target offset replaced.
pub open spec fn with_target(i: InsnV, target: int) -> InsnV {
    match i {
        InsnV::MkCheckpoint(l, _) => InsnV::MkCheckpoint(l, target),
        InsnV::Jump(_) => InsnV::Jump(target),
        _ => i,
    }
}

impl Insn {
    /// Set the target offset of a checkpoint or jump instruction; no other
    /// instruction carries one.
    pub fn set_target(&mut self, target: isize)
        requires
            *old(self) is MkCheckpoint || *old(self) is Jump,
        ensures
            final(self)@ == with_target(old(self)@, target as int),
    {
        match self {
            Insn::MkCheckpoint(_, target_of_self) => {
                *target_of_self = target;
            },
            Insn::Jump(target_of_self) => {
                *target_of_self = target;
            },
            _ => {},
        }
    }
}

/// Elementwise view of an instruction sequence.
pub open spec fn view_insns(s: Seq<Insn>) -> Seq<InsnV> {
    Seq::new(s.len(), |i: int| s[i]@)
}

/// Mathematical picture of a compiled program: each user predicate's
/// signature with its instruction stream, in definition order, signatures
/// unique.
pub type ProgramV = Seq<((PredV, int), Seq<InsnV>)>;

/// A compiled program: the code of each user predicate, keyed by signature.
pub struct Program {
    pub text: Vec<(PredSig, Vec<Insn>)>,
}

impl View for Program {
    type V = ProgramV;

    open spec fn view(&self) -> ProgramV {
        Seq::new(self.text@.len(), |i: int| (self.text@[i].0@, view_insns(self.text@[i].1@)))
    }
}

/// Index of the first entry for `sig`, or -1.
pub open spec fn prog_index(p: ProgramV, sig: (PredV, int)) -> int
    decreases p,
{
    if p.len() == 0 {
        -1
    } else if p[0].0 == sig {
        0
    } else {
        let r = prog_index(p.drop_first(), sig);
        if r < 0 {
            -1
        } else {
            r + 1
        }
    }
}

/// The code of `sig`, if the program holds it.
pub open spec fn prog_code(p: ProgramV, sig: (PredV, int)) -> Option<Seq<InsnV>> {
    if prog_index(p, sig) >= 0 {
        Option::Some(p[prog_index(p, sig)].1)
    } else {
        Option::None
    }
}

/// What `prog_index` returns.
pub proof fn lemma_prog_index(p: ProgramV, sig: (PredV, int))
    ensures
        prog_index(p, sig) == -1 ==> forall|j: int| 0 <= j < p.len() ==> p[j].0 != sig,
        prog_index(p, sig) != -1 ==> {
            let r = prog_index(p, sig);
            &&& 0 <= r < p.len()
            &&& p[r].0 == sig
            &&& forall|j: int| 0 <= j < r ==> p[j].0 != sig
        },
    decreases p,
{
    if p.len() > 0 && p[0].0 != sig {
        lemma_prog_index(p.drop_first(), sig);
        assert forall|j: int| 1 <= j < p.len() implies p.drop_first()[j - 1] == p[j] by {}
    }
}

impl Program {
    /// The instruction stream of `sig`, if the program defines it.
    pub fn lookup(&self, sig: &PredSig) -> (r: Option<&Vec<Insn>>)
        ensures
            match r {
                Some(code) => prog_index(self@, sig@) >= 0 && view_insns(code@) == self@[prog_index(
                    self@,
                    sig@,
                )].1,
                None => prog_index(self@, sig@) == -1,
            },
    {
        let n = self.text.len();
        let mut i: usize = 0;
        while i < n
            invariant
                n == self.text@.len(),
                i <= n,
                forall|j: int| 0 <= j < i ==> self@[j].0 != sig@,
            decreases n - i,
        {
            if crate::ast_common::sig_eq(&self.text[i].0, sig) {
                proof {
                    lemma_prog_index(self@, sig@);
                    assert(self@[i as int].0 == sig@);
                }
                return Some(&self.text[i].1);
            }
            i += 1;
        }
        proof {
            lemma_prog_index(self@, sig@);
            if prog_index(self@, sig@) != -1 {
                assert(false);
            }
        }
        None
    }
}

} // verus!
