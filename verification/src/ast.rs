//! The front-end AST: expressions, statements, predicate definitions.
//!
//! Programs are parameterised over the variable representation `V`: names are
//! strings close to the surface syntax and dense integers after variable
//! enumeration.

pub mod transform;

use vstd::prelude::*;

use crate::ast_common::{Atom, Pred, PredV};

verus! {

/// A named program variable (a wrapper to keep representations apart).
#[derive(Debug, PartialEq, Eq)]
pub enum Var {
    Var(String),
}

impl View for Var {
    type V = Seq<char>;

    open spec fn view(&self) -> Seq<char> {
        match self {
            Var::Var(name) => name@,
        }
    }
}

/// Variable representations the AST is parameterised over: they can be
/// cloned and compared, and both operations agree with the view.
pub trait VarName: View + Sized {
    /// Copy the variable name.
    fn clone_var(&self) -> (r: Self)
        ensures
            r@ == self@,
    ;

    /// Compare two variable names.
    fn eq_var(&self, other: &Self) -> (r: bool)
        ensures
            r == (self@ == other@),
    ;
}

impl VarName for String {
    fn clone_var(&self) -> (r: Self)
        ensures
            r@ == self@,
    {
        self.clone()
    }

    fn eq_var(&self, other: &Self) -> (r: bool)
        ensures
            r == (self@ == other@),
    {
        self.eq(other)
    }
}

impl VarName for usize {
    fn clone_var(&self) -> (r: Self)
        ensures
            r@ == self@,
    {
        *self
    }

    fn eq_var(&self, other: &Self) -> (r: bool)
        ensures
            r == (self@ == other@),
    {
        *self == *other
    }
}

/// Mathematical picture of an expression over variable picture `W`.
pub enum ExprV<W> {
    Atom(Seq<char>),
    PV(W),
    Num(int),
    Ctor(Seq<char>, Seq<ExprV<W>>),
}

/// An AST expression: atom, program variable, integer, or compound.
#[derive(Debug, PartialEq, Eq)]
pub enum Expr<V> {
    Atom(Atom),
    PV(V),
    Num(i64),
    Ctor(Atom, Vec<Expr<V>>),
}

impl<V: View> View for Expr<V> {
    type V = ExprV<<V as View>::V>;

    open spec fn view(&self) -> ExprV<<V as View>::V>
        decreases self,
    {
        match self {
            Expr::Atom(a) => ExprV::Atom(a@),
            Expr::PV(x) => ExprV::PV(x@),
            Expr::Num(n) => ExprV::Num(*n as int),
            Expr::Ctor(f, args) => ExprV::Ctor(f@, view_exprs(args@)),
        }
    }
}

/// Elementwise view of a sequence of expressions.
pub open spec fn view_exprs<V: View>(s: Seq<Expr<V>>) -> Seq<ExprV<<V as View>::V>>
    decreases s,
{
    if s.len() == 0 {
        Seq::empty()
    } else {
        seq![s[0]@] + view_exprs(s.drop_first())
    }
}

/// `view_exprs` is the elementwise view.
pub broadcast proof fn lemma_view_exprs<V: View>(s: Seq<Expr<V>>)
    ensures
        (#[trigger] view_exprs(s)).len() == s.len(),
        forall|i: int| 0 <= i < s.len() ==> view_exprs(s)[i] == s[i]@,
    decreases s.len(),
{
    if s.len() > 0 {
        lemma_view_exprs(s.drop_first());
        assert(view_exprs(s) == seq![s[0]@] + view_exprs(s.drop_first()));
        assert(view_exprs(s).len() == s.len());
        assert forall|i: int| 0 <= i < s.len() implies view_exprs(s)[i] == s[i]@ by {
            if i == 0 {
                assert(view_exprs(s)[0] == (seq![s[0]@] + view_exprs(s.drop_first()))[0]);
            } else {
                assert(view_exprs(s)[i] == view_exprs(s.drop_first())[i - 1]);
                assert(s.drop_first()[i - 1] == s[i]);
            }
        }
    }
}

/// An argument of a compound expression is structurally smaller than the
/// expression itself.
pub proof fn lemma_expr_arg_decreases<V>(e: Expr<V>, i: int)
    requires
        e is Ctor,
        0 <= i < e->Ctor_1@.len(),
    ensures
        decreases_to!(e => e->Ctor_1@[i]),
{
    assert(decreases_to!(e => e->Ctor_1));
    assert(decreases_to!(e->Ctor_1 => e->Ctor_1@));
    assert(decreases_to!(e->Ctor_1@ => e->Ctor_1@[i]));
}

/// Deep copy of an expression.
pub fn clone_expr<V: VarName>(e: &Expr<V>) -> (r: Expr<V>)
    ensures
        r@ == e@,
    decreases e,
{
    broadcast use lemma_view_exprs;

    match e {
        Expr::Atom(a) => Expr::Atom(a.clone()),
        Expr::PV(x) => Expr::PV(x.clone_var()),
        Expr::Num(n) => Expr::Num(*n),
        Expr::Ctor(f, args) => {
            let n = args.len();
            let mut out: Vec<Expr<V>> = Vec::new();
            let mut i: usize = 0;
            while i < n
                invariant
                    n == args@.len(),
                    i <= n,
                    e == Expr::Ctor(*f, *args),
                    out@.len() == i as int,
                    forall|j: int| 0 <= j < i ==> out@[j]@ == args@[j]@,
                decreases n - i,
            {
                proof {
                    lemma_expr_arg_decreases(*e, i as int);
                }
                out.push(clone_expr(&args[i]));
                i += 1;
            }
            proof {
                lemma_view_exprs(out@);
                lemma_view_exprs(args@);
                assert(view_exprs(out@) =~= view_exprs(args@));
            }
            Expr::Ctor(f.clone(), out)
        },
    }
}

/// Mathematical picture of a statement over variable picture `W`.
pub enum StmtV<W> {
    And(Box<StmtV<W>>, Box<StmtV<W>>),
    Or(Box<StmtV<W>>, Box<StmtV<W>>),
    If(Box<StmtV<W>>, Box<StmtV<W>>, Box<StmtV<W>>),
    Unify(ExprV<W>, ExprV<W>),
    Call(PredV, Seq<ExprV<W>>),
    Fail,
    True,
}

/// An AST statement: conjunction, disjunction, if-then-else, unification,
/// predicate call, and the neutral (`True`) and absorbing (`Fail`) elements.
#[derive(Debug, PartialEq, Eq)]
pub enum Stmt<V> {
    And(Box<Stmt<V>>, Box<Stmt<V>>),
    Or(Box<Stmt<V>>, Box<Stmt<V>>),
    If(Box<Stmt<V>>, Box<Stmt<V>>, Box<Stmt<V>>),
    Unify(Expr<V>, Expr<V>),
    Call(Pred, Vec<Expr<V>>),
    Fail,
    True,
}

impl<V: View> View for Stmt<V> {
    type V = StmtV<<V as View>::V>;

    open spec fn view(&self) -> StmtV<<V as View>::V>
        decreases self,
    {
        match self {
            Stmt::And(s1, s2) => StmtV::And(Box::new((**s1)@), Box::new((**s2)@)),
            Stmt::Or(s1, s2) => StmtV::Or(Box::new((**s1)@), Box::new((**s2)@)),
            Stmt::If(s1, s2, s3) => StmtV::If(
                Box::new((**s1)@),
                Box::new((**s2)@),
                Box::new((**s3)@),
            ),
            Stmt::Unify(e1, e2) => StmtV::Unify(e1@, e2@),
            Stmt::Call(p, args) => StmtV::Call(p@, view_exprs(args@)),
            Stmt::Fail => StmtV::Fail,
            Stmt::True => StmtV::True,
        }
    }
}

/// A predicate definition: identity, parameter expressions, body.
#[derive(Debug)]
pub struct PredDef<V> {
    pub name: Pred,
    pub params: Vec<Expr<V>>,
    pub body: Stmt<V>,
}

/// Mathematical picture of a predicate definition.
pub struct PredDefV<W> {
    pub name: PredV,
    pub params: Seq<ExprV<W>>,
    pub body: StmtV<W>,
}

impl<V: View> View for PredDef<V> {
    type V = PredDefV<<V as View>::V>;

    open spec fn view(&self) -> PredDefV<<V as View>::V> {
        PredDefV { name: self.name@, params: view_exprs(self.params@), body: self.body@ }
    }
}

/// A program is a list of predicate definitions.
pub type Program<V> = Vec<PredDef<V>>;

/// Elementwise view of a program.
pub open spec fn view_program<V: View>(p: Seq<PredDef<V>>) -> Seq<PredDefV<<V as View>::V>> {
    Seq::new(p.len(), |i: int| p[i]@)
}

/// Program variables of an expression, in left-to-right occurrence order.
pub open spec fn expr_pvs<W>(e: ExprV<W>) -> Seq<W>
    decreases e,
{
    match e {
        ExprV::PV(x) => seq![x],
        ExprV::Ctor(_, args) => exprs_pvs(args),
        _ => Seq::empty(),
    }
}

/// Program variables of a sequence of expressions, concatenated in order.
pub open spec fn exprs_pvs<W>(s: Seq<ExprV<W>>) -> Seq<W>
    decreases s,
{
    if s.len() == 0 {
        Seq::empty()
    } else {
        expr_pvs(s[0]) + exprs_pvs(s.drop_first())
    }
}

/// Program variables of a statement, in left-to-right occurrence order.
pub open spec fn stmt_pvs<W>(s: StmtV<W>) -> Seq<W>
    decreases s,
{
    match s {
        StmtV::And(s1, s2) => stmt_pvs(*s1) + stmt_pvs(*s2),
        StmtV::Or(s1, s2) => stmt_pvs(*s1) + stmt_pvs(*s2),
        StmtV::If(s1, s2, s3) => stmt_pvs(*s1) + stmt_pvs(*s2) + stmt_pvs(*s3),
        StmtV::Unify(e1, e2) => expr_pvs(e1) + expr_pvs(e2),
        StmtV::Call(_, args) => exprs_pvs(args),
        _ => Seq::empty(),
    }
}

/// Elementwise view of a sequence of variable names.
pub open spec fn view_vars<V: View>(s: Seq<V>) -> Seq<<V as View>::V> {
    Seq::new(s.len(), |i: int| s[i]@)
}

impl<V: VarName> Expr<V> {
    /// Collect the program variables of this expression, left to right.
    pub fn collect_pvs(&self) -> (r: Vec<V>)
        ensures
            view_vars(r@) =~= expr_pvs(self@),
        decreases self,
    {
        broadcast use lemma_view_exprs;

        match self {
            Expr::PV(x) => {
                let mut r: Vec<V> = Vec::new();
                r.push(x.clone_var());
                r
            },
            Expr::Ctor(_, args) => {
                let mut r: Vec<V> = Vec::new();
                let n = args.len();
                let mut i: usize = 0;
                while i < n
                    invariant
                        n == args@.len(),
                        self is Ctor && self->Ctor_1 == *args,
                        i <= n,
                        view_vars(r@) =~= exprs_pvs(view_exprs(args@).take(i as int)),
                    decreases n - i,
                {
                    proof {
                        lemma_expr_arg_decreases(*self, i as int);
                    }
                    let mut sub = args[i].collect_pvs();
                    proof {
                        lemma_view_exprs(args@);
                        lemma_exprs_pvs_take(view_exprs(args@), i as int);
                    }
                    r.append(&mut sub);
                    proof {
                        assert(view_vars(r@) =~= exprs_pvs(view_exprs(args@).take(i + 1)));
                    }
                    i += 1;
                }
                proof {
                    assert(view_exprs(args@).take(n as int) =~= view_exprs(args@));
                }
                r
            },
            _ => Vec::new(),
        }
    }
}

/// Splitting off the next expression splits its variables off in order.
pub proof fn lemma_exprs_pvs_take<W>(s: Seq<ExprV<W>>, i: int)
    requires
        0 <= i < s.len(),
    ensures
        exprs_pvs(s.take(i + 1)) == exprs_pvs(s.take(i)) + expr_pvs(s[i]),
    decreases i,
{
    if i == 0 {
        assert(s.take(1) =~= seq![s[0]]);
        assert(s.take(1).drop_first() =~= Seq::empty());
        assert(s.take(0) =~= Seq::empty());
        assert(exprs_pvs(s.take(1)) == expr_pvs(s[0]) + exprs_pvs(s.take(1).drop_first()));
        assert(exprs_pvs(s.take(0)) + expr_pvs(s[0]) =~= expr_pvs(s[0]));
        assert(exprs_pvs(s.take(1)) =~= expr_pvs(s[0]));
    } else {
        lemma_exprs_pvs_take(s.drop_first(), i - 1);
        assert(s.take(i + 1).drop_first() =~= s.drop_first().take(i));
        assert(s.take(i).drop_first() =~= s.drop_first().take(i - 1));
        assert(s.take(i + 1)[0] == s[0]);
        assert(s.take(i)[0] == s[0]);
        assert(s.drop_first()[i - 1] == s[i]);
        assert(exprs_pvs(s.take(i + 1)) == expr_pvs(s[0]) + exprs_pvs(s.drop_first().take(i)));
        assert(exprs_pvs(s.take(i)) == expr_pvs(s[0]) + exprs_pvs(s.drop_first().take(i - 1)));
        assert(expr_pvs(s[0]) + (exprs_pvs(s.drop_first().take(i - 1)) + expr_pvs(s[i])) =~= (
        expr_pvs(s[0]) + exprs_pvs(s.drop_first().take(i - 1))) + expr_pvs(s[i]));
    }
}

impl<V: VarName> Stmt<V> {
    /// Collect the program variables of this statement, left to right.
    pub fn collect_pvs(&self) -> (r: Vec<V>)
        ensures
            view_vars(r@) =~= stmt_pvs(self@),
        decreases self,
    {
        match self {
            Stmt::And(s1, s2) => {
                let mut r = s1.collect_pvs();
                let mut r2 = s2.collect_pvs();
                r.append(&mut r2);
                proof {
                    assert(view_vars(r@) =~= stmt_pvs(self@));
                }
                r
            },
            Stmt::Or(s1, s2) => {
                let mut r = s1.collect_pvs();
                let mut r2 = s2.collect_pvs();
                r.append(&mut r2);
                proof {
                    assert(view_vars(r@) =~= stmt_pvs(self@));
                }
                r
            },
            Stmt::If(s1, s2, s3) => {
                let mut r = s1.collect_pvs();
                let mut r2 = s2.collect_pvs();
                let mut r3 = s3.collect_pvs();
                r.append(&mut r2);
                r.append(&mut r3);
                proof {
                    assert(view_vars(r@) =~= stmt_pvs(self@));
                }
                r
            },
            Stmt::Unify(e1, e2) => {
                let mut r = e1.collect_pvs();
                let mut r2 = e2.collect_pvs();
                r.append(&mut r2);
                proof {
                    assert(view_vars(r@) =~= stmt_pvs(self@));
                }
                r
            },
            Stmt::Call(_, args) => {
                broadcast use lemma_view_exprs;

                let mut r: Vec<V> = Vec::new();
                let n = args.len();
                let mut i: usize = 0;
                while i < n
                    invariant
                        n == args@.len(),
                        self is Call && self->Call_1 == *args,
                        i <= n,
                        view_vars(r@) =~= exprs_pvs(view_exprs(args@).take(i as int)),
                    decreases n - i,
                {
                    let mut sub = args[i].collect_pvs();
                    proof {
                        lemma_view_exprs(args@);
                        lemma_exprs_pvs_take(view_exprs(args@), i as int);
                    }
                    r.append(&mut sub);
                    proof {
                        assert(view_vars(r@) =~= exprs_pvs(view_exprs(args@).take(i + 1)));
                    }
                    i += 1;
                }
                proof {
                    assert(view_exprs(args@).take(n as int) =~= view_exprs(args@));
                }
                r
            },
            _ => Vec::new(),
        }
    }
}

} // verus!
