//! AST-to-AST transforms of the lowering pipeline: clause consolidation,
//! anonymous-variable elimination, variable enumeration, and removal of
//! redundant `True`/`Fail` nodes.

use vstd::prelude::*;

use crate::ast::{
    expr_pvs, exprs_pvs, stmt_pvs, view_exprs, view_program, view_vars, Expr, ExprV, PredDef,
    PredDefV, Program, Stmt, StmtV,
};
use crate::ast_common::{Pred, PredV};

verus! {

/// Transformers turn programs over variable representation `Vin` into
/// programs over `Vout`; they are consumed because they can be stateful.
/// The contracts live on each implementation.
pub trait Transformer<Vin, Vout> {
    /// Transform the program, consuming it and the transformer.
    fn transform(self, input: Program<Vin>) -> Program<Vout>;
}

/// Transformers that rewrite a program in place.
pub trait InplaceTransformer<V> {
    /// Rewrite the program in place, consuming the transformer.
    fn transform_inplace(self, input: &mut Program<V>);
}

/// One reduction step at the root of a statement: drop a neutral `True` from
/// a conjunction, a `Fail` from a disjunction, and decide an if-then-else
/// whose condition is already decided.  The first matching row applies.
pub open spec fn reduce_node<W>(s: StmtV<W>) -> StmtV<W> {
    match s {
        StmtV::And(s1, s2) => if *s1 is True {
            *s2
        } else if *s2 is True {
            *s1
        } else {
            s
        },
        StmtV::Or(s1, s2) => if *s1 is Fail {
            *s2
        } else if *s2 is Fail {
            *s1
        } else {
            s
        },
        StmtV::If(s1, s2, s3) => if *s1 is Fail {
            *s3
        } else if *s1 is True {
            *s2
        } else {
            s
        },
        _ => s,
    }
}

/// Post-order simplification of a statement to a redex-free form.
pub open spec fn simplify_stmt_spec<W>(s: StmtV<W>) -> StmtV<W>
    decreases s,
{
    match s {
        StmtV::And(s1, s2) => reduce_node(
            StmtV::And(Box::new(simplify_stmt_spec(*s1)), Box::new(simplify_stmt_spec(*s2))),
        ),
        StmtV::Or(s1, s2) => reduce_node(
            StmtV::Or(Box::new(simplify_stmt_spec(*s1)), Box::new(simplify_stmt_spec(*s2))),
        ),
        StmtV::If(s1, s2, s3) => reduce_node(
            StmtV::If(
                Box::new(simplify_stmt_spec(*s1)),
                Box::new(simplify_stmt_spec(*s2)),
                Box::new(simplify_stmt_spec(*s3)),
            ),
        ),
        _ => s,
    }
}

/// No reducible `True`/`Fail` pattern occurs anywhere in the statement.
pub open spec fn no_redex<W>(s: StmtV<W>) -> bool
    decreases s,
{
    match s {
        StmtV::And(s1, s2) => !(*s1 is True) && !(*s2 is True) && no_redex(*s1) && no_redex(*s2),
        StmtV::Or(s1, s2) => !(*s1 is Fail) && !(*s2 is Fail) && no_redex(*s1) && no_redex(*s2),
        StmtV::If(s1, s2, s3) => !(*s1 is Fail) && !(*s1 is True) && no_redex(*s1) && no_redex(*s2)
            && no_redex(*s3),
        _ => true,
    }
}

/// Law: the post-order simplification leaves no redex behind.
pub proof fn lemma_simplify_no_redex<W>(s: StmtV<W>)
    ensures
        no_redex(simplify_stmt_spec(s)),
    decreases s,
{
    match s {
        StmtV::And(s1, s2) => {
            lemma_simplify_no_redex(*s1);
            lemma_simplify_no_redex(*s2);
        },
        StmtV::Or(s1, s2) => {
            lemma_simplify_no_redex(*s1);
            lemma_simplify_no_redex(*s2);
        },
        StmtV::If(s1, s2, s3) => {
            lemma_simplify_no_redex(*s1);
            lemma_simplify_no_redex(*s2);
            lemma_simplify_no_redex(*s3);
        },
        _ => {},
    }
}

/// Eliminates `True`/`Fail` statements that earlier passes emit where a
/// statement with no effect is needed.
pub struct IdempotentElim<V> {
    phantom_data: core::marker::PhantomData<V>,
}

impl<V> IdempotentElim<V> {
    /// A fresh simplifier.
    pub fn new() -> (r: Self) {
        IdempotentElim { phantom_data: core::marker::PhantomData }
    }
}

impl<V: View> IdempotentElim<V> {
    /// Simplify one statement bottom-up.
    fn transform_stmt(&self, stmt: Stmt<V>) -> (r: Stmt<V>)
        ensures
            r@ == simplify_stmt_spec(stmt@),
        decreases stmt,
    {
        match stmt {
            Stmt::And(s1, s2) => {
                let t1 = self.transform_stmt(*s1);
                let t2 = self.transform_stmt(*s2);
                match (t1, t2) {
                    (Stmt::True, t2) => t2,
                    (t1, Stmt::True) => t1,
                    (t1, t2) => Stmt::And(Box::new(t1), Box::new(t2)),
                }
            },
            Stmt::Or(s1, s2) => {
                let t1 = self.transform_stmt(*s1);
                let t2 = self.transform_stmt(*s2);
                match (t1, t2) {
                    (Stmt::Fail, t2) => t2,
                    (t1, Stmt::Fail) => t1,
                    (t1, t2) => Stmt::Or(Box::new(t1), Box::new(t2)),
                }
            },
            Stmt::If(s1, s2, s3) => {
                let t1 = self.transform_stmt(*s1);
                let t2 = self.transform_stmt(*s2);
                let t3 = self.transform_stmt(*s3);
                match t1 {
                    Stmt::Fail => t3,
                    Stmt::True => t2,
                    t1 => Stmt::If(Box::new(t1), Box::new(t2), Box::new(t3)),
                }
            },
            s => s,
        }
    }
}

impl<V: View> InplaceTransformer<V> for IdempotentElim<V> {
    /// Simplify the body of every definition.
    fn transform_inplace(self, input: &mut Program<V>)
        ensures
            final(input)@.len() == old(input)@.len(),
            forall|i: int|
                0 <= i < old(input)@.len() ==> {
                    &&& final(input)@[i]@.name == old(input)@[i]@.name
                    &&& final(input)@[i]@.params == old(input)@[i]@.params
                    &&& final(input)@[i]@.body == simplify_stmt_spec(old(input)@[i]@.body)
                },
    {
        let n = input.len();
        let mut i: usize = 0;
        while i < n
            invariant
                n == input@.len() == old(input)@.len(),
                i <= n,
                forall|j: int|
                    i <= j < n ==> input@[j] == old(input)@[j],
                forall|j: int|
                    0 <= j < i ==> {
                        &&& input@[j]@.name == old(input)@[j]@.name
                        &&& input@[j]@.params == old(input)@[j]@.params
                        &&& input@[j]@.body == simplify_stmt_spec(old(input)@[j]@.body)
                    },
            decreases n - i,
        {
            let mut body = Stmt::True;
            core::mem::swap(&mut body, &mut input[i].body);
            let mut simplified = self.transform_stmt(body);
            core::mem::swap(&mut simplified, &mut input[i].body);
            i += 1;
        }
    }
}

/// Statements and expressions over string variable names.
pub type ExprS = ExprV<Seq<char>>;

/// Statements over string variable names.
pub type StmtS = StmtV<Seq<char>>;

/// The anonymous variable.
pub open spec fn underscore() -> Seq<char> {
    seq!['_']
}

/// The fresh name that replaces the `n`-th anonymous variable.
pub open spec fn gvar_name(n: nat) -> Seq<char> {
    seq!['_', 'G'] + crate::strings::dec_digits(n)
}

/// The replacement counter after one more anonymous variable; it saturates
/// at the machine bound.
pub open spec fn bump(c: nat) -> nat {
    if c >= usize::MAX {
        c
    } else {
        c + 1
    }
}

/// Anonymous-variable elimination on an expression, threading the counter.
pub open spec fn uelim_expr(e: ExprS, c: nat) -> (ExprS, nat)
    decreases e,
{
    match e {
        ExprV::PV(x) => if x == underscore() {
            (ExprV::PV(gvar_name(bump(c))), bump(c))
        } else {
            (e, c)
        },
        ExprV::Ctor(f, args) => {
            let (args2, c2) = uelim_exprs(args, c);
            (ExprV::Ctor(f, args2), c2)
        },
        _ => (e, c),
    }
}

/// Anonymous-variable elimination on a sequence of expressions, in order.
pub open spec fn uelim_exprs(s: Seq<ExprS>, c: nat) -> (Seq<ExprS>, nat)
    decreases s,
{
    if s.len() == 0 {
        (Seq::empty(), c)
    } else {
        let (e2, c2) = uelim_expr(s[0], c);
        let (rest, c3) = uelim_exprs(s.drop_first(), c2);
        (seq![e2] + rest, c3)
    }
}

/// Anonymous-variable elimination on a statement, threading the counter.
pub open spec fn uelim_stmt(s: StmtS, c: nat) -> (StmtS, nat)
    decreases s,
{
    match s {
        StmtV::And(s1, s2) => {
            let (t1, c1) = uelim_stmt(*s1, c);
            let (t2, c2) = uelim_stmt(*s2, c1);
            (StmtV::And(Box::new(t1), Box::new(t2)), c2)
        },
        StmtV::Or(s1, s2) => {
            let (t1, c1) = uelim_stmt(*s1, c);
            let (t2, c2) = uelim_stmt(*s2, c1);
            (StmtV::Or(Box::new(t1), Box::new(t2)), c2)
        },
        StmtV::If(s1, s2, s3) => {
            let (t1, c1) = uelim_stmt(*s1, c);
            let (t2, c2) = uelim_stmt(*s2, c1);
            let (t3, c3) = uelim_stmt(*s3, c2);
            (StmtV::If(Box::new(t1), Box::new(t2), Box::new(t3)), c3)
        },
        StmtV::Unify(e1, e2) => {
            let (f1, c1) = uelim_expr(e1, c);
            let (f2, c2) = uelim_expr(e2, c1);
            (StmtV::Unify(f1, f2), c2)
        },
        StmtV::Call(p, args) => {
            let (args2, c2) = uelim_exprs(args, c);
            (StmtV::Call(p, args2), c2)
        },
        _ => (s, c),
    }
}

/// Anonymous-variable elimination on a definition: parameters, then body.
pub open spec fn uelim_pred(d: PredDefV<Seq<char>>, c: nat) -> (PredDefV<Seq<char>>, nat) {
    let (params2, c1) = uelim_exprs(d.params, c);
    let (body2, c2) = uelim_stmt(d.body, c1);
    (PredDefV { name: d.name, params: params2, body: body2 }, c2)
}

/// Eliminates anonymous variables: every occurrence of `_` becomes a fresh
/// `_G<n>` name, so distinct occurrences are distinct variables.  Names that
/// merely start with `_` are kept: they share identity across occurrences.
pub struct UnderscoreElim {
    underscore_counter: usize,
}

impl UnderscoreElim {
    /// The number of anonymous variables replaced so far.
    pub closed spec fn counter(self) -> nat {
        self.underscore_counter as nat
    }

    /// A fresh eliminator.
    pub fn new() -> (r: Self)
        ensures
            r.counter() == 0,
    {
        UnderscoreElim { underscore_counter: 0 }
    }

    /// The next fresh variable name.
    fn gen_var(&mut self) -> (r: String)
        ensures
            final(self).counter() == bump(old(self).counter()),
            r@ == gvar_name(final(self).counter()),
    {
        if self.underscore_counter < usize::MAX {
            self.underscore_counter = self.underscore_counter + 1;
        }
        let mut s = String::new();
        crate::strings::push_str(&mut s, "_G");
        crate::strings::push_u64(&mut s, self.underscore_counter as u64);
        proof {
            reveal_strlit("_G");
            assert(s@ =~= gvar_name(self.counter()));
        }
        s
    }

    /// Replace anonymous variables in one expression.
    fn transform_expr(&mut self, expr: &Expr<String>) -> (r: Expr<String>)
        ensures
            (r@, final(self).counter()) == uelim_expr(expr@, old(self).counter()),
        decreases expr,
    {
        broadcast use crate::ast::lemma_view_exprs;

        match expr {
            Expr::PV(x) => {
                let us = String::from_str("_");
                proof {
                    reveal_strlit("_");
                    assert("_"@ =~= underscore());
                }
                if x.eq(&us) {
                    Expr::PV(self.gen_var())
                } else {
                    Expr::PV(x.clone())
                }
            },
            Expr::Ctor(f, args) => {
                let ghost avs = view_exprs(args@);
                let ghost c0 = self.counter();
                let n = args.len();
                let mut out: Vec<Expr<String>> = Vec::new();
                let mut i: usize = 0;
                while i < n
                    invariant
                        n == args@.len() == avs.len(),
                        i <= n,
                        expr == Expr::Ctor(*f, *args),
                        avs == view_exprs(args@),
                        out@.len() == i as int,
                        (view_exprs(out@), self.counter()) == uelim_exprs(avs.take(i as int), c0),
                    decreases n - i,
                {
                    proof {
                        crate::ast::lemma_expr_arg_decreases(*expr, i as int);
                        lemma_uelim_exprs_take(avs, i as int, c0);
                    }
                    let e2 = self.transform_expr(&args[i]);
                    let ghost out0 = out@;
                    out.push(e2);
                    proof {
                        crate::ast::lemma_view_exprs(args@);
                        crate::ast::lemma_view_exprs(out0);
                        let (pre, cmid) = uelim_exprs(avs.take(i as int), c0);
                        let (e2v, cnext) = uelim_expr(avs[i as int], cmid);
                        assert(avs[i as int] == args@[i as int]@);
                        assert(e2@ == e2v);
                        assert(self.counter() == cnext);
                        crate::ast::lemma_view_exprs(out@);
                        assert(out@ =~= out0.push(e2));
                        assert(view_exprs(out0) == pre);
                        assert forall|k: int| 0 <= k < view_exprs(out@).len() implies view_exprs(
                            out@,
                        )[k] == pre.push(e2v)[k] by {
                            if k < i {
                                assert(view_exprs(out@)[k] == out@[k]@);
                                assert(out@[k] == out0[k]);
                                assert(pre[k] == view_exprs(out0)[k]);
                            }
                        }
                        assert(view_exprs(out@) =~= pre.push(e2v));
                        assert(uelim_exprs(avs.take(i + 1), c0) == (pre.push(e2v), cnext));
                    }
                    i += 1;
                }
                proof {
                    assert(avs.take(n as int) =~= avs);
                }
                Expr::Ctor(f.clone(), out)
            },
            Expr::Atom(a) => Expr::Atom(a.clone()),
            Expr::Num(k) => Expr::Num(*k),
        }
    }

    /// Replace anonymous variables in a list of expressions, in order.
    fn transform_exprs(&mut self, args: &Vec<Expr<String>>) -> (r: Vec<Expr<String>>)
        ensures
            (view_exprs(r@), final(self).counter()) == uelim_exprs(
                view_exprs(args@),
                old(self).counter(),
            ),
        decreases args,
    {
        proof {
            crate::ast::lemma_view_exprs(args@);
        }
        let ghost avs = view_exprs(args@);
        let ghost c0 = self.counter();
        let n = args.len();
        let mut out: Vec<Expr<String>> = Vec::new();
        let mut i: usize = 0;
        while i < n
            invariant
                n == args@.len() == avs.len(),
                i <= n,
                avs == view_exprs(args@),
                out@.len() == i as int,
                (view_exprs(out@), self.counter()) == uelim_exprs(avs.take(i as int), c0),
            decreases n - i,
        {
            proof {
                assert(decreases_to!(*args => args@));
                assert(decreases_to!(args@ => args@[i as int]));
                lemma_uelim_exprs_take(avs, i as int, c0);
            }
            let e2 = self.transform_expr(&args[i]);
            let ghost out0 = out@;
            out.push(e2);
            proof {
                crate::ast::lemma_view_exprs(args@);
                crate::ast::lemma_view_exprs(out0);
                let (pre, cmid) = uelim_exprs(avs.take(i as int), c0);
                let (e2v, cnext) = uelim_expr(avs[i as int], cmid);
                assert(avs[i as int] == args@[i as int]@);
                assert(e2@ == e2v);
                assert(self.counter() == cnext);
                crate::ast::lemma_view_exprs(out@);
                assert(out@ =~= out0.push(e2));
                assert(view_exprs(out0) == pre);
                assert forall|k: int| 0 <= k < view_exprs(out@).len() implies view_exprs(
                    out@,
                )[k] == pre.push(e2v)[k] by {
                    if k < i {
                        assert(view_exprs(out@)[k] == out@[k]@);
                        assert(out@[k] == out0[k]);
                        assert(pre[k] == view_exprs(out0)[k]);
                    }
                }
                assert(view_exprs(out@) =~= pre.push(e2v));
                assert(uelim_exprs(avs.take(i + 1), c0) == (pre.push(e2v), cnext));
            }
            i += 1;
        }
        proof {
            assert(avs.take(n as int) =~= avs);
        }
        out
    }

    /// Replace anonymous variables in one statement.
    fn transform_stmt(&mut self, stmt: &Stmt<String>) -> (r: Stmt<String>)
        ensures
            (r@, final(self).counter()) == uelim_stmt(stmt@, old(self).counter()),
        decreases stmt,
    {
        match stmt {
            Stmt::And(s1, s2) => {
                let t1 = self.transform_stmt(s1);
                let t2 = self.transform_stmt(s2);
                Stmt::And(Box::new(t1), Box::new(t2))
            },
            Stmt::Or(s1, s2) => {
                let t1 = self.transform_stmt(s1);
                let t2 = self.transform_stmt(s2);
                Stmt::Or(Box::new(t1), Box::new(t2))
            },
            Stmt::If(s1, s2, s3) => {
                let t1 = self.transform_stmt(s1);
                let t2 = self.transform_stmt(s2);
                let t3 = self.transform_stmt(s3);
                Stmt::If(Box::new(t1), Box::new(t2), Box::new(t3))
            },
            Stmt::Unify(e1, e2) => {
                let f1 = self.transform_expr(e1);
                let f2 = self.transform_expr(e2);
                Stmt::Unify(f1, f2)
            },
            Stmt::Call(p, args) => {
                let args2 = self.transform_exprs(args);
                Stmt::Call(p.clone(), args2)
            },
            Stmt::Fail => Stmt::Fail,
            Stmt::True => Stmt::True,
        }
    }

    /// Replace anonymous variables in one definition: parameters, then body.
    fn transform_pred(&mut self, pred_def: &mut PredDef<String>)
        ensures
            (final(pred_def)@, final(self).counter()) == ({
                let (d2, c2) = uelim_pred(old(pred_def)@, old(self).counter());
                (d2, c2)
            }),
    {
        let params2 = self.transform_exprs(&pred_def.params);
        let body2 = self.transform_stmt(&pred_def.body);
        pred_def.params = params2;
        pred_def.body = body2;
    }
}

impl InplaceTransformer<String> for UnderscoreElim {
    /// Replace anonymous variables throughout the program, in order.
    fn transform_inplace(self, input: &mut Program<String>)
        ensures
            final(input)@.len() == old(input)@.len(),
            forall|i: int|
                0 <= i < old(input)@.len() ==> final(input)@[i]@ == uelim_prog_entry(
                    view_program(old(input)@),
                    self.counter(),
                    i,
                ),
    {
        let mut me = self;
        let ghost c0 = me.counter();
        let ghost p0 = view_program(old(input)@);
        let n = input.len();
        let mut i: usize = 0;
        while i < n
            invariant
                n == input@.len() == old(input)@.len(),
                p0 == view_program(old(input)@),
                i <= n,
                forall|j: int| i <= j < n ==> input@[j] == old(input)@[j],
                me.counter() == uelim_counter_upto(p0, c0, i as int),
                forall|j: int| 0 <= j < i ==> input@[j]@ == uelim_prog_entry(p0, c0, j),
            decreases n - i,
        {
            me.transform_pred(&mut input[i]);
            proof {
                assert(p0[i as int] == old(input)@[i as int]@);
            }
            i += 1;
        }
    }
}

/// The counter after eliminating anonymous variables in the first `i`
/// definitions of `p`, starting from `c`.
pub open spec fn uelim_counter_upto(p: Seq<PredDefV<Seq<char>>>, c: nat, i: int) -> nat
    decreases i,
{
    if i <= 0 {
        c
    } else {
        uelim_pred(p[i - 1], uelim_counter_upto(p, c, i - 1)).1
    }
}

/// The `i`-th definition after eliminating anonymous variables throughout
/// the program, starting the counter at `c`.
pub open spec fn uelim_prog_entry(p: Seq<PredDefV<Seq<char>>>, c: nat, i: int) -> PredDefV<
    Seq<char>,
> {
    uelim_pred(p[i], uelim_counter_upto(p, c, i)).0
}

/// Number of anonymous-variable occurrences in an expression.
pub open spec fn count_us_expr(e: ExprS) -> nat
    decreases e,
{
    match e {
        ExprV::PV(x) => if x == underscore() {
            1nat
        } else {
            0nat
        },
        ExprV::Ctor(_, args) => count_us_exprs(args),
        _ => 0nat,
    }
}

/// Number of anonymous-variable occurrences in a list of expressions.
pub open spec fn count_us_exprs(s: Seq<ExprS>) -> nat
    decreases s,
{
    if s.len() == 0 {
        0nat
    } else {
        count_us_expr(s[0]) + count_us_exprs(s.drop_first())
    }
}

/// Number of anonymous-variable occurrences in a statement.
pub open spec fn count_us_stmt(s: StmtS) -> nat
    decreases s,
{
    match s {
        StmtV::And(s1, s2) => count_us_stmt(*s1) + count_us_stmt(*s2),
        StmtV::Or(s1, s2) => count_us_stmt(*s1) + count_us_stmt(*s2),
        StmtV::If(s1, s2, s3) => count_us_stmt(*s1) + count_us_stmt(*s2) + count_us_stmt(*s3),
        StmtV::Unify(e1, e2) => count_us_expr(e1) + count_us_expr(e2),
        StmtV::Call(_, args) => count_us_exprs(args),
        _ => 0nat,
    }
}

/// No anonymous variable occurs in the expression.
pub open spec fn nous_expr(e: ExprS) -> bool
    decreases e,
{
    match e {
        ExprV::PV(x) => x != underscore(),
        ExprV::Ctor(_, args) => nous_exprs(args),
        _ => true,
    }
}

/// No anonymous variable occurs in the list of expressions.
pub open spec fn nous_exprs(s: Seq<ExprS>) -> bool
    decreases s,
{
    s.len() == 0 || (nous_expr(s[0]) && nous_exprs(s.drop_first()))
}

/// No anonymous variable occurs in the statement.
pub open spec fn nous_stmt(s: StmtS) -> bool
    decreases s,
{
    match s {
        StmtV::And(s1, s2) => nous_stmt(*s1) && nous_stmt(*s2),
        StmtV::Or(s1, s2) => nous_stmt(*s1) && nous_stmt(*s2),
        StmtV::If(s1, s2, s3) => nous_stmt(*s1) && nous_stmt(*s2) && nous_stmt(*s3),
        StmtV::Unify(e1, e2) => nous_expr(e1) && nous_expr(e2),
        StmtV::Call(_, args) => nous_exprs(args),
        _ => true,
    }
}

/// Law: distinct anonymous-variable occurrences get distinct fresh names.
pub proof fn lemma_gvar_names_distinct(a: nat, b: nat)
    requires
        a != b,
    ensures
        gvar_name(a) != gvar_name(b),
{
    crate::strings::lemma_dec_digits_injective(a, b);
    if gvar_name(a) == gvar_name(b) {
        assert(gvar_name(a).skip(2) =~= crate::strings::dec_digits(a));
        assert(gvar_name(b).skip(2) =~= crate::strings::dec_digits(b));
    }
}

/// A generated name is never the anonymous variable.
pub proof fn lemma_gvar_not_underscore(n: nat)
    ensures
        gvar_name(n) != underscore(),
{
    crate::strings::lemma_dec_digits_len_pos(n);
    assert(gvar_name(n).len() >= 3);
}

/// Law: eliminating anonymous variables in an expression leaves none behind
/// and advances the counter by exactly the number of occurrences (the
/// counter stays below the machine bound by hypothesis).
pub proof fn lemma_uelim_expr_counts(e: ExprS, c: nat)
    requires
        c + count_us_expr(e) <= usize::MAX,
    ensures
        uelim_expr(e, c).1 == c + count_us_expr(e),
        nous_expr(uelim_expr(e, c).0),
    decreases e,
{
    match e {
        ExprV::PV(x) => {
            if x == underscore() {
                lemma_gvar_not_underscore(bump(c));
            }
        },
        ExprV::Ctor(_, args) => {
            lemma_uelim_exprs_counts(args, c);
        },
        _ => {},
    }
}

/// As `lemma_uelim_expr_counts`, for a list of expressions.
pub proof fn lemma_uelim_exprs_counts(s: Seq<ExprS>, c: nat)
    requires
        c + count_us_exprs(s) <= usize::MAX,
    ensures
        uelim_exprs(s, c).1 == c + count_us_exprs(s),
        nous_exprs(uelim_exprs(s, c).0),
    decreases s,
{
    if s.len() > 0 {
        lemma_uelim_expr_counts(s[0], c);
        lemma_uelim_exprs_counts(s.drop_first(), uelim_expr(s[0], c).1);
        let (e2, c2) = uelim_expr(s[0], c);
        let (rest, c3) = uelim_exprs(s.drop_first(), c2);
        let whole = seq![e2] + rest;
        assert(whole[0] == e2);
        assert(whole.drop_first() =~= rest);
    }
}

/// Law: eliminating anonymous variables in a statement leaves none behind
/// and advances the counter by exactly the number of occurrences.
pub proof fn lemma_uelim_stmt_counts(s: StmtS, c: nat)
    requires
        c + count_us_stmt(s) <= usize::MAX,
    ensures
        uelim_stmt(s, c).1 == c + count_us_stmt(s),
        nous_stmt(uelim_stmt(s, c).0),
    decreases s,
{
    match s {
        StmtV::And(s1, s2) => {
            lemma_uelim_stmt_counts(*s1, c);
            lemma_uelim_stmt_counts(*s2, uelim_stmt(*s1, c).1);
        },
        StmtV::Or(s1, s2) => {
            lemma_uelim_stmt_counts(*s1, c);
            lemma_uelim_stmt_counts(*s2, uelim_stmt(*s1, c).1);
        },
        StmtV::If(s1, s2, s3) => {
            lemma_uelim_stmt_counts(*s1, c);
            lemma_uelim_stmt_counts(*s2, uelim_stmt(*s1, c).1);
            lemma_uelim_stmt_counts(*s3, uelim_stmt(*s2, uelim_stmt(*s1, c).1).1);
        },
        StmtV::Unify(e1, e2) => {
            lemma_uelim_expr_counts(e1, c);
            lemma_uelim_expr_counts(e2, uelim_expr(e1, c).1);
        },
        StmtV::Call(_, args) => {
            lemma_uelim_exprs_counts(args, c);
        },
        _ => {},
    }
}

/// Splitting off the next expression splits the elimination fold in order.
pub proof fn lemma_uelim_exprs_take(s: Seq<ExprS>, i: int, c: nat)
    requires
        0 <= i < s.len(),
    ensures
        ({
            let (pre, cmid) = uelim_exprs(s.take(i), c);
            let (e2, cnext) = uelim_expr(s[i], cmid);
            uelim_exprs(s.take(i + 1), c) == (pre.push(e2), cnext)
        }),
    decreases i,
{
    if i == 0 {
        assert(s.take(1) =~= seq![s[0]]);
        assert(s.take(1).drop_first() =~= Seq::<ExprS>::empty());
        assert(s.take(0) =~= Seq::<ExprS>::empty());
        let (e2, cnext) = uelim_expr(s[0], c);
        assert(uelim_exprs(s.take(1), c) == (seq![e2] + uelim_exprs(
            s.take(1).drop_first(),
            cnext,
        ).0, uelim_exprs(s.take(1).drop_first(), cnext).1));
        assert(seq![e2] + Seq::<ExprS>::empty() =~= Seq::<ExprS>::empty().push(e2));
    } else {
        let (h2, c1) = uelim_expr(s[0], c);
        lemma_uelim_exprs_take(s.drop_first(), i - 1, c1);
        assert(s.take(i + 1)[0] == s[0]);
        assert(s.take(i)[0] == s[0]);
        assert(s.take(i + 1).drop_first() =~= s.drop_first().take(i));
        assert(s.take(i).drop_first() =~= s.drop_first().take(i - 1));
        assert(s.drop_first()[i - 1] == s[i]);
        let (pre0, cm0) = uelim_exprs(s.drop_first().take(i - 1), c1);
        let (e2, cnext) = uelim_expr(s[i], cm0);
        assert(uelim_exprs(s.take(i), c) == (seq![h2] + pre0, cm0));
        assert(uelim_exprs(s.drop_first().take(i), c1) == (pre0.push(e2), cnext));
        assert(uelim_exprs(s.take(i + 1), c) == (seq![h2] + pre0.push(e2), cnext));
        assert(seq![h2] + pre0.push(e2) =~= (seq![h2] + pre0).push(e2));
    }
}

/// Index of the first entry equal to `x` in the name table, or -1.
pub open spec fn tbl_index(t: Seq<Seq<char>>, x: Seq<char>) -> int
    decreases t,
{
    if t.len() == 0 {
        -1
    } else if t[0] == x {
        0
    } else {
        let r = tbl_index(t.drop_first(), x);
        if r < 0 {
            -1
        } else {
            r + 1
        }
    }
}

/// What `tbl_index` returns: -1 when the name is absent, otherwise the first
/// position holding it.
pub proof fn lemma_tbl_index(t: Seq<Seq<char>>, x: Seq<char>)
    ensures
        tbl_index(t, x) == -1 ==> forall|j: int| 0 <= j < t.len() ==> t[j] != x,
        tbl_index(t, x) != -1 ==> {
            let r = tbl_index(t, x);
            &&& 0 <= r < t.len()
            &&& t[r] == x
            &&& forall|j: int| 0 <= j < r ==> t[j] != x
        },
    decreases t,
{
    if t.len() > 0 && t[0] != x {
        lemma_tbl_index(t.drop_first(), x);
        assert forall|j: int| 1 <= j < t.len() implies t.drop_first()[j - 1] == t[j] by {}
    }
}

/// Variable enumeration on an expression: names become dense indices into
/// the growing table of first occurrences.
pub open spec fn enum_expr(e: ExprS, t: Seq<Seq<char>>) -> (ExprV<usize>, Seq<Seq<char>>)
    decreases e,
{
    match e {
        ExprV::Atom(a) => (ExprV::Atom(a), t),
        ExprV::Num(n) => (ExprV::Num(n), t),
        ExprV::PV(x) => {
            let i = tbl_index(t, x);
            if i >= 0 {
                (ExprV::PV(i as usize), t)
            } else {
                (ExprV::PV(t.len() as usize), t.push(x))
            }
        },
        ExprV::Ctor(f, args) => {
            let (args2, t2) = enum_exprs(args, t);
            (ExprV::Ctor(f, args2), t2)
        },
    }
}

/// Variable enumeration on a list of expressions, in order.
pub open spec fn enum_exprs(s: Seq<ExprS>, t: Seq<Seq<char>>) -> (Seq<ExprV<usize>>, Seq<Seq<char>>)
    decreases s,
{
    if s.len() == 0 {
        (Seq::empty(), t)
    } else {
        let (e2, t2) = enum_expr(s[0], t);
        let (rest, t3) = enum_exprs(s.drop_first(), t2);
        (seq![e2] + rest, t3)
    }
}

/// Variable enumeration on a statement.
pub open spec fn enum_stmt(s: StmtS, t: Seq<Seq<char>>) -> (StmtV<usize>, Seq<Seq<char>>)
    decreases s,
{
    match s {
        StmtV::And(s1, s2) => {
            let (r1, t1) = enum_stmt(*s1, t);
            let (r2, t2) = enum_stmt(*s2, t1);
            (StmtV::And(Box::new(r1), Box::new(r2)), t2)
        },
        StmtV::Or(s1, s2) => {
            let (r1, t1) = enum_stmt(*s1, t);
            let (r2, t2) = enum_stmt(*s2, t1);
            (StmtV::Or(Box::new(r1), Box::new(r2)), t2)
        },
        StmtV::If(s1, s2, s3) => {
            let (r1, t1) = enum_stmt(*s1, t);
            let (r2, t2) = enum_stmt(*s2, t1);
            let (r3, t3) = enum_stmt(*s3, t2);
            (StmtV::If(Box::new(r1), Box::new(r2), Box::new(r3)), t3)
        },
        StmtV::Unify(e1, e2) => {
            let (f1, t1) = enum_expr(e1, t);
            let (f2, t2) = enum_expr(e2, t1);
            (StmtV::Unify(f1, f2), t2)
        },
        StmtV::Call(p, args) => {
            let (args2, t2) = enum_exprs(args, t);
            (StmtV::Call(p, args2), t2)
        },
        StmtV::Fail => (StmtV::Fail, t),
        StmtV::True => (StmtV::True, t),
    }
}

/// Variable enumeration on one definition, scoped to it: the table starts
/// empty, covers the parameters, then the body.
pub open spec fn enum_pred(d: PredDefV<Seq<char>>) -> (PredDefV<usize>, Seq<Seq<char>>) {
    let (params2, t1) = enum_exprs(d.params, Seq::empty());
    let (body2, t2) = enum_stmt(d.body, t1);
    (PredDefV { name: d.name, params: params2, body: body2 }, t2)
}

/// Rewrites string-named variables to dense integer indices, assigned per
/// distinct name in order of first occurrence, scoped per definition.
pub struct EnumerateVariables {}

impl EnumerateVariables {
    /// A fresh enumerator.
    pub fn new() -> (r: Self) {
        EnumerateVariables {  }
    }
}

/// Look `x` up in the name table.
fn tbl_lookup(table: &Vec<String>, x: &String) -> (r: Option<usize>)
    ensures
        match r {
            Some(i) => tbl_index(view_vars(table@), x@) == i as int,
            None => tbl_index(view_vars(table@), x@) == -1,
        },
{
    let n = table.len();
    let mut i: usize = 0;
    while i < n
        invariant
            n == table@.len(),
            i <= n,
            forall|j: int| 0 <= j < i ==> table@[j]@ != x@,
        decreases n - i,
    {
        if table[i].eq(x) {
            proof {
                lemma_tbl_index(view_vars(table@), x@);
                assert(view_vars(table@)[i as int] == x@);
            }
            return Some(i);
        }
        i += 1;
    }
    proof {
        lemma_tbl_index(view_vars(table@), x@);
        assert forall|j: int| 0 <= j < n implies view_vars(table@)[j] != x@ by {}
        if tbl_index(view_vars(table@), x@) != -1 {
            assert(false);
        }
    }
    None
}

impl EnumerateVariables {
    /// Enumerate the variables of one expression against the table.
    fn transform_expr(&self, e: &Expr<String>, table: &mut Vec<String>) -> (r: Expr<usize>)
        ensures
            (r@, view_vars(final(table)@)) == enum_expr(e@, view_vars(old(table)@)),
        decreases e,
    {
        match e {
            Expr::Atom(a) => Expr::Atom(a.clone()),
            Expr::Num(n) => Expr::Num(*n),
            Expr::PV(x) => {
                match tbl_lookup(table, x) {
                    Some(i) => Expr::PV(i),
                    None => {
                        let i = table.len();
                        table.push(x.clone());
                        proof {
                            assert(view_vars(table@) =~= view_vars(old(table)@).push(x@));
                        }
                        Expr::PV(i)
                    },
                }
            },
            Expr::Ctor(f, args) => {
                let args2 = self.transform_exprs(args, table);
                Expr::Ctor(f.clone(), args2)
            },
        }
    }

    /// Enumerate the variables of a list of expressions, in order.
    fn transform_exprs(&self, args: &Vec<Expr<String>>, table: &mut Vec<String>) -> (r: Vec<
        Expr<usize>,
    >)
        ensures
            (view_exprs(r@), view_vars(final(table)@)) == enum_exprs(
                view_exprs(args@),
                view_vars(old(table)@),
            ),
        decreases args,
    {
        proof {
            crate::ast::lemma_view_exprs(args@);
        }
        let ghost avs = view_exprs(args@);
        let ghost t0 = view_vars(old(table)@);
        let n = args.len();
        let mut out: Vec<Expr<usize>> = Vec::new();
        let mut i: usize = 0;
        while i < n
            invariant
                n == args@.len() == avs.len(),
                i <= n,
                avs == view_exprs(args@),
                out@.len() == i as int,
                (view_exprs(out@), view_vars(table@)) == enum_exprs(avs.take(i as int), t0),
            decreases n - i,
        {
            proof {
                assert(decreases_to!(*args => args@));
                assert(decreases_to!(args@ => args@[i as int]));
                lemma_enum_exprs_take(avs, i as int, t0);
            }
            let e2 = self.transform_expr(&args[i], table);
            let ghost out0 = out@;
            out.push(e2);
            proof {
                crate::ast::lemma_view_exprs(args@);
                crate::ast::lemma_view_exprs(out0);
                let (pre, tmid) = enum_exprs(avs.take(i as int), t0);
                let (e2v, tnext) = enum_expr(avs[i as int], tmid);
                assert(avs[i as int] == args@[i as int]@);
                assert(e2@ == e2v);
                crate::ast::lemma_view_exprs(out@);
                assert(out@ =~= out0.push(e2));
                assert(view_exprs(out0) == pre);
                assert forall|k: int| 0 <= k < view_exprs(out@).len() implies view_exprs(
                    out@,
                )[k] == pre.push(e2v)[k] by {
                    if k < i {
                        assert(view_exprs(out@)[k] == out@[k]@);
                        assert(out@[k] == out0[k]);
                        assert(pre[k] == view_exprs(out0)[k]);
                    }
                }
                assert(view_exprs(out@) =~= pre.push(e2v));
            }
            i += 1;
        }
        proof {
            assert(avs.take(n as int) =~= avs);
        }
        out
    }

    /// Enumerate the variables of one statement against the table.
    fn transform_stmt(&self, s: &Stmt<String>, table: &mut Vec<String>) -> (r: Stmt<usize>)
        ensures
            (r@, view_vars(final(table)@)) == enum_stmt(s@, view_vars(old(table)@)),
        decreases s,
    {
        match s {
            Stmt::And(s1, s2) => {
                let r1 = self.transform_stmt(s1, table);
                let r2 = self.transform_stmt(s2, table);
                Stmt::And(Box::new(r1), Box::new(r2))
            },
            Stmt::Or(s1, s2) => {
                let r1 = self.transform_stmt(s1, table);
                let r2 = self.transform_stmt(s2, table);
                Stmt::Or(Box::new(r1), Box::new(r2))
            },
            Stmt::If(s1, s2, s3) => {
                let r1 = self.transform_stmt(s1, table);
                let r2 = self.transform_stmt(s2, table);
                let r3 = self.transform_stmt(s3, table);
                Stmt::If(Box::new(r1), Box::new(r2), Box::new(r3))
            },
            Stmt::Unify(e1, e2) => {
                let f1 = self.transform_expr(e1, table);
                let f2 = self.transform_expr(e2, table);
                Stmt::Unify(f1, f2)
            },
            Stmt::Call(p, args) => {
                let args2 = self.transform_exprs(args, table);
                Stmt::Call(p.clone(), args2)
            },
            Stmt::Fail => Stmt::Fail,
            Stmt::True => Stmt::True,
        }
    }
}

impl Transformer<String, usize> for EnumerateVariables {
    /// Enumerate variables in every definition, each scoped to itself.
    fn transform(self, input: Program<String>) -> (r: Program<usize>)
        ensures
            r@.len() == input@.len(),
            forall|i: int| 0 <= i < input@.len() ==> r@[i]@ == enum_pred(input@[i]@).0,
    {
        let n = input.len();
        let mut out: Program<usize> = Vec::new();
        let mut i: usize = 0;
        while i < n
            invariant
                n == input@.len(),
                i <= n,
                out@.len() == i as int,
                forall|j: int| 0 <= j < i ==> out@[j]@ == enum_pred(input@[j]@).0,
            decreases n - i,
        {
            let d = &input[i];
            let mut table: Vec<String> = Vec::new();
            proof {
                assert(view_vars(table@) =~= Seq::<Seq<char>>::empty());
            }
            let params2 = self.transform_exprs(&d.params, &mut table);
            let body2 = self.transform_stmt(&d.body, &mut table);
            out.push(PredDef { name: d.name.clone(), params: params2, body: body2 });
            i += 1;
        }
        out
    }
}

/// Splitting off the next expression splits the enumeration fold in order.
pub proof fn lemma_enum_exprs_take(s: Seq<ExprS>, i: int, t: Seq<Seq<char>>)
    requires
        0 <= i < s.len(),
    ensures
        ({
            let (pre, tmid) = enum_exprs(s.take(i), t);
            let (e2, tnext) = enum_expr(s[i], tmid);
            enum_exprs(s.take(i + 1), t) == (pre.push(e2), tnext)
        }),
    decreases i,
{
    if i == 0 {
        assert(s.take(1) =~= seq![s[0]]);
        assert(s.take(1).drop_first() =~= Seq::<ExprS>::empty());
        assert(s.take(0) =~= Seq::<ExprS>::empty());
        let (e2, tnext) = enum_expr(s[0], t);
        assert(s.take(1)[0] == s[0]);
        assert(enum_exprs(s.take(1), t) == (seq![e2] + enum_exprs(
            s.take(1).drop_first(),
            tnext,
        ).0, enum_exprs(s.take(1).drop_first(), tnext).1));
        assert(seq![e2] + Seq::<ExprV<usize>>::empty() =~= Seq::<ExprV<usize>>::empty().push(e2));
    } else {
        let (h2, t1) = enum_expr(s[0], t);
        lemma_enum_exprs_take(s.drop_first(), i - 1, t1);
        assert(s.take(i + 1)[0] == s[0]);
        assert(s.take(i)[0] == s[0]);
        assert(s.take(i + 1).drop_first() =~= s.drop_first().take(i));
        assert(s.take(i).drop_first() =~= s.drop_first().take(i - 1));
        assert(s.drop_first()[i - 1] == s[i]);
        let (pre0, tm0) = enum_exprs(s.drop_first().take(i - 1), t1);
        let (e2, tnext) = enum_expr(s[i], tm0);
        assert(enum_exprs(s.take(i), t) == (seq![h2] + pre0, tm0));
        assert(enum_exprs(s.drop_first().take(i), t1) == (pre0.push(e2), tnext));
        assert(enum_exprs(s.take(i + 1), t) == (seq![h2] + pre0.push(e2), tnext));
        assert(seq![h2] + pre0.push(e2) =~= (seq![h2] + pre0).push(e2));
    }
}

/// All table entries are distinct names.
pub open spec fn distinct_tbl(t: Seq<Seq<char>>) -> bool {
    forall|i: int, j: int| 0 <= i < j < t.len() ==> t[i] != t[j]
}

/// The renamed variables of `outp` correspond, occurrence by occurrence, to
/// the original names of `inp` under the table `t`.
pub open spec fn pvs_match(inp: Seq<Seq<char>>, outp: Seq<usize>, t: Seq<Seq<char>>) -> bool {
    &&& outp.len() == inp.len()
    &&& forall|k: int| #![trigger outp[k]]
        0 <= k < outp.len() ==> outp[k] < t.len() && t[outp[k] as int] == inp[k]
}

/// An element of either part is an element of the concatenation.
pub proof fn lemma_contains_concat<W>(a: Seq<W>, b: Seq<W>, x: W)
    requires
        a.contains(x) || b.contains(x),
    ensures
        (a + b).contains(x),
{
    if a.contains(x) {
        let k = choose|k: int| 0 <= k < a.len() && a[k] == x;
        assert((a + b)[k] == x);
    } else {
        let k = choose|k: int| 0 <= k < b.len() && b[k] == x;
        assert((a + b)[a.len() + k] == x);
    }
}

/// Every name the enumeration added to the table occurs in `inp`.
pub open spec fn new_entries_occur(
    t: Seq<Seq<char>>,
    t2: Seq<Seq<char>>,
    inp: Seq<Seq<char>>,
) -> bool {
    forall|j: int| t.len() <= j < t2.len() ==> inp.contains(#[trigger] t2[j])
}

/// Law (one expression): enumeration keeps the table distinct, only grows
/// it, and renames occurrences consistently with the final table.
pub proof fn lemma_enum_expr_bij(e: ExprS, t: Seq<Seq<char>>)
    requires
        distinct_tbl(t),
        t.len() + expr_pvs(e).len() <= usize::MAX,
    ensures
        ({
            let (e2, t2) = enum_expr(e, t);
            &&& distinct_tbl(t2)
            &&& t.is_prefix_of(t2)
            &&& t2.len() <= t.len() + expr_pvs(e).len()
            &&& pvs_match(expr_pvs(e), expr_pvs(e2), t2)
            &&& new_entries_occur(t, t2, expr_pvs(e))
        }),
    decreases e,
{
    match e {
        ExprV::PV(x) => {
            lemma_tbl_index(t, x);
            let i = tbl_index(t, x);
            if i >= 0 {
                assert(t.is_prefix_of(t)) by {
                    assert(t =~= t.take(t.len() as int));
                }
                let outp = expr_pvs(enum_expr(e, t).0);
                assert(outp =~= seq![i as usize]);
                assert(outp[0] == i as usize);
            } else {
                let t2 = t.push(x);
                assert(t.is_prefix_of(t2)) by {
                    assert(t =~= t2.take(t.len() as int));
                }
                assert forall|a: int, b: int| 0 <= a < b < t2.len() implies t2[a] != t2[b] by {
                    if b == t.len() as int {
                        assert(t2[b] == x);
                        assert(t2[a] == t[a]);
                    }
                }
                let outp = expr_pvs(enum_expr(e, t).0);
                assert(outp =~= seq![t.len() as usize]);
                assert(t2[t.len() as int] == x);
                assert(expr_pvs(e)[0] == x);
                assert forall|j: int| t.len() <= j < t2.len() implies expr_pvs(e).contains(
                    #[trigger] t2[j],
                ) by {
                    assert(t2[j] == x);
                }
            }
        },
        ExprV::Ctor(_, args) => {
            lemma_enum_exprs_bij(args, t);
        },
        _ => {},
    }
}

/// As `lemma_enum_expr_bij`, for a list of expressions.
pub proof fn lemma_enum_exprs_bij(s: Seq<ExprS>, t: Seq<Seq<char>>)
    requires
        distinct_tbl(t),
        t.len() + exprs_pvs(s).len() <= usize::MAX,
    ensures
        ({
            let (s2, t2) = enum_exprs(s, t);
            &&& distinct_tbl(t2)
            &&& t.is_prefix_of(t2)
            &&& t2.len() <= t.len() + exprs_pvs(s).len()
            &&& pvs_match(exprs_pvs(s), exprs_pvs(s2), t2)
            &&& new_entries_occur(t, t2, exprs_pvs(s))
        }),
    decreases s,
{
    if s.len() > 0 {
        let (e2, t1) = enum_expr(s[0], t);
        let (rest, t2) = enum_exprs(s.drop_first(), t1);
        lemma_enum_expr_bij(s[0], t);
        lemma_enum_exprs_bij(s.drop_first(), t1);
        let whole = seq![e2] + rest;
        assert(whole[0] == e2);
        assert(whole.drop_first() =~= rest);
        lemma_pvs_match_concat(
            expr_pvs(s[0]),
            exprs_pvs(s.drop_first()),
            expr_pvs(e2),
            exprs_pvs(rest),
            t1,
            t2,
        );
        assert forall|j: int| t.len() <= j < t2.len() implies exprs_pvs(s).contains(
            #[trigger] t2[j],
        ) by {
            assert(exprs_pvs(s) == expr_pvs(s[0]) + exprs_pvs(s.drop_first()));
            if j < t1.len() {
                assert(t1[j] == t2.take(t1.len() as int)[j]);
                assert(expr_pvs(s[0]).contains(t2[j]));
            } else {
                assert(exprs_pvs(s.drop_first()).contains(t2[j]));
            }
            lemma_contains_concat(expr_pvs(s[0]), exprs_pvs(s.drop_first()), t2[j]);
        }
    }
}

/// Composing two enumeration stages composes their new-entry origins.
pub proof fn lemma_new_entries_compose(
    t: Seq<Seq<char>>,
    t1: Seq<Seq<char>>,
    t2: Seq<Seq<char>>,
    pa: Seq<Seq<char>>,
    pb: Seq<Seq<char>>,
)
    requires
        t.is_prefix_of(t1),
        t1.is_prefix_of(t2),
        new_entries_occur(t, t1, pa),
        new_entries_occur(t1, t2, pb),
    ensures
        new_entries_occur(t, t2, pa + pb),
{
    assert forall|j: int| t.len() <= j < t2.len() implies (pa + pb).contains(
        #[trigger] t2[j],
    ) by {
        if j < t1.len() {
            assert(t1[j] == t2.take(t1.len() as int)[j]);
            assert(pa.contains(t2[j]));
        } else {
            assert(pb.contains(t2[j]));
        }
        lemma_contains_concat(pa, pb, t2[j]);
    }
}

/// As `lemma_enum_expr_bij`, for a statement.
pub proof fn lemma_enum_stmt_bij(s: StmtS, t: Seq<Seq<char>>)
    requires
        distinct_tbl(t),
        t.len() + stmt_pvs(s).len() <= usize::MAX,
    ensures
        ({
            let (s2, t2) = enum_stmt(s, t);
            &&& distinct_tbl(t2)
            &&& t.is_prefix_of(t2)
            &&& t2.len() <= t.len() + stmt_pvs(s).len()
            &&& pvs_match(stmt_pvs(s), stmt_pvs(s2), t2)
            &&& new_entries_occur(t, t2, stmt_pvs(s))
        }),
    decreases s,
{
    match s {
        StmtV::And(s1, s2) => {
            let (r1, t1) = enum_stmt(*s1, t);
            let (r2, t2) = enum_stmt(*s2, t1);
            lemma_enum_stmt_bij(*s1, t);
            lemma_enum_stmt_bij(*s2, t1);
            lemma_pvs_match_concat(stmt_pvs(*s1), stmt_pvs(*s2), stmt_pvs(r1), stmt_pvs(r2), t1, t2);
            lemma_new_entries_compose(t, t1, t2, stmt_pvs(*s1), stmt_pvs(*s2));
        },
        StmtV::Or(s1, s2) => {
            let (r1, t1) = enum_stmt(*s1, t);
            let (r2, t2) = enum_stmt(*s2, t1);
            lemma_enum_stmt_bij(*s1, t);
            lemma_enum_stmt_bij(*s2, t1);
            lemma_pvs_match_concat(stmt_pvs(*s1), stmt_pvs(*s2), stmt_pvs(r1), stmt_pvs(r2), t1, t2);
            lemma_new_entries_compose(t, t1, t2, stmt_pvs(*s1), stmt_pvs(*s2));
        },
        StmtV::If(s1, s2, s3) => {
            let (r1, t1) = enum_stmt(*s1, t);
            let (r2, t2) = enum_stmt(*s2, t1);
            let (r3, t3) = enum_stmt(*s3, t2);
            lemma_enum_stmt_bij(*s1, t);
            lemma_enum_stmt_bij(*s2, t1);
            lemma_enum_stmt_bij(*s3, t2);
            lemma_pvs_match_concat(stmt_pvs(*s1), stmt_pvs(*s2), stmt_pvs(r1), stmt_pvs(r2), t1, t2);
            lemma_pvs_match_concat(
                stmt_pvs(*s1) + stmt_pvs(*s2),
                stmt_pvs(*s3),
                stmt_pvs(r1) + stmt_pvs(r2),
                stmt_pvs(r3),
                t2,
                t3,
            );
            lemma_new_entries_compose(t, t1, t2, stmt_pvs(*s1), stmt_pvs(*s2));
            assert(t.is_prefix_of(t2)) by {
                assert(t =~= t2.take(t.len() as int));
            }
            lemma_new_entries_compose(t, t2, t3, stmt_pvs(*s1) + stmt_pvs(*s2), stmt_pvs(*s3));
        },
        StmtV::Unify(e1, e2) => {
            let (f1, t1) = enum_expr(e1, t);
            let (f2, t2) = enum_expr(e2, t1);
            lemma_enum_expr_bij(e1, t);
            lemma_enum_expr_bij(e2, t1);
            lemma_pvs_match_concat(expr_pvs(e1), expr_pvs(e2), expr_pvs(f1), expr_pvs(f2), t1, t2);
            lemma_new_entries_compose(t, t1, t2, expr_pvs(e1), expr_pvs(e2));
        },
        StmtV::Call(_, args) => {
            lemma_enum_exprs_bij(args, t);
        },
        _ => {},
    }
}

/// Matching is kept by concatenation when the table only grows.
pub proof fn lemma_pvs_match_concat(
    ia: Seq<Seq<char>>,
    ib: Seq<Seq<char>>,
    oa: Seq<usize>,
    ob: Seq<usize>,
    ta: Seq<Seq<char>>,
    tb: Seq<Seq<char>>,
)
    requires
        pvs_match(ia, oa, ta),
        pvs_match(ib, ob, tb),
        ta.is_prefix_of(tb),
    ensures
        pvs_match(ia + ib, oa + ob, tb),
{
    assert forall|k: int| 0 <= k < (oa + ob).len() implies (oa + ob)[k] < tb.len() && tb[(oa
        + ob)[k] as int] == (ia + ib)[k] by {
        if k < oa.len() {
            assert((oa + ob)[k] == oa[k]);
            assert((ia + ib)[k] == ia[k]);
            assert(oa[k] < ta.len() && ta[oa[k] as int] == ia[k]);
            assert(ta.len() <= tb.len());
            assert(tb[oa[k] as int] == ta[oa[k] as int]);
        } else {
            assert((oa + ob)[k] == ob[k - oa.len()]);
            assert((ia + ib)[k] == ib[k - ia.len()]);
            assert(ob[k - oa.len()] < tb.len() && tb[ob[k - oa.len()] as int] == ib[k
                - ia.len()]);
        }
    }
}

/// Law: within one definition, variable enumeration is a bijection between
/// the names that occur and the dense indices `0 .. table.len()`: the final
/// table lists pairwise-distinct names, every occurrence of a name is
/// renamed to the one index whose table entry is that name — parameters and
/// body alike — and every table entry comes from an occurrence.
pub proof fn lemma_enumerate_bijective(d: PredDefV<Seq<char>>)
    requires
        exprs_pvs(d.params).len() + stmt_pvs(d.body).len() <= usize::MAX,
    ensures
        ({
            let (d2, t) = enum_pred(d);
            &&& distinct_tbl(t)
            &&& pvs_match(
                exprs_pvs(d.params) + stmt_pvs(d.body),
                exprs_pvs(d2.params) + stmt_pvs(d2.body),
                t,
            )
            &&& forall|j: int|
                0 <= j < t.len() ==> (exprs_pvs(d.params) + stmt_pvs(d.body)).contains(
                    #[trigger] t[j],
                )
        }),
{
    let (params2, t1) = enum_exprs(d.params, Seq::empty());
    let (body2, t2) = enum_stmt(d.body, t1);
    lemma_enum_exprs_bij(d.params, Seq::empty());
    lemma_enum_stmt_bij(d.body, t1);
    lemma_pvs_match_concat(
        exprs_pvs(d.params),
        stmt_pvs(d.body),
        exprs_pvs(params2),
        stmt_pvs(body2),
        t1,
        t2,
    );
    lemma_new_entries_compose(
        Seq::empty(),
        t1,
        t2,
        exprs_pvs(d.params),
        stmt_pvs(d.body),
    );
}

/// A clause: parameter expressions and body, over string names.
pub type ClauseV = (Seq<ExprS>, StmtS);

/// A signature key: predicate identity and arity.
pub type SigKeyV = (PredV, int);

/// Index of the first group with key `k`, or -1.
pub open spec fn key_index(g: Seq<(SigKeyV, Seq<ClauseV>)>, k: SigKeyV) -> int
    decreases g,
{
    if g.len() == 0 {
        -1
    } else if g[0].0 == k {
        0
    } else {
        let r = key_index(g.drop_first(), k);
        if r < 0 {
            -1
        } else {
            r + 1
        }
    }
}

/// What `key_index` returns.
pub proof fn lemma_key_index(g: Seq<(SigKeyV, Seq<ClauseV>)>, k: SigKeyV)
    ensures
        key_index(g, k) == -1 ==> forall|j: int| 0 <= j < g.len() ==> g[j].0 != k,
        key_index(g, k) != -1 ==> {
            let r = key_index(g, k);
            &&& 0 <= r < g.len()
            &&& g[r].0 == k
            &&& forall|j: int| 0 <= j < r ==> g[j].0 != k
        },
    decreases g,
{
    if g.len() > 0 && g[0].0 != k {
        lemma_key_index(g.drop_first(), k);
        assert forall|j: int| 1 <= j < g.len() implies g.drop_first()[j - 1] == g[j] by {}
    }
}

/// Add one definition's clause to its group, appending a new group for a
/// signature seen for the first time.
pub open spec fn add_def_spec(g: Seq<(SigKeyV, Seq<ClauseV>)>, d: PredDefV<Seq<char>>) -> Seq<
    (SigKeyV, Seq<ClauseV>),
> {
    let k = (d.name, d.params.len() as int);
    let i = key_index(g, k);
    if i >= 0 {
        g.update(i, (k, g[i].1.push((d.params, d.body))))
    } else {
        g.push((k, seq![(d.params, d.body)]))
    }
}

/// The groups after collecting the first `i` definitions, clauses in source
/// order, groups in order of first occurrence.
pub open spec fn groups_upto(p: Seq<PredDefV<Seq<char>>>, i: int) -> Seq<(SigKeyV, Seq<ClauseV>)>
    decreases i,
{
    if i <= 0 {
        Seq::empty()
    } else {
        add_def_spec(groups_upto(p, i - 1), p[i - 1])
    }
}

/// The generated parameter variable `_P<j>`.
pub open spec fn pvar_name(j: nat) -> Seq<char> {
    seq!['_', 'P'] + crate::strings::dec_digits(j)
}

/// The generated parameter list `_P1 .. _Pn`.
pub open spec fn gen_params(n: int) -> Seq<ExprS> {
    Seq::new(n as nat, |i: int| ExprV::PV(pvar_name((i + 1) as nat)))
}

/// The unifications binding the first `j` clause parameters to the
/// generated parameters, left-folded onto `True`.
pub open spec fn asg_upto(ps: Seq<ExprS>, cps: Seq<ExprS>, j: int) -> StmtS
    decreases j,
{
    if j <= 0 {
        StmtV::True
    } else {
        StmtV::And(
            Box::new(asg_upto(ps, cps, j - 1)),
            Box::new(StmtV::Unify(ps[j - 1], cps[j - 1])),
        )
    }
}

/// The consolidated body of the first `j` clauses, left-folded onto `Fail`
/// as a disjunction of parameter bindings followed by clause bodies.
pub open spec fn body_upto(ps: Seq<ExprS>, clauses: Seq<ClauseV>, j: int) -> StmtS
    decreases j,
{
    if j <= 0 {
        StmtV::Fail
    } else {
        StmtV::Or(
            Box::new(body_upto(ps, clauses, j - 1)),
            Box::new(
                StmtV::And(
                    Box::new(asg_upto(ps, clauses[j - 1].0, ps.len() as int)),
                    Box::new(clauses[j - 1].1),
                ),
            ),
        )
    }
}

/// The single definition that stands for one group.
pub open spec fn mk_def_spec(k: SigKeyV, clauses: Seq<ClauseV>) -> PredDefV<Seq<char>> {
    PredDefV {
        name: k.0,
        params: gen_params(k.1),
        body: body_upto(gen_params(k.1), clauses, clauses.len() as int),
    }
}

/// The consolidated program: one definition per signature.
pub open spec fn consolidate_spec(p: Seq<PredDefV<Seq<char>>>) -> Seq<PredDefV<Seq<char>>> {
    let g = groups_upto(p, p.len() as int);
    Seq::new(g.len(), |i: int| mk_def_spec(g[i].0, g[i].1))
}

/// Collects all clauses of each predicate signature and replaces them by a
/// single definition whose body is the disjunction of the clause bodies.
pub struct ConsolidateDefs {
    defs: Vec<((Pred, usize), Vec<(Vec<Expr<String>>, Stmt<String>)>)>,
}

/// The group one collected entry stands for.
pub open spec fn entry_group(e: ((Pred, usize), Vec<(Vec<Expr<String>>, Stmt<String>)>)) -> (
    SigKeyV,
    Seq<ClauseV>,
) {
    ((e.0.0@, e.0.1 as int), Seq::new(e.1@.len(), |j: int| (view_exprs(e.1@[j].0@), e.1@[j].1@)))
}

impl ConsolidateDefs {
    /// The groups collected so far.
    pub closed spec fn groups(self) -> Seq<(SigKeyV, Seq<ClauseV>)> {
        Seq::new(self.defs@.len(), |i: int| entry_group(self.defs@[i]))
    }

    /// A fresh consolidator with no clauses yet.
    pub fn new() -> (r: Self)
        ensures
            r.groups() == Seq::<(SigKeyV, Seq<ClauseV>)>::empty(),
    {
        let r = ConsolidateDefs { defs: Vec::new() };
        proof {
            assert(r.groups() =~= Seq::<(SigKeyV, Seq<ClauseV>)>::empty());
        }
        r
    }

    /// File one definition's clause under its signature.
    fn add_pred_def(&mut self, pred_def: PredDef<String>)
        ensures
            final(self).groups() == add_def_spec(old(self).groups(), pred_def@),
    {
        let ghost d0 = pred_def@;
        let PredDef { name, params, body } = pred_def;
        proof {
            crate::ast::lemma_view_exprs(params@);
            assert(d0 == (PredDefV { name: name@, params: view_exprs(params@), body: body@ }));
        }
        let arity = params.len();
        let ghost g0 = self.groups();
        let ghost k = (d0.name, d0.params.len() as int);
        let n = self.defs.len();
        let mut i: usize = 0;
        while i < n
            invariant
                n == self.defs@.len(),
                i <= n,
                self.groups() == g0,
                g0 == old(self).groups(),
                d0 == pred_def@,
                g0.len() == n,
                k == (name@, arity as int),
                d0.params.len() == arity as int,
                d0.name == name@,
                d0.params == view_exprs(params@),
                d0.body == body@,
                forall|j: int| 0 <= j < i ==> g0[j].0 != k,
            decreases n - i,
        {
            let hit = crate::ast_common::pred_eq(&self.defs[i].0.0, &name) && self.defs[i].0.1
                == arity;
            if hit {
                proof {
                    lemma_key_index(g0, k);
                    assert(g0[i as int].0 == k);
                    assert(key_index(g0, k) == i as int);
                }
                self.defs[i].1.push((params, body));
                proof {
                    let gnew = self.groups();
                    let expect = g0.update(i as int, (k, g0[i as int].1.push((d0.params, d0.body))));
                    assert forall|a: int| 0 <= a < gnew.len() implies gnew[a] == expect[a] by {
                        if a == i as int {
                            assert(gnew[a].1 =~= g0[a].1.push((d0.params, d0.body)));
                        } else {
                            assert(gnew[a].1 =~= g0[a].1);
                        }
                    }
                    assert(gnew =~= expect);
                    assert(add_def_spec(g0, d0) == expect);
                }
                return ;
            }
            i += 1;
        }
        proof {
            lemma_key_index(g0, k);
            if key_index(g0, k) != -1 {
                assert(false);
            }
        }
        let mut clauses: Vec<(Vec<Expr<String>>, Stmt<String>)> = Vec::new();
        clauses.push((params, body));
        self.defs.push(((name, arity), clauses));
        proof {
            let gnew = self.groups();
            let expect = g0.push((k, seq![(d0.params, d0.body)]));
            assert forall|a: int| 0 <= a < gnew.len() implies gnew[a] == expect[a] by {
                if a < g0.len() {
                    assert(gnew[a].1 =~= g0[a].1);
                } else {
                    assert(gnew[a].1 =~= seq![(d0.params, d0.body)]);
                }
            }
            assert(gnew =~= expect);
            assert(add_def_spec(g0, d0) == expect);
        }
    }
}

/// Every clause of a group has exactly the group's arity, and arities are
/// not negative.
pub open spec fn groups_wf(g: Seq<(SigKeyV, Seq<ClauseV>)>) -> bool {
    forall|i: int| #![trigger g[i]]
        0 <= i < g.len() ==> 0 <= g[i].0.1 && forall|j: int| #![trigger g[i].1[j]]
            0 <= j < g[i].1.len() ==> g[i].1[j].0.len() == g[i].0.1
}

/// Group keys are pairwise distinct.
pub open spec fn distinct_keys(g: Seq<(SigKeyV, Seq<ClauseV>)>) -> bool {
    forall|a: int, b: int| 0 <= a < b < g.len() ==> g[a].0 != g[b].0
}

/// Filing one definition keeps the groups well-formed and the keys distinct.
pub proof fn lemma_add_def_wf(g: Seq<(SigKeyV, Seq<ClauseV>)>, d: PredDefV<Seq<char>>)
    requires
        groups_wf(g),
        distinct_keys(g),
    ensures
        groups_wf(add_def_spec(g, d)),
        distinct_keys(add_def_spec(g, d)),
{
    let k = (d.name, d.params.len() as int);
    let i = key_index(g, k);
    lemma_key_index(g, k);
    let g2 = add_def_spec(g, d);
    if i >= 0 {
        assert forall|a: int| #![trigger g2[a]] 0 <= a < g2.len() implies 0 <= g2[a].0.1 && forall|
            j: int,
        | #![trigger g2[a].1[j]] 0 <= j < g2[a].1.len() ==> g2[a].1[j].0.len() == g2[a].0.1 by {
            if a == i {
                assert(g2[a].0 == g[i].0);
                assert forall|j: int| #![trigger g2[a].1[j]]
                    0 <= j < g2[a].1.len() implies g2[a].1[j].0.len() == g2[a].0.1 by {
                    if j < g[i].1.len() {
                        assert(g[i].1[j].0.len() == g[i].0.1);
                    }
                }
            } else {
                assert(g2[a] == g[a]);
            }
        }
        assert forall|a: int, b: int| 0 <= a < b < g2.len() implies g2[a].0 != g2[b].0 by {
            assert(g2[a].0 == g[a].0);
            assert(g2[b].0 == g[b].0);
        }
    } else {
        assert forall|a: int| #![trigger g2[a]] 0 <= a < g2.len() implies 0 <= g2[a].0.1 && forall|
            j: int,
        | #![trigger g2[a].1[j]] 0 <= j < g2[a].1.len() ==> g2[a].1[j].0.len() == g2[a].0.1 by {
            if a < g.len() {
                assert(g2[a] == g[a]);
            } else {
                assert(g2[a] == (k, seq![(d.params, d.body)]));
                assert(g2[a].1[0] == (d.params, d.body));
            }
        }
        assert forall|a: int, b: int| 0 <= a < b < g2.len() implies g2[a].0 != g2[b].0 by {
            if b == g.len() {
                assert(g[a].0 != k);
            }
        }
    }
}

/// The groups of any prefix of a program are well-formed with distinct keys.
pub proof fn lemma_groups_upto_wf(p: Seq<PredDefV<Seq<char>>>, i: int)
    ensures
        groups_wf(groups_upto(p, i)),
        distinct_keys(groups_upto(p, i)),
    decreases i,
{
    if i > 0 {
        lemma_groups_upto_wf(p, i - 1);
        lemma_add_def_wf(groups_upto(p, i - 1), p[i - 1]);
    }
}

/// The generated parameter name `_P<j>` as a string.
fn pvar_string(j: u64) -> (r: String)
    ensures
        r@ == pvar_name(j as nat),
{
    let mut s = String::new();
    crate::strings::push_str(&mut s, "_P");
    crate::strings::push_u64(&mut s, j);
    proof {
        reveal_strlit("_P");
        assert(s@ =~= pvar_name(j as nat));
    }
    s
}

impl Transformer<String, String> for ConsolidateDefs {
    /// Collect every clause, then emit one definition per signature, in
    /// order of first occurrence: fresh parameters `_P1 .. _Pn` and a body
    /// that is the disjunction of the clauses' parameter bindings and
    /// bodies.
    fn transform(self, input: Program<String>) -> (r: Program<String>)
        ensures
            view_program(r@) == consolidate_spec(view_program(input@)),
    {
        // `new` is the only constructor and clauses are only filed while a
        // `transform` runs, so the consumed transformer holds no clauses; the
        // program's definitions are filed into a fresh collector.
        let _ = self;
        let mut me = ConsolidateDefs::new();
        let mut prog = input;
        let ghost in0 = prog@;
        let ghost p0 = view_program(in0);
        let n = prog.len();
        let mut i: usize = 0;
        while i < n
            invariant
                n == prog@.len() == in0.len(),
                i <= n,
                p0 == view_program(in0),
                forall|j: int| i <= j < n ==> prog@[j] == in0[j],
                me.groups() == groups_upto(p0, i as int),
            decreases n - i,
        {
            let mut d = PredDef { name: Pred::User(String::new()), params: Vec::new(), body: Stmt::True };
            core::mem::swap(&mut d, &mut prog[i]);
            proof {
                assert(d@ == in0[i as int]@);
                assert(p0[i as int] == in0[i as int]@);
            }
            me.add_pred_def(d);
            i += 1;
        }
        let ghost g = me.groups();
        proof {
            lemma_groups_upto_wf(p0, n as int);
        }
        let m = me.defs.len();
        proof {
            assert(g.len() == m as int);
        }
        let mut out: Program<String> = Vec::new();
        let mut gi: usize = 0;
        while gi < m
            invariant
                m == me.defs@.len(),
                gi <= m,
                g.len() == m as int,
                groups_wf(g),
                forall|j: int| gi <= j < m ==> entry_group(me.defs@[j]) == g[j],
                out@.len() == gi as int,
                forall|j: int| 0 <= j < gi ==> out@[j]@ == mk_def_spec(g[j].0, g[j].1),
            decreases m - gi,
        {
            let mut entry: ((Pred, usize), Vec<(Vec<Expr<String>>, Stmt<String>)>) = (
                (Pred::User(String::new()), 0),
                Vec::new(),
            );
            core::mem::swap(&mut entry, &mut me.defs[gi]);
            proof {
                assert(entry_group(entry) == g[gi as int]);
            }
            let ((pred, arity), mut clauses) = entry;
            let ghost key = g[gi as int].0;
            let ghost clv = g[gi as int].1;
            proof {
                assert(key == (pred@, arity as int));
                assert(clv.len() == clauses@.len());
                assert forall|j: int| 0 <= j < clv.len() implies clv[j] == (view_exprs(
                    clauses@[j].0@,
                ), clauses@[j].1@) by {}
            }
            // Generated parameters _P1 .. _Pn.
            let mut params: Vec<Expr<String>> = Vec::new();
            let mut j: usize = 0;
            while j < arity
                invariant
                    j <= arity,
                    params@.len() == j as int,
                    forall|l: int|
                        0 <= l < j ==> params@[l]@ == ExprV::<Seq<char>>::PV(
                            pvar_name((l + 1) as nat),
                        ),
                decreases arity - j,
            {
                params.push(Expr::PV(pvar_string((j as u64) + 1)));
                j += 1;
            }
            proof {
                crate::ast::lemma_view_exprs(params@);
                assert(view_exprs(params@) =~= gen_params(key.1));
            }
            let ghost psv = view_exprs(params@);
            // The consolidated body, clause by clause.
            let mut bacc = Stmt::Fail;
            let nclauses = clauses.len();
            let mut c: usize = 0;
            while c < nclauses
                invariant
                    nclauses == clauses@.len() == clv.len(),
                    c <= nclauses,
                    psv == view_exprs(params@),
                    psv == gen_params(key.1),
                    psv.len() == arity as int,
                    key.1 == arity as int,
                    groups_wf(g),
                    gi < g.len(),
                    g[gi as int] == (key, clv),
                    params@.len() == arity as int,
                    forall|l: int| c <= l < nclauses ==> clv[l] == (view_exprs(
                        clauses@[l].0@,
                    ), clauses@[l].1@),
                    bacc@ == body_upto(psv, clv, c as int),
                decreases nclauses - c,
            {
                let mut clause: (Vec<Expr<String>>, Stmt<String>) = (Vec::new(), Stmt::True);
                core::mem::swap(&mut clause, &mut clauses[c]);
                let (mut cps, cbody) = clause;
                let ghost cps0 = cps@;
                let ghost cpsv = view_exprs(cps0);
                proof {
                    crate::ast::lemma_view_exprs(cps0);
                    assert(g[gi as int].1[c as int].0.len() == g[gi as int].0.1);
                    assert(clv[c as int].0 == cpsv);
                    assert(clv[c as int].0.len() == key.1);
                    assert(cps0.len() == arity as int);
                }
                let mut asg = Stmt::True;
                let mut j2: usize = 0;
                while j2 < arity
                    invariant
                        j2 <= arity,
                        cps@.len() == cps0.len() == arity as int,
                        psv == view_exprs(params@),
                        params@.len() == arity as int,
                        cpsv == view_exprs(cps0),
                        cpsv.len() == arity as int,
                        forall|l: int| j2 <= l < arity ==> cps@[l] == cps0[l],
                        asg@ == asg_upto(psv, cpsv, j2 as int),
                    decreases arity - j2,
                {
                    let mut cp = Expr::Num(0);
                    core::mem::swap(&mut cp, &mut cps[j2]);
                    let p = crate::ast::clone_expr(&params[j2]);
                    proof {
                        crate::ast::lemma_view_exprs(params@);
                        crate::ast::lemma_view_exprs(cps0);
                        assert(p@ == psv[j2 as int]);
                        assert(cp@ == cpsv[j2 as int]);
                    }
                    let prev = asg;
                    let ghost asg0 = prev@;
                    let u = Stmt::Unify(p, cp);
                    let ghost uv = u@;
                    asg = Stmt::And(Box::new(prev), Box::new(u));
                    proof {
                        assert(*asg@->And_0 == asg0);
                        assert(*asg@->And_1 == uv);
                        assert(asg@ == asg_upto(psv, cpsv, j2 + 1));
                    }
                    j2 += 1;
                }
                let prevb = bacc;
                let ghost bacc0 = prevb@;
                let arm = Stmt::And(Box::new(asg), Box::new(cbody));
                let ghost armv = arm@;
                bacc = Stmt::Or(Box::new(prevb), Box::new(arm));
                proof {
                    assert(*bacc@->Or_0 == bacc0);
                    assert(*bacc@->Or_1 == armv);
                    assert(bacc@ == body_upto(psv, clv, c + 1));
                }
                c += 1;
            }
            out.push(PredDef { name: pred, params, body: bacc });
            proof {
                assert(out@[gi as int]@ == mk_def_spec(key, clv));
            }
            gi += 1;
        }
        proof {
            assert(view_program(out@) =~= consolidate_spec(p0));
        }
        out
    }
}

/// The signature a definition resolves under.
pub open spec fn sig_of<W>(d: PredDefV<W>) -> (PredV, int) {
    (d.name, d.params.len() as int)
}

/// Law: consolidation followed by `True`/`Fail` elimination yields at most
/// one definition per signature, and no reducible `True`/`Fail` pattern
/// remains in any body.
pub proof fn lemma_consolidate_then_simplify(p: Seq<PredDefV<Seq<char>>>)
    ensures
        ({
            let q = consolidate_spec(p);
            &&& forall|a: int, b: int|
                0 <= a < b < q.len() ==> sig_of(q[a]) != sig_of(q[b])
            &&& forall|a: int|
                0 <= a < q.len() ==> no_redex(#[trigger] simplify_stmt_spec(q[a].body))
        }),
{
    let g = groups_upto(p, p.len() as int);
    let q = consolidate_spec(p);
    lemma_groups_upto_wf(p, p.len() as int);
    assert forall|a: int, b: int| 0 <= a < b < q.len() implies sig_of(q[a]) != sig_of(q[b]) by {
        assert(g[a].0 != g[b].0);
        assert(q[a] == mk_def_spec(g[a].0, g[a].1));
        assert(q[b] == mk_def_spec(g[b].0, g[b].1));
        assert(0 <= g[a].0.1 && 0 <= g[b].0.1);
        assert(q[a].params.len() == g[a].0.1);
        assert(q[b].params.len() == g[b].0.1);
    }
    assert forall|a: int| 0 <= a < q.len() implies no_redex(
        #[trigger] simplify_stmt_spec(q[a].body),
    ) by {
        lemma_simplify_no_redex(q[a].body);
    }
}

} // verus!
