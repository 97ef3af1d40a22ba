//! The bytecode compiler: lowers numbered-variable programs to flat
//! instruction streams with resolved checkpoint and jump offsets.
//!
//! Offsets are relative to the carrying instruction and point at the
//! instruction to execute next: a disjunction compiles to a checkpoint whose
//! resume offset reaches the right branch, the left branch, and a jump over
//! the right branch.

use vstd::prelude::*;

use crate::ast::{Expr, ExprV, PredDef, PredDefV, Stmt, StmtV};
use crate::ast_common::{Pred, PredSig, PredV};
use crate::ir::{Insn, InsnV, Label, Value, view_insns, ProgramV};

verus! {

/// One instruction stream, mathematically.
pub type CodeV = Seq<InsnV>;

/// The label counter after one more label; it saturates at the machine
/// bound.
pub open spec fn bumpl(lc: int) -> int {
    if lc >= i64::MAX {
        lc
    } else {
        lc + 1
    }
}

/// An offset saturated to the machine bound.
pub open spec fn sat_off(n: int) -> int {
    if n > isize::MAX {
        isize::MAX as int
    } else {
        n
    }
}

/// Code that pushes the value of an expression: post-order, one value on
/// the operand stack.
pub open spec fn compile_expr_spec(e: ExprV<usize>) -> CodeV
    decreases e, 0int,
{
    match e {
        ExprV::Atom(a) => seq![InsnV::PushValue(crate::ir::TermV::Atom(a))],
        ExprV::PV(x) => seq![InsnV::Load(x as int)],
        ExprV::Num(n) => seq![InsnV::PushValue(crate::ir::TermV::Num(n))],
        ExprV::Ctor(f, args) => compile_exprs_upto(args, args.len() as int).push(
            InsnV::Construct(f, args.len() as int),
        ),
    }
}

/// Code for the first `i` expressions, in order.
pub open spec fn compile_exprs_upto(s: Seq<ExprV<usize>>, i: int) -> CodeV
    decreases s, i,
{
    if i <= 0 || i > s.len() {
        Seq::empty()
    } else {
        compile_exprs_upto(s, i - 1) + compile_expr_spec(s[i - 1])
    }
}

/// Code for the first `i` arguments compiled in reverse order (the last
/// argument's code comes first), as a call site pushes them.
pub open spec fn compile_args_rev_upto(s: Seq<ExprV<usize>>, i: int) -> CodeV
    decreases s, i,
{
    if i <= 0 || i > s.len() {
        Seq::empty()
    } else {
        compile_args_rev_upto(s, i - 1) + compile_expr_spec(s[s.len() - i])
    }
}

/// Code unifying the first `i` parameters with the arguments already on
/// the stack.
pub open spec fn compile_params_upto(s: Seq<ExprV<usize>>, i: int) -> CodeV
    decreases s, i,
{
    if i <= 0 || i > s.len() {
        Seq::empty()
    } else {
        compile_params_upto(s, i - 1) + compile_expr_spec(s[i - 1]).push(InsnV::Unify)
    }
}

/// Code of a statement, threading the label counter.
pub open spec fn compile_stmt_spec(s: StmtV<usize>, lc: int) -> (CodeV, int)
    decreases s,
{
    match s {
        StmtV::And(s1, s2) => {
            let (c1, lc1) = compile_stmt_spec(*s1, lc);
            let (c2, lc2) = compile_stmt_spec(*s2, lc1);
            (c1 + c2, lc2)
        },
        StmtV::Or(s1, s2) => {
            let l = bumpl(lc);
            let (c1, lc1) = compile_stmt_spec(*s1, l);
            let (c2, lc2) = compile_stmt_spec(*s2, lc1);
            (
                seq![InsnV::MkCheckpoint(l, sat_off(c1.len() + 2int))] + c1 + seq![
                    InsnV::Jump(sat_off(c2.len() + 1int)),
                ] + c2,
                lc2,
            )
        },
        StmtV::If(s1, s2, s3) => {
            let l = bumpl(lc);
            let (c1, lc1) = compile_stmt_spec(*s1, l);
            let (c2, lc2) = compile_stmt_spec(*s2, lc1);
            let (c3, lc3) = compile_stmt_spec(*s3, lc2);
            (
                seq![InsnV::MkCheckpoint(l, sat_off(c1.len() + c2.len() + 3int))] + c1 + seq![
                    InsnV::DetUntil(l),
                ] + c2 + seq![InsnV::Jump(sat_off(c3.len() + 1int))] + c3,
                lc3,
            )
        },
        StmtV::Unify(e1, e2) => (
            compile_expr_spec(e1) + compile_expr_spec(e2).push(InsnV::Unify),
            lc,
        ),
        StmtV::Call(p, args) => (
            compile_args_rev_upto(args, args.len() as int).push(
                InsnV::Call((p, args.len() as int)),
            ),
            lc,
        ),
        StmtV::Fail => (seq![InsnV::Fail], lc),
        StmtV::True => (Seq::empty(), lc),
    }
}

/// The distinct local slots read by `Load` in the first `i` instructions,
/// in order of first use.
pub open spec fn used_locals_upto(code: CodeV, i: int) -> Seq<int>
    decreases i,
{
    if i <= 0 {
        Seq::empty()
    } else {
        let acc = used_locals_upto(code, i - 1);
        if code[i - 1] is Load && !acc.contains(code[i - 1]->Load_0) {
            acc.push(code[i - 1]->Load_0)
        } else {
            acc
        }
    }
}

/// The prologue binding the first `i` used locals to fresh variables.
pub open spec fn prologue_upto(ls: Seq<int>, i: int) -> CodeV
    decreases i,
{
    if i <= 0 {
        Seq::empty()
    } else {
        prologue_upto(ls, i - 1) + seq![InsnV::Fresh, InsnV::Store(ls[i - 1])]
    }
}

/// Whether a definition is the entry point `main/0`.
pub open spec fn is_main_def(d: PredDefV<usize>) -> bool {
    d.name == PredV::User("main"@) && d.params.len() == 0
}

/// The complete instruction stream of one definition: prologue, parameter
/// unification, body, and an epilogue — `Halt` for the entry point
/// `main/0`, `Ret` for every other predicate.
pub open spec fn compile_pred_code(d: PredDefV<usize>, lc: int) -> (CodeV, int) {
    let params_code = compile_params_upto(d.params, d.params.len() as int);
    let (body_code, lc2) = compile_stmt_spec(d.body, lc);
    let full = if is_main_def(d) {
        params_code + body_code.push(InsnV::Halt)
    } else {
        params_code + body_code.push(InsnV::Ret)
    };
    let ls = used_locals_upto(full, full.len() as int);
    (prologue_upto(ls, ls.len() as int) + full, lc2)
}

/// Compile-time failures; each surfaces the offending signature.
#[derive(Debug, PartialEq, Eq)]
pub enum CompileError {
    /// User code tried to define a system predicate.
    SystemPredicate(PredSig),
    /// A predicate signature was compiled twice.
    Redefinition(PredSig),
}

impl View for CompileError {
    type V = CompileErrorV;

    open spec fn view(&self) -> CompileErrorV {
        match self {
            CompileError::SystemPredicate(s) => CompileErrorV::SystemPredicate(s@),
            CompileError::Redefinition(s) => CompileErrorV::Redefinition(s@),
        }
    }
}

/// Mathematical picture of a compile-time failure.
pub enum CompileErrorV {
    SystemPredicate((PredV, int)),
    Redefinition((PredV, int)),
}

/// The compiler: carries the generated code, the label counter, and the
/// stream of the predicate under compilation.
pub struct IRGen {
    ir_code: Vec<(PredSig, Vec<Insn>)>,
    label_counter: Label,
    current_ir_code: Vec<Insn>,
}

impl IRGen {
    /// The code generated so far.
    pub closed spec fn prog(self) -> ProgramV {
        Seq::new(self.ir_code@.len(), |i: int| (self.ir_code@[i].0@, view_insns(self.ir_code@[i].1@)))
    }

    /// The label counter.
    pub closed spec fn lc(self) -> int {
        self.label_counter as int
    }

    /// The stream of the predicate under compilation.
    pub closed spec fn cur(self) -> CodeV {
        view_insns(self.current_ir_code@)
    }

    /// A fresh compiler.
    pub fn new() -> (r: Self)
        ensures
            r.prog() == Seq::<((PredV, int), Seq<InsnV>)>::empty(),
            r.lc() == 0,
            r.cur() == Seq::<InsnV>::empty(),
    {
        let r = IRGen { ir_code: Vec::new(), label_counter: 0, current_ir_code: Vec::new() };
        proof {
            assert(r.prog() =~= Seq::<((PredV, int), Seq<InsnV>)>::empty());
            assert(r.cur() =~= Seq::<InsnV>::empty());
        }
        r
    }

    /// Emit one instruction.
    fn emit(&mut self, insn: Insn)
        ensures
            final(self).cur() == old(self).cur().push(insn@),
            final(self).lc() == old(self).lc(),
            final(self).prog() == old(self).prog(),
    {
        let ghost iv = insn@;
        self.current_ir_code.push(insn);
        proof {
            assert(self.cur() =~= old(self).cur().push(iv));
            assert(self.prog() =~= old(self).prog());
        }
    }

    /// Emit the code that pushes the value of `expr` onto the operand stack.
    pub fn compile_expr(&mut self, expr: Expr<usize>)
        ensures
            final(self).cur() == old(self).cur() + compile_expr_spec(expr@),
            final(self).lc() == old(self).lc(),
            final(self).prog() == old(self).prog(),
    {
        self.compile_expr_r(&expr);
    }

    /// As `compile_expr`, reading the expression in place.
    fn compile_expr_r(&mut self, expr: &Expr<usize>)
        ensures
            final(self).cur() == old(self).cur() + compile_expr_spec(expr@),
            final(self).lc() == old(self).lc(),
            final(self).prog() == old(self).prog(),
        decreases expr, 0int,
    {
        broadcast use crate::ast::lemma_view_exprs;

        match expr {
            Expr::Atom(a) => {
                self.emit(Insn::PushValue(Value::Atom(a.clone())));
                proof {
                    assert(self.cur() =~= old(self).cur() + compile_expr_spec(expr@));
                }
            },
            Expr::PV(x) => {
                self.emit(Insn::Load(*x));
                proof {
                    assert(self.cur() =~= old(self).cur() + compile_expr_spec(expr@));
                }
            },
            Expr::Num(n) => {
                self.emit(Insn::PushValue(Value::Num(*n)));
                proof {
                    assert(self.cur() =~= old(self).cur() + compile_expr_spec(expr@));
                }
            },
            Expr::Ctor(f, args) => {
                let ghost avs = crate::ast::view_exprs(args@);
                let n = args.len();
                let mut i: usize = 0;
                while i < n
                    invariant
                        n == args@.len() == avs.len(),
                        i <= n,
                        avs == crate::ast::view_exprs(args@),
                        expr == Expr::Ctor(*f, *args),
                        self.cur() == old(self).cur() + compile_exprs_upto(avs, i as int),
                        self.lc() == old(self).lc(),
                        self.prog() == old(self).prog(),
                    decreases n - i,
                {
                    proof {
                        assert(decreases_to!(*expr => expr->Ctor_1));
                        assert(decreases_to!(expr->Ctor_1 => expr->Ctor_1@));
                        assert(decreases_to!(expr->Ctor_1@ => expr->Ctor_1@[i as int]));
                    }
                    self.compile_expr_r(&args[i]);
                    proof {
                        crate::ast::lemma_view_exprs(args@);
                        assert(self.cur() =~= old(self).cur() + compile_exprs_upto(avs, i + 1));
                    }
                    i += 1;
                }
                self.emit(Insn::Construct(f.clone(), n));
                proof {
                    assert(self.cur() =~= old(self).cur() + compile_expr_spec(expr@));
                }
            },
        }
    }

    /// Emit the code unifying each parameter with the argument on top of
    /// the stack.
    pub fn compile_params(&mut self, params: Vec<Expr<usize>>)
        ensures
            final(self).cur() == old(self).cur() + compile_params_upto(
                crate::ast::view_exprs(params@),
                params@.len() as int,
            ),
            final(self).lc() == old(self).lc(),
            final(self).prog() == old(self).prog(),
    {
        broadcast use crate::ast::lemma_view_exprs;

        let ghost pvs = crate::ast::view_exprs(params@);
        let n = params.len();
        let mut i: usize = 0;
        while i < n
            invariant
                n == params@.len() == pvs.len(),
                i <= n,
                pvs == crate::ast::view_exprs(params@),
                self.cur() == old(self).cur() + compile_params_upto(pvs, i as int),
                self.lc() == old(self).lc(),
                self.prog() == old(self).prog(),
            decreases n - i,
        {
            self.compile_expr_r(&params[i]);
            self.emit(Insn::Unify);
            proof {
                crate::ast::lemma_view_exprs(params@);
                assert(self.cur() =~= old(self).cur() + compile_params_upto(pvs, i + 1));
            }
            i += 1;
        }
    }

    /// Allocate a fresh label and emit its checkpoint with an unresolved
    /// offset; the label counter saturates at the machine bound.
    pub fn create_checkpoint(&mut self)
        ensures
            final(self).lc() == bumpl(old(self).lc()),
            final(self).cur() == old(self).cur().push(
                InsnV::MkCheckpoint(bumpl(old(self).lc()), 0),
            ),
            final(self).prog() == old(self).prog(),
    {
        if self.label_counter < Label::MAX {
            self.label_counter = self.label_counter + 1;
        }
        self.emit(Insn::MkCheckpoint(self.label_counter, 0));
    }
}

impl IRGen {
    /// Resolve the target of the checkpoint or jump instruction at `at`.
    fn patch(&mut self, at: usize, diff: usize, add_one: bool)
        requires
            at < old(self).cur().len(),
            old(self).cur()[at as int] is MkCheckpoint || old(self).cur()[at as int] is Jump,
        ensures
            final(self).cur() == old(self).cur().update(
                at as int,
                crate::ir::with_target(
                    old(self).cur()[at as int],
                    sat_off(diff + (if add_one {
                        1int
                    } else {
                        0int
                    })),
                ),
            ),
            final(self).lc() == old(self).lc(),
            final(self).prog() == old(self).prog(),
    {
        let off: isize = if diff >= (isize::MAX as usize) {
            isize::MAX
        } else {
            if add_one {
                (diff + 1) as isize
            } else {
                diff as isize
            }
        };
        let mut insn = Insn::Halt;
        core::mem::swap(&mut insn, &mut self.current_ir_code[at]);
        insn.set_target(off);
        core::mem::swap(&mut insn, &mut self.current_ir_code[at]);
        proof {
            assert(self.cur() =~= old(self).cur().update(
                at as int,
                crate::ir::with_target(
                    old(self).cur()[at as int],
                    sat_off(diff + (if add_one {
                        1int
                    } else {
                        0int
                    })),
                ),
            ));
            assert(self.prog() =~= old(self).prog());
        }
    }

    /// Emit the code of `stmt` at the end of the current stream.
    pub fn compile_stmt(&mut self, stmt: Stmt<usize>)
        ensures
            final(self).cur() == old(self).cur() + compile_stmt_spec(stmt@, old(self).lc()).0,
            final(self).lc() == compile_stmt_spec(stmt@, old(self).lc()).1,
            final(self).prog() == old(self).prog(),
    {
        self.compile_stmt_r(&stmt);
    }

    /// As `compile_stmt`, reading the statement in place.
    #[verifier::rlimit(60)]
    fn compile_stmt_r(&mut self, stmt: &Stmt<usize>)
        ensures
            final(self).cur() == old(self).cur() + compile_stmt_spec(stmt@, old(self).lc()).0,
            final(self).lc() == compile_stmt_spec(stmt@, old(self).lc()).1,
            final(self).prog() == old(self).prog(),
        decreases stmt,
    {
        broadcast use crate::ast::lemma_view_exprs;

        let ghost lc0 = self.lc();
        match stmt {
            Stmt::And(s1, s2) => {
                self.compile_stmt_r(s1);
                self.compile_stmt_r(s2);
                proof {
                    assert(self.cur() =~= old(self).cur() + compile_stmt_spec(stmt@, lc0).0);
                }
            },
            Stmt::Or(s1, s2) => {
                let cp_pc = self.current_ir_code.len();
                proof {
                    assert(cp_pc as int == self.cur().len());
                }
                self.create_checkpoint();
                let ghost l = bumpl(lc0);
                self.compile_stmt_r(s1);
                let ghost c1 = compile_stmt_spec(s1@, l).0;
                let len1 = self.current_ir_code.len();
                proof {
                    assert(len1 as int == self.cur().len());
                    assert(self.cur() == old(self).cur().push(InsnV::MkCheckpoint(l, 0)) + c1);
                    assert(len1 as int == cp_pc as int + 1 + c1.len());
                }
                self.patch(cp_pc, len1 - cp_pc, true);
                let jump_pc = self.current_ir_code.len();
                self.emit(Insn::Jump(0));
                self.compile_stmt_r(s2);
                let ghost c2 = compile_stmt_spec(s2@, compile_stmt_spec(s1@, l).1).0;
                let len2 = self.current_ir_code.len();
                proof {
                    assert(len2 as int == self.cur().len());
                    assert(self.cur() == old(self).cur().push(InsnV::MkCheckpoint(l, 0)).add(
                        c1,
                    ).update(cp_pc as int, self.cur()[cp_pc as int]).push(InsnV::Jump(0)) + c2);
                    assert(len2 as int == jump_pc as int + 1 + c2.len());
                }
                self.patch(jump_pc, len2 - jump_pc, false);
                proof {
                    assert(len1 - cp_pc + 1int == c1.len() + 2);
                    assert(len2 - jump_pc == c2.len() + 1);
                    assert(self.cur() =~= old(self).cur() + compile_stmt_spec(stmt@, lc0).0);
                }
            },
            Stmt::If(s1, s2, s3) => {
                let cp_pc = self.current_ir_code.len();
                self.create_checkpoint();
                let lab = self.label_counter;
                let ghost l = bumpl(lc0);
                self.compile_stmt_r(s1);
                let ghost c1 = compile_stmt_spec(s1@, l).0;
                self.emit(Insn::DetUntil(lab));
                self.compile_stmt_r(s2);
                let ghost c2 = compile_stmt_spec(s2@, compile_stmt_spec(s1@, l).1).0;
                let len1 = self.current_ir_code.len();
                proof {
                    assert(len1 as int == self.cur().len());
                    assert(self.cur().len() == cp_pc as int + 2 + c1.len() + c2.len());
                    assert(len1 as int == cp_pc as int + 2 + c1.len() + c2.len());
                }
                self.patch(cp_pc, len1 - cp_pc, true);
                let jump_pc = self.current_ir_code.len();
                self.emit(Insn::Jump(0));
                self.compile_stmt_r(s3);
                let ghost c3 = compile_stmt_spec(
                    s3@,
                    compile_stmt_spec(s2@, compile_stmt_spec(s1@, l).1).1,
                ).0;
                let len2 = self.current_ir_code.len();
                proof {
                    assert(len2 as int == self.cur().len());
                    assert(self.cur().len() == jump_pc as int + 1 + c3.len());
                    assert(len2 as int == jump_pc as int + 1 + c3.len());
                }
                self.patch(jump_pc, len2 - jump_pc, false);
                proof {
                    assert(len1 - cp_pc + 1int == c1.len() + c2.len() + 3);
                    assert(len2 - jump_pc == c3.len() + 1);
                    assert(self.cur() =~= old(self).cur() + compile_stmt_spec(stmt@, lc0).0);
                }
            },
            Stmt::Unify(e1, e2) => {
                self.compile_expr_r(e1);
                self.compile_expr_r(e2);
                self.emit(Insn::Unify);
                proof {
                    assert(self.cur() =~= old(self).cur() + compile_stmt_spec(stmt@, lc0).0);
                }
            },
            Stmt::Call(p, args) => {
                let ghost avs = crate::ast::view_exprs(args@);
                let arity = args.len();
                let mut i: usize = 0;
                while i < arity
                    invariant
                        arity == args@.len() == avs.len(),
                        i <= arity,
                        avs == crate::ast::view_exprs(args@),
                        stmt == Stmt::Call(*p, *args),
                        self.cur() == old(self).cur() + compile_args_rev_upto(avs, i as int),
                        self.lc() == old(self).lc(),
                        self.prog() == old(self).prog(),
                    decreases arity - i,
                {
                    proof {
                        assert(decreases_to!(*stmt => stmt->Call_1));
                        assert(decreases_to!(stmt->Call_1 => stmt->Call_1@));
                        assert(decreases_to!(stmt->Call_1@ => stmt->Call_1@[arity - 1 - i]));
                    }
                    self.compile_expr_r(&args[arity - 1 - i]);
                    proof {
                        crate::ast::lemma_view_exprs(args@);
                        assert(self.cur() =~= old(self).cur() + compile_args_rev_upto(
                            avs,
                            i + 1,
                        ));
                    }
                    i += 1;
                }
                self.emit(Insn::Call(PredSig(p.clone(), arity)));
                proof {
                    assert(self.cur() =~= old(self).cur() + compile_stmt_spec(stmt@, lc0).0);
                }
            },
            Stmt::Fail => {
                self.emit(Insn::Fail);
                proof {
                    assert(self.cur() =~= old(self).cur() + compile_stmt_spec(stmt@, lc0).0);
                }
            },
            Stmt::True => {
                proof {
                    assert(self.cur() =~= old(self).cur() + compile_stmt_spec(stmt@, lc0).0);
                }
            },
        }
    }
}

/// The signature a definition compiles under.
pub open spec fn sig_of_def(d: PredDefV<usize>) -> (PredV, int) {
    (d.name, d.params.len() as int)
}

/// The integer pictures of a slot-index list.
pub open spec fn view_idxs(s: Seq<usize>) -> Seq<int> {
    Seq::new(s.len(), |k: int| s[k] as int)
}

/// One compilation step of a whole-program compile: a system-predicate
/// definition and a redefinition are compile errors.
pub open spec fn compile_def_step(p: ProgramV, lc: int, d: PredDefV<usize>) -> Result<
    (ProgramV, int),
    CompileErrorV,
> {
    if d.name is Sys {
        Result::Err(CompileErrorV::SystemPredicate(sig_of_def(d)))
    } else if crate::ir::prog_index(p, sig_of_def(d)) >= 0 {
        Result::Err(CompileErrorV::Redefinition(sig_of_def(d)))
    } else {
        let (code, lc2) = compile_pred_code(d, lc);
        Result::Ok((p.push((sig_of_def(d), code)), lc2))
    }
}

/// Compiling the first `i` definitions, short-circuiting on the first
/// compile error.
pub open spec fn compile_prog_upto(
    defs: Seq<PredDefV<usize>>,
    p0: ProgramV,
    lc0: int,
    i: int,
) -> Result<(ProgramV, int), CompileErrorV>
    decreases i,
{
    if i <= 0 {
        Result::Ok((p0, lc0))
    } else {
        match compile_prog_upto(defs, p0, lc0, i - 1) {
            Result::Ok((p, lc)) => compile_def_step(p, lc, defs[i - 1]),
            Result::Err(e) => Result::Err(e),
        }
    }
}

impl IRGen {
    /// Whether a signature already has compiled code.
    fn contains_sig(&self, sig: &PredSig) -> (r: bool)
        ensures
            r == (crate::ir::prog_index(self.prog(), sig@) >= 0),
    {
        let n = self.ir_code.len();
        let mut i: usize = 0;
        while i < n
            invariant
                n == self.ir_code@.len(),
                i <= n,
                forall|j: int| 0 <= j < i ==> self.prog()[j].0 != sig@,
            decreases n - i,
        {
            if crate::ast_common::sig_eq(&self.ir_code[i].0, sig) {
                proof {
                    crate::ir::lemma_prog_index(self.prog(), sig@);
                    assert(self.prog()[i as int].0 == sig@);
                }
                return true;
            }
            i += 1;
        }
        proof {
            crate::ir::lemma_prog_index(self.prog(), sig@);
            if crate::ir::prog_index(self.prog(), sig@) >= 0 {
                assert(false);
            }
        }
        false
    }

    /// Compile one definition into the program, or report why it cannot be.
    pub fn compile_pred(&mut self, pred_def: PredDef<usize>) -> (r: Result<(), CompileError>)
        requires
            old(self).cur().len() == 0,
        ensures
            match r {
                Result::Ok(()) => {
                    &&& pred_def@.name is User
                    &&& crate::ir::prog_index(old(self).prog(), sig_of_def(pred_def@)) == -1
                    &&& final(self).prog() == old(self).prog().push(
                        (
                            sig_of_def(pred_def@),
                            compile_pred_code(pred_def@, old(self).lc()).0,
                        ),
                    )
                    &&& final(self).lc() == compile_pred_code(pred_def@, old(self).lc()).1
                    &&& final(self).cur().len() == 0
                },
                Result::Err(e) => {
                    &&& final(self).prog() == old(self).prog()
                    &&& final(self).lc() == old(self).lc()
                    &&& final(self).cur() == old(self).cur()
                    &&& match e@ {
                        CompileErrorV::SystemPredicate(s) => pred_def@.name is Sys && s
                            == sig_of_def(pred_def@),
                        CompileErrorV::Redefinition(s) => pred_def@.name is User
                            && crate::ir::prog_index(old(self).prog(), sig_of_def(pred_def@))
                            >= 0 && s == sig_of_def(pred_def@),
                    }
                },
            },
    {
        let ghost d0 = pred_def@;
        let sig = PredSig(pred_def.name.clone(), pred_def.params.len());
        proof {
            crate::ast::lemma_view_exprs(pred_def.params@);
            assert(sig@ == sig_of_def(d0));
        }
        let PredDef { name, params, body } = pred_def;
        if let Pred::Sys(_, _) = &name {
            return Result::Err(CompileError::SystemPredicate(sig));
        }
        if self.contains_sig(&sig) {
            return Result::Err(CompileError::Redefinition(sig));
        }
        let arity = params.len();
        proof {
            assert(arity as int == d0.params.len());
        }
        self.compile_params(params);
        self.compile_stmt(body);
        let main_name = String::from_str("main");
        let is_main = if let Pred::User(n) = &name {
            n.eq(&main_name) && arity == 0
        } else {
            false
        };
        proof {
            reveal_strlit("main");
            assert(is_main == is_main_def(d0));
        }
        if is_main {
            self.emit(Insn::Halt);
        } else {
            self.emit(Insn::Ret);
        }
        let ghost full = self.cur();
        proof {
            assert(full =~= ({
                let params_code = compile_params_upto(d0.params, d0.params.len() as int);
                let body_code = compile_stmt_spec(d0.body, old(self).lc()).0;
                if is_main_def(d0) {
                    params_code + body_code.push(InsnV::Halt)
                } else {
                    params_code + body_code.push(InsnV::Ret)
                }
            }));
        }
        // Collect the local slots the body reads, in order of first use.
        let mut locals: Vec<usize> = Vec::new();
        let ncode = self.current_ir_code.len();
        let mut i: usize = 0;
        while i < ncode
            invariant
                ncode == self.cur().len(),
                i <= ncode,
                full == self.cur(),
                view_idxs(locals@) == used_locals_upto(full, i as int),
            decreases ncode - i,
        {
            let mut hit: Option<usize> = None;
            if let Insn::Load(x) = &self.current_ir_code[i] {
                hit = Some(*x);
            }
            match hit {
                Some(x) => {
                    let m = locals.len();
                    let mut j: usize = 0;
                    let mut present = false;
                    while j < m
                        invariant
                            m == locals@.len(),
                            j <= m,
                            present == exists|k: int| 0 <= k < j && locals@[k] == x,
                        decreases m - j,
                    {
                        if locals[j] == x {
                            present = true;
                        }
                        j += 1;
                    }
                    proof {
                        assert(present == view_idxs(locals@).contains(x as int)) by {
                            if present {
                                let k = choose|k: int| 0 <= k < m && locals@[k] == x;
                                assert(view_idxs(locals@)[k] == x as int);
                            } else if view_idxs(locals@).contains(x as int) {
                                let k = choose|k: int|
                                    0 <= k < view_idxs(locals@).len() && view_idxs(locals@)[k]
                                        == x as int;
                                assert(locals@[k] == x);
                            }
                        }
                    }
                    if !present {
                        locals.push(x);
                        proof {
                            assert(view_idxs(locals@) =~= used_locals_upto(full, i + 1));
                        }
                    } else {
                        proof {
                            assert(view_idxs(locals@) =~= used_locals_upto(full, i + 1));
                        }
                    }
                },
                None => {
                    proof {
                        assert(view_idxs(locals@) =~= used_locals_upto(full, i + 1));
                    }
                },
            }
            i += 1;
        }
        let ghost ls = used_locals_upto(full, full.len() as int);
        // Prologue: one fresh variable per used local slot.
        let mut code: Vec<Insn> = Vec::new();
        let nl = locals.len();
        let mut li: usize = 0;
        while li < nl
            invariant
                nl == locals@.len(),
                li <= nl,
                ls == view_idxs(locals@),
                view_insns(code@) == prologue_upto(ls, li as int),
            decreases nl - li,
        {
            code.push(Insn::Fresh);
            code.push(Insn::Store(locals[li]));
            proof {
                assert(view_insns(code@) =~= prologue_upto(ls, li + 1));
            }
            li += 1;
        }
        let mut body_code: Vec<Insn> = Vec::new();
        core::mem::swap(&mut body_code, &mut self.current_ir_code);
        code.append(&mut body_code);
        self.ir_code.push((sig, code));
        proof {
            assert(view_insns(self.ir_code@[self.ir_code@.len() - 1].1@) =~= prologue_upto(
                ls,
                ls.len() as int,
            ) + full);
            assert(self.prog() =~= old(self).prog().push(
                (sig_of_def(d0), compile_pred_code(d0, old(self).lc()).0),
            ));
            assert(self.cur() =~= Seq::<InsnV>::empty());
        }
        Result::Ok(())
    }

    /// Compile a whole program, stopping at the first compile error.
    pub fn compile_program(&mut self, program: Vec<PredDef<usize>>) -> (r: Result<
        (),
        CompileError,
    >)
        requires
            old(self).cur().len() == 0,
        ensures
            match r {
                Result::Ok(()) => {
                    &&& compile_prog_upto(
                        crate::ast::view_program(program@),
                        old(self).prog(),
                        old(self).lc(),
                        program@.len() as int,
                    ) == Result::<(ProgramV, int), CompileErrorV>::Ok(
                        (final(self).prog(), final(self).lc()),
                    )
                    &&& final(self).cur().len() == 0
                },
                Result::Err(e) => compile_prog_upto(
                    crate::ast::view_program(program@),
                    old(self).prog(),
                    old(self).lc(),
                    program@.len() as int,
                ) == Result::<(ProgramV, int), CompileErrorV>::Err(e@),
            },
    {
        let mut defs = program;
        let ghost dvs = crate::ast::view_program(defs@);
        let n = defs.len();
        let mut i: usize = 0;
        while i < n
            invariant
                n == defs@.len() == dvs.len(),
                i <= n,
                dvs == crate::ast::view_program(program@),
                forall|j: int| i <= j < n ==> #[trigger] defs@[j]@ == dvs[j],
                compile_prog_upto(dvs, old(self).prog(), old(self).lc(), i as int)
                    == Result::<(ProgramV, int), CompileErrorV>::Ok((self.prog(), self.lc())),
                self.cur().len() == 0,
            decreases n - i,
        {
            let mut d = PredDef { name: Pred::User(String::new()), params: Vec::new(), body: Stmt::True };
            core::mem::swap(&mut d, &mut defs[i]);
            let ghost dv = d@;
            proof {
                assert(dv == dvs[i as int]);
            }
            match self.compile_pred(d) {
                Result::Ok(()) => {},
                Result::Err(e) => {
                    proof {
                        assert(compile_prog_upto(dvs, old(self).prog(), old(self).lc(), i + 1)
                            == Result::<(ProgramV, int), CompileErrorV>::Err(e@));
                        lemma_compile_prog_err_stable(
                            dvs,
                            old(self).prog(),
                            old(self).lc(),
                            i + 1,
                            n as int,
                        );
                    }
                    return Result::Err(e);
                },
            }
            i += 1;
        }
        Result::Ok(())
    }

    /// Inspect the generated code.
    pub fn get_ir_ref(&self) -> (r: &Vec<(PredSig, Vec<Insn>)>)
        ensures
            Seq::new(r@.len(), |i: int| (r@[i].0@, view_insns(r@[i].1@))) == self.prog(),
    {
        proof {
            assert(Seq::new(
                self.ir_code@.len(),
                |i: int| (self.ir_code@[i].0@, view_insns(self.ir_code@[i].1@)),
            ) =~= self.prog());
        }
        &self.ir_code
    }

    /// Extract the compiled program, consuming the compiler.  A final
    /// `Halt` is appended to `main/0` if it exists.
    pub fn get_ir_program(self) -> (r: crate::ir::Program)
        requires
            self.cur().len() == 0,
        ensures
            ({
                let main_sig = (PredV::User("main"@), 0int);
                let i = crate::ir::prog_index(self.prog(), main_sig);
                if i >= 0 {
                    r@ == self.prog().update(
                        i,
                        (main_sig, self.prog()[i].1.push(InsnV::Halt)),
                    )
                } else {
                    r@ == self.prog()
                }
            }),
    {
        let mut me = self;
        let main_sig = PredSig(Pred::User(String::from_str("main")), 0);
        proof {
            reveal_strlit("main");
            assert(main_sig@ == (PredV::User("main"@), 0int));
        }
        let n = me.ir_code.len();
        let mut i: usize = 0;
        while i < n
            invariant
                n == me.ir_code@.len(),
                me == self,
                main_sig@ == (PredV::User("main"@), 0int),
                i <= n,
                forall|j: int| 0 <= j < i ==> me.prog()[j].0 != main_sig@,
            decreases n - i,
        {
            if crate::ast_common::sig_eq(&me.ir_code[i].0, &main_sig) {
                proof {
                    crate::ir::lemma_prog_index(me.prog(), main_sig@);
                    assert(me.prog()[i as int].0 == main_sig@);
                    assert(crate::ir::prog_index(me.prog(), main_sig@) == i as int);
                }
                let ghost before = me.prog();
                me.ir_code[i].1.push(Insn::Halt);
                let r = crate::ir::Program { text: me.ir_code };
                proof {
                    assert(r@ =~= before.update(
                        i as int,
                        (main_sig@, before[i as int].1.push(InsnV::Halt)),
                    )) by {
                        assert forall|a: int| 0 <= a < r@.len() implies r@[a] == before.update(
                            i as int,
                            (main_sig@, before[i as int].1.push(InsnV::Halt)),
                        )[a] by {
                            if a == i as int {
                                assert(r@[a].1 =~= before[a].1.push(InsnV::Halt));
                            } else {
                                assert(r@[a].1 =~= before[a].1);
                            }
                        }
                    }
                }
                return r;
            }
            i += 1;
        }
        proof {
            crate::ir::lemma_prog_index(me.prog(), main_sig@);
            if crate::ir::prog_index(me.prog(), main_sig@) >= 0 {
                assert(false);
            }
        }
        let r = crate::ir::Program { text: me.ir_code };
        proof {
            assert(r@ =~= self.prog());
        }
        r
    }
}

/// The lowered form of a top-level statement wrapped into a synthetic
/// `main/0` definition: clause consolidation, anonymous-variable
/// elimination, variable enumeration, and `True`/`Fail` elimination.
pub open spec fn lower_main_spec(sv: crate::ast::transform::StmtS) -> Seq<PredDefV<usize>> {
    let p0 = seq![
        PredDefV::<Seq<char>> {
            name: PredV::User("main"@),
            params: Seq::empty(),
            body: sv,
        },
    ];
    let c = crate::ast::transform::consolidate_spec(p0);
    let u = Seq::new(c.len(), |i: int| crate::ast::transform::uelim_prog_entry(c, 0, i));
    let e = Seq::new(u.len(), |i: int| crate::ast::transform::enum_pred(u[i]).0);
    Seq::new(
        e.len(),
        |i: int|
            PredDefV::<usize> {
                name: e[i].name,
                params: e[i].params,
                body: crate::ast::transform::simplify_stmt_spec(e[i].body),
            },
    )
}

/// The compiled form of a top-level statement: the lowered program
/// compiled from scratch, with the trailing `Halt` appended to `main/0`.
pub open spec fn compile_main_spec(sv: crate::ast::transform::StmtS) -> Result<
    ProgramV,
    CompileErrorV,
> {
    let defs = lower_main_spec(sv);
    match compile_prog_upto(defs, Seq::empty(), 0, defs.len() as int) {
        Result::Ok((p, lc)) => {
            let msig = (PredV::User("main"@), 0int);
            let i = crate::ir::prog_index(p, msig);
            if i >= 0 {
                Result::Ok(p.update(i, (msig, p[i].1.push(InsnV::Halt))))
            } else {
                Result::Ok(p)
            }
        },
        Result::Err(e) => Result::Err(e),
    }
}

/// Compile one top-level statement: wrap it into a synthetic `main/0`
/// definition, run the lowering pipeline, and compile the result.
pub fn compile_stmt(s: Stmt<String>) -> (r: Result<crate::ir::Program, CompileError>)
    ensures
        match r {
            Result::Ok(prog) => compile_main_spec(s@) == Result::<ProgramV, CompileErrorV>::Ok(
                prog@,
            ),
            Result::Err(e) => compile_main_spec(s@) == Result::<ProgramV, CompileErrorV>::Err(e@),
        },
{
    let ghost sv = s@;
    let mut input_ast: crate::ast::Program<String> = Vec::new();
    input_ast.push(
        PredDef { name: Pred::User(String::from_str("main")), params: Vec::new(), body: s },
    );
    proof {
        reveal_strlit("main");
        crate::ast::lemma_view_exprs(Seq::<Expr<String>>::empty());
        assert(crate::ast::view_program(input_ast@) =~= seq![
            PredDefV::<Seq<char>> {
                name: PredV::User("main"@),
                params: Seq::empty(),
                body: sv,
            },
        ]) by {
            assert(input_ast@[0]@.params =~= Seq::<crate::ast::transform::ExprS>::empty());
        }
    }
    let ghost p0 = crate::ast::view_program(input_ast@);
    let consolidated = crate::ast::transform::Transformer::transform(
        crate::ast::transform::ConsolidateDefs::new(),
        input_ast,
    );
    let ghost c = crate::ast::transform::consolidate_spec(p0);
    let mut prog = consolidated;
    let ue = crate::ast::transform::UnderscoreElim::new();
    proof {
        assert(crate::ast::view_program(prog@) == c);
    }
    crate::ast::transform::InplaceTransformer::transform_inplace(ue, &mut prog);
    let ghost u = Seq::new(c.len(), |i: int| crate::ast::transform::uelim_prog_entry(c, 0, i));
    proof {
        assert(crate::ast::view_program(prog@) =~= u);
    }
    let numbered = crate::ast::transform::Transformer::transform(
        crate::ast::transform::EnumerateVariables::new(),
        prog,
    );
    let ghost e = Seq::new(u.len(), |i: int| crate::ast::transform::enum_pred(u[i]).0);
    proof {
        assert(crate::ast::view_program(numbered@) =~= e);
    }
    let mut simplified = numbered;
    crate::ast::transform::InplaceTransformer::transform_inplace(
        crate::ast::transform::IdempotentElim::new(),
        &mut simplified,
    );
    proof {
        assert(crate::ast::view_program(simplified@) =~= lower_main_spec(sv));
    }
    let mut ig = IRGen::new();
    match ig.compile_program(simplified) {
        Result::Ok(()) => Result::Ok(ig.get_ir_program()),
        Result::Err(e) => Result::Err(e),
    }
}

/// A failed whole-program compile stays failed as more definitions follow.
pub proof fn lemma_compile_prog_err_stable(
    defs: Seq<PredDefV<usize>>,
    p0: ProgramV,
    lc0: int,
    i: int,
    n: int,
)
    requires
        0 <= i <= n,
        compile_prog_upto(defs, p0, lc0, i) is Err,
    ensures
        compile_prog_upto(defs, p0, lc0, n) == compile_prog_upto(defs, p0, lc0, i),
    decreases n - i,
{
    if i < n {
        lemma_compile_prog_err_stable(defs, p0, lc0, i + 1, n);
    }
}

} // verus!
