//! End-to-end runs of the virtual machine: solutions, backtracking,
//! failure, recursion, and what `print/1` writes.

use cadmium::ast::transform::{
    ConsolidateDefs, EnumerateVariables, IdempotentElim, InplaceTransformer, Transformer,
    UnderscoreElim,
};
use cadmium::ast::{Expr, PredDef, Program, Stmt};
use cadmium::ast_common::Pred;
use cadmium::ir::{Insn, Value};
use cadmium::ir_gen::IRGen;
use cadmium::vm::VM;

fn user(name: &str) -> Pred {
    Pred::User(name.to_string())
}

fn pv(name: &str) -> Expr<String> {
    Expr::PV(name.to_string())
}

fn atom(name: &str) -> Expr<String> {
    Expr::Atom(name.to_string())
}

fn unify(a: Expr<String>, b: Expr<String>) -> Stmt<String> {
    Stmt::Unify(a, b)
}

fn and(a: Stmt<String>, b: Stmt<String>) -> Stmt<String> {
    Stmt::And(Box::new(a), Box::new(b))
}

fn or(a: Stmt<String>, b: Stmt<String>) -> Stmt<String> {
    Stmt::Or(Box::new(a), Box::new(b))
}

fn print_of(e: Expr<String>) -> Stmt<String> {
    Stmt::Call(Pred::Sys("print".to_string(), 1), vec![e])
}

/// Lower, compile and run a whole program, returning the stopped machine.
fn run_program(defs: Program<String>) -> VM {
    let merged = ConsolidateDefs::new().transform(defs);
    let mut named = merged;
    UnderscoreElim::new().transform_inplace(&mut named);
    let numbered = EnumerateVariables::new().transform(named);
    let mut lowered = numbered;
    IdempotentElim::new().transform_inplace(&mut lowered);
    let mut ig = IRGen::new();
    ig.compile_program(lowered).expect("the program compiles");
    let mut vm = VM::new(ig.get_ir_program());
    vm.run().expect("the machine runs without a fault");
    vm
}

/// Everything the run printed, in order.
fn printed(vm: &VM) -> String {
    match &vm.state {
        Some(s) => s.output.concat(),
        None => String::new(),
    }
}

fn main_def(body: Stmt<String>) -> PredDef<String> {
    PredDef { name: user("main"), params: vec![], body }
}

#[test]
fn test_run_unify_then_print() {
    // main :- X = foo, print(X).  Prints foo and halts successfully.
    let vm = run_program(vec![main_def(and(
        unify(pv("X"), atom("foo")),
        print_of(pv("X")),
    ))]);
    assert!(vm.state.is_some());
    assert_eq!(printed(&vm), "foo");
}

#[test]
fn test_run_disjunction_first_solution() {
    // main :- (X = foo ; X = bar), print(X).  The first branch wins.
    let vm = run_program(vec![main_def(and(
        or(unify(pv("X"), atom("foo")), unify(pv("X"), atom("bar"))),
        print_of(pv("X")),
    ))]);
    assert!(vm.state.is_some());
    assert_eq!(printed(&vm), "foo");
}

#[test]
fn test_run_disjunction_backtracks_on_fail() {
    // main :- (X = foo ; X = bar), print(X), fail.  Both branches print,
    // then the machine fails globally — and what was printed stays printed.
    let defs = vec![main_def(and(
        and(
            or(unify(pv("X"), atom("foo")), unify(pv("X"), atom("bar"))),
            print_of(pv("X")),
        ),
        Stmt::Fail,
    ))];
    let merged = ConsolidateDefs::new().transform(defs);
    let mut named = merged;
    UnderscoreElim::new().transform_inplace(&mut named);
    let numbered = EnumerateVariables::new().transform(named);
    let mut lowered = numbered;
    IdempotentElim::new().transform_inplace(&mut lowered);
    let mut ig = IRGen::new();
    ig.compile_program(lowered).expect("the program compiles");
    let mut vm = VM::new(ig.get_ir_program());
    // Walk step by step so the output can be inspected before the final
    // transition to global failure discards the state.
    let mut seen = String::new();
    for _ in 0..10000 {
        if vm.state.is_none() {
            break;
        }
        if let Some(s) = &vm.state {
            seen = s.output.concat();
        }
        if matches!(vm.control(), Some(cadmium::ir::Insn::Halt)) {
            break;
        }
        vm.step().expect("no fault");
    }
    assert!(vm.state.is_none(), "a trailing fail exhausts the search space");
    assert_eq!(seen, "foobar");
}

#[test]
fn test_run_clauses_enumerate_in_order() {
    // p(a). p(b). main :- p(X), print(X), fail.  Prints ab, then fails.
    let defs = vec![
        PredDef { name: user("p"), params: vec![atom("a")], body: Stmt::True },
        PredDef { name: user("p"), params: vec![atom("b")], body: Stmt::True },
        main_def(and(
            and(Stmt::Call(user("p"), vec![pv("X")]), print_of(pv("X"))),
            Stmt::Fail,
        )),
    ];
    let merged = ConsolidateDefs::new().transform(defs);
    let mut named = merged;
    UnderscoreElim::new().transform_inplace(&mut named);
    let numbered = EnumerateVariables::new().transform(named);
    let mut lowered = numbered;
    IdempotentElim::new().transform_inplace(&mut lowered);
    let mut ig = IRGen::new();
    ig.compile_program(lowered).expect("the program compiles");
    let mut vm = VM::new(ig.get_ir_program());
    let mut seen = String::new();
    for _ in 0..100000 {
        if vm.state.is_none() {
            break;
        }
        if let Some(s) = &vm.state {
            seen = s.output.concat();
        }
        if matches!(vm.control(), Some(cadmium::ir::Insn::Halt)) {
            break;
        }
        vm.step().expect("no fault");
    }
    assert!(vm.state.is_none());
    assert_eq!(seen, "ab");
}

#[test]
fn test_run_clash_reaches_global_failure() {
    // main :- f(a) = g(a).  No output; the machine fails globally.
    let vm = run_program(vec![main_def(unify(
        Expr::Ctor("f".to_string(), vec![atom("a")]),
        Expr::Ctor("g".to_string(), vec![atom("a")]),
    ))]);
    assert!(vm.state.is_none());
}

#[test]
fn test_run_recursion_unwinds() {
    // p(z). p(s(X)) :- p(X). main :- p(s(s(s(z)))), print(done).
    let s = |e: Expr<String>| Expr::Ctor("s".to_string(), vec![e]);
    let defs = vec![
        PredDef { name: user("p"), params: vec![atom("z")], body: Stmt::True },
        PredDef {
            name: user("p"),
            params: vec![s(pv("X"))],
            body: Stmt::Call(user("p"), vec![pv("X")]),
        },
        main_def(and(
            Stmt::Call(user("p"), vec![s(s(s(atom("z"))))]),
            print_of(atom("done")),
        )),
    ];
    let vm = run_program(defs);
    assert!(vm.state.is_some());
    assert_eq!(printed(&vm), "done");
}

#[test]
fn test_run_recursion_failure_is_clean() {
    // q(z). main :- q(s(z)).  The single clause cannot match; the machine
    // fails globally with no output and no fault.
    let s = |e: Expr<String>| Expr::Ctor("s".to_string(), vec![e]);
    let defs = vec![
        PredDef { name: user("q"), params: vec![atom("z")], body: Stmt::True },
        main_def(Stmt::Call(user("q"), vec![s(atom("z"))])),
    ];
    let vm = run_program(defs);
    assert!(vm.state.is_none());
}

#[test]
fn test_if_then_else_commits_to_then() {
    // main :- (X = a -> print(X) ; print(nope)), with the condition
    // succeeding: the then-branch runs once and alternatives of the
    // condition are gone.
    let body = and(
        Stmt::If(
            Box::new(or(unify(pv("X"), atom("a")), unify(pv("X"), atom("b")))),
            Box::new(print_of(pv("X"))),
            Box::new(print_of(atom("nope"))),
        ),
        Stmt::True,
    );
    let vm = run_program(vec![main_def(body)]);
    assert!(vm.state.is_some());
    assert_eq!(printed(&vm), "a");
}

#[test]
fn test_if_then_else_falls_to_else() {
    // main :- (a = b -> print(yes) ; print(no)).
    let body = Stmt::If(
        Box::new(unify(atom("a"), atom("b"))),
        Box::new(print_of(atom("yes"))),
        Box::new(print_of(atom("no"))),
    );
    let vm = run_program(vec![main_def(body)]);
    assert!(vm.state.is_some());
    assert_eq!(printed(&vm), "no");
}

#[test]
fn test_unknown_predicate_is_a_fault() {
    // main :- q.  Nothing defines q/0: the machine reports the fault with
    // the predicate it happened in.
    let defs = vec![main_def(Stmt::Call(user("q"), vec![]))];
    let merged = ConsolidateDefs::new().transform(defs);
    let mut named = merged;
    UnderscoreElim::new().transform_inplace(&mut named);
    let numbered = EnumerateVariables::new().transform(named);
    let mut lowered = numbered;
    IdempotentElim::new().transform_inplace(&mut lowered);
    let mut ig = IRGen::new();
    ig.compile_program(lowered).expect("the program compiles");
    let mut vm = VM::new(ig.get_ir_program());
    let fault = vm.run().expect_err("an undefined predicate faults");
    assert!(matches!(
        fault,
        cadmium::vm::VmError::UnknownPredicate(sig, _) if sig == cadmium::ast_common::PredSig(user("q"), 0)
    ));
}

#[test]
fn test_missing_builtin_is_a_fault() {
    // main :- sys:boom/1(a).  No such built-in is registered.
    let defs = vec![main_def(Stmt::Call(
        Pred::Sys("boom".to_string(), 1),
        vec![atom("a")],
    ))];
    let merged = ConsolidateDefs::new().transform(defs);
    let mut named = merged;
    UnderscoreElim::new().transform_inplace(&mut named);
    let numbered = EnumerateVariables::new().transform(named);
    let mut lowered = numbered;
    IdempotentElim::new().transform_inplace(&mut lowered);
    let mut ig = IRGen::new();
    ig.compile_program(lowered).expect("the program compiles");
    let mut vm = VM::new(ig.get_ir_program());
    let fault = vm.run().expect_err("a missing built-in faults");
    assert!(matches!(fault, cadmium::vm::VmError::MissingBuiltin(_, _)));
}

#[test]
fn test_print_resolves_through_bindings() {
    // main :- X = f(a), print(X).  The printed form follows the binding.
    let vm = run_program(vec![main_def(and(
        unify(pv("X"), Expr::Ctor("f".to_string(), vec![atom("a")])),
        print_of(pv("X")),
    ))]);
    assert!(vm.state.is_some());
    assert_eq!(printed(&vm), "f(a)");
}

#[test]
fn test_stack_opcodes_on_a_raw_program() {
    // A hand-assembled stream: push, duplicate, discard, halt.
    let code = vec![
        Insn::PushValue(Value::Atom("a".to_string())),
        Insn::Dup,
        Insn::Pop,
        Insn::Halt,
    ];
    let program = cadmium::ir::Program {
        text: vec![(cadmium::ast_common::PredSig(user("main"), 0), code)],
    };
    let mut vm = VM::new(program);
    vm.run().expect("no fault");
    let state = vm.state.expect("the machine halts");
    assert_eq!(state.local_state.op_stack, vec![Value::Atom("a".to_string())]);
}

#[test]
fn test_det_pops_newer_choice_points() {
    // Det removes every choice point above the one carrying its label.
    let code = vec![
        Insn::MkCheckpoint(7, 3),
        Insn::MkCheckpoint(8, 2),
        Insn::Det(7),
        Insn::Halt,
    ];
    let program = cadmium::ir::Program {
        text: vec![(cadmium::ast_common::PredSig(user("main"), 0), code)],
    };
    let mut vm = VM::new(program);
    vm.run().expect("no fault");
    let state = vm.state.expect("the machine halts");
    assert_eq!(state.cp_stack.len(), 1);
    assert_eq!(state.cp_stack[0].label, (0, 7));
}

#[test]
fn test_ret_with_empty_call_stack_keeps_the_state() {
    // A bare Ret with nothing to return to ends the run successfully: the
    // machine keeps its state, as on Halt, and stepping again changes
    // nothing.
    let code = vec![Insn::PushValue(Value::Atom("a".to_string())), Insn::Ret];
    let program = cadmium::ir::Program {
        text: vec![(cadmium::ast_common::PredSig(user("main"), 0), code)],
    };
    let mut vm = VM::new(program);
    vm.run().expect("no fault");
    let before = {
        let state = vm.state.as_ref().expect("the machine keeps its state");
        assert!(state.call_stack.is_empty());
        state.local_state.op_stack.clone()
    };
    vm.step().expect("stepping at the stop is a no-op");
    let state = vm.state.as_ref().expect("still held");
    assert_eq!(state.local_state.op_stack, before);
}
