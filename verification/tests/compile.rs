//! The bytecode compiler: instruction streams, offsets, prologues and
//! compile errors; and the printed form of terms.

use cadmium::ast::{Expr, PredDef, Stmt};
use cadmium::ast_common::{Pred, PredSig};
use cadmium::builtins::term_to_display;
use cadmium::ir::{Insn, Value};
use cadmium::ir_gen::{compile_stmt, CompileError, IRGen};
use cadmium::strings::u64_to_string;

fn user(name: &str) -> Pred {
    Pred::User(name.to_string())
}

fn npv(i: usize) -> Expr<usize> {
    Expr::PV(i)
}

#[test]
fn test_compile_unify_and_call() {
    // main :- X = foo, print(X).
    let body = Stmt::And(
        Box::new(Stmt::Unify(npv(0), Expr::Atom("foo".to_string()))),
        Box::new(Stmt::Call(Pred::Sys("print".to_string(), 1), vec![npv(0)])),
    );
    let def = PredDef { name: user("main"), params: vec![], body };
    let mut ig = IRGen::new();
    ig.compile_pred(def).expect("main/0 compiles");
    let prog = ig.get_ir_program();
    assert_eq!(prog.text.len(), 1);
    assert_eq!(prog.text[0].0, PredSig(user("main"), 0));
    assert_eq!(
        prog.text[0].1,
        vec![
            Insn::Fresh,
            Insn::Store(0),
            Insn::Load(0),
            Insn::PushValue(Value::Atom("foo".to_string())),
            Insn::Unify,
            Insn::Load(0),
            Insn::Call(PredSig(Pred::Sys("print".to_string(), 1), 1)),
            Insn::Halt,
            Insn::Halt,
        ]
    );
}

#[test]
fn test_compile_disjunction_offsets() {
    // p :- fail ; a = a.  The checkpoint resumes at the right branch; the
    // jump skips it.
    let body = Stmt::Or(
        Box::new(Stmt::Fail),
        Box::new(Stmt::Unify(Expr::Atom("a".to_string()), Expr::Atom("a".to_string()))),
    );
    let def = PredDef { name: user("p"), params: vec![], body };
    let mut ig = IRGen::new();
    ig.compile_pred(def).expect("p/0 compiles");
    let prog = ig.get_ir_program();
    assert_eq!(
        prog.text[0].1,
        vec![
            Insn::MkCheckpoint(1, 3),
            Insn::Fail,
            Insn::Jump(4),
            Insn::PushValue(Value::Atom("a".to_string())),
            Insn::PushValue(Value::Atom("a".to_string())),
            Insn::Unify,
            Insn::Ret,
        ]
    );
}

#[test]
fn test_compile_call_pushes_arguments_reversed() {
    // q :- p(a, b).  The second argument's code comes first.
    let body = Stmt::Call(
        user("p"),
        vec![Expr::Atom("a".to_string()), Expr::Atom("b".to_string())],
    );
    let def = PredDef { name: user("q"), params: vec![], body };
    let mut ig = IRGen::new();
    ig.compile_pred(def).expect("q/0 compiles");
    let prog = ig.get_ir_program();
    assert_eq!(
        prog.text[0].1,
        vec![
            Insn::PushValue(Value::Atom("b".to_string())),
            Insn::PushValue(Value::Atom("a".to_string())),
            Insn::Call(PredSig(user("p"), 2)),
            Insn::Ret,
        ]
    );
}

#[test]
fn test_compile_rejects_system_predicate_definition() {
    let def = PredDef::<usize> {
        name: Pred::Sys("print".to_string(), 1),
        params: vec![npv(0)],
        body: Stmt::True,
    };
    let mut ig = IRGen::new();
    assert_eq!(
        ig.compile_pred(def),
        Err(CompileError::SystemPredicate(PredSig(Pred::Sys("print".to_string(), 1), 1)))
    );
}

#[test]
fn test_compile_rejects_redefinition() {
    let mut ig = IRGen::new();
    let def = PredDef::<usize> { name: user("p"), params: vec![], body: Stmt::True };
    ig.compile_pred(def).expect("first definition compiles");
    let again = PredDef::<usize> { name: user("p"), params: vec![], body: Stmt::Fail };
    assert_eq!(
        ig.compile_pred(again),
        Err(CompileError::Redefinition(PredSig(user("p"), 0)))
    );
}

#[test]
fn test_compile_stmt_pipeline() {
    // The whole pipeline on a raw statement with a named variable.
    let body = Stmt::And(
        Box::new(Stmt::Unify(Expr::PV("X".to_string()), Expr::Atom("foo".to_string()))),
        Box::new(Stmt::Call(Pred::Sys("print".to_string(), 1), vec![Expr::PV("X".to_string())])),
    );
    let prog = compile_stmt(body).expect("the statement compiles");
    assert_eq!(prog.text.len(), 1);
    assert_eq!(prog.text[0].0, PredSig(user("main"), 0));
    assert_eq!(
        prog.text[0].1,
        vec![
            Insn::Fresh,
            Insn::Store(0),
            Insn::Load(0),
            Insn::PushValue(Value::Atom("foo".to_string())),
            Insn::Unify,
            Insn::Load(0),
            Insn::Call(PredSig(Pred::Sys("print".to_string(), 1), 1)),
            Insn::Halt,
            Insn::Halt,
        ]
    );
}

#[test]
fn test_render_plain_and_quoted_atoms() {
    assert_eq!(term_to_display(&Value::Atom("foo".to_string())), "foo");
    assert_eq!(term_to_display(&Value::Atom("fooBar_9".to_string())), "fooBar_9");
    assert_eq!(term_to_display(&Value::Atom("Foo".to_string())), "'Foo'");
    assert_eq!(term_to_display(&Value::Atom("".to_string())), "''");
    assert_eq!(term_to_display(&Value::Atom("a b".to_string())), "'a b'");
    assert_eq!(term_to_display(&Value::Atom("a'b\\c\n".to_string())), "'a\\'b\\\\c\\n'");
}

#[test]
fn test_render_numbers_and_variables() {
    assert_eq!(term_to_display(&Value::Num(0)), "0");
    assert_eq!(term_to_display(&Value::Num(1234567890)), "1234567890");
    assert_eq!(term_to_display(&Value::Num(-5)), "-5");
    assert_eq!(term_to_display(&Value::Num(i64::MIN)), "-9223372036854775808");
    assert_eq!(term_to_display(&Value::LV(3)), "_LV3");
}

#[test]
fn test_render_compound() {
    let t = Value::Ctor(
        "f".to_string(),
        vec![
            Value::Atom("a".to_string()),
            Value::Ctor("g".to_string(), vec![Value::LV(1)]),
            Value::Num(2),
        ],
    );
    assert_eq!(term_to_display(&t), "f(a, g(_LV1), 2)");
    let empty = Value::Ctor("f".to_string(), vec![]);
    assert_eq!(term_to_display(&empty), "f");
}

#[test]
fn test_decimal_rendering() {
    assert_eq!(u64_to_string(0), "0");
    assert_eq!(u64_to_string(7), "7");
    assert_eq!(u64_to_string(105), "105");
    assert_eq!(u64_to_string(u64::MAX), "18446744073709551615");
}
