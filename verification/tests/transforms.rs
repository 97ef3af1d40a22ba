//! The lowering passes: clause consolidation, anonymous-variable
//! elimination, variable enumeration, and `True`/`Fail` elimination.

use cadmium::ast::transform::{
    ConsolidateDefs, EnumerateVariables, IdempotentElim, InplaceTransformer, Transformer,
    UnderscoreElim,
};
use cadmium::ast::{Expr, PredDef, Stmt};
use cadmium::ast_common::Pred;

fn user(name: &str) -> Pred {
    Pred::User(name.to_string())
}

fn pv(name: &str) -> Expr<String> {
    Expr::PV(name.to_string())
}

fn atom(name: &str) -> Expr<String> {
    Expr::Atom(name.to_string())
}

fn unify(a: Expr<String>, b: Expr<String>) -> Stmt<String> {
    Stmt::Unify(a, b)
}

fn and(a: Stmt<String>, b: Stmt<String>) -> Stmt<String> {
    Stmt::And(Box::new(a), Box::new(b))
}

fn or(a: Stmt<String>, b: Stmt<String>) -> Stmt<String> {
    Stmt::Or(Box::new(a), Box::new(b))
}

#[test]
fn test_consolidate_merges_clauses() {
    // p(a). p(b).  becomes one definition with a fresh parameter and a
    // disjunction of the two clause bindings; simplification then removes
    // every redundant True and Fail.
    let program = vec![
        PredDef { name: user("p"), params: vec![atom("a")], body: Stmt::True },
        PredDef { name: user("p"), params: vec![atom("b")], body: Stmt::True },
    ];
    let mut merged = ConsolidateDefs::new().transform(program);
    IdempotentElim::new().transform_inplace(&mut merged);
    assert_eq!(merged.len(), 1);
    assert_eq!(merged[0].name, user("p"));
    assert_eq!(merged[0].params, vec![pv("_P1")]);
    assert_eq!(
        merged[0].body,
        or(unify(pv("_P1"), atom("a")), unify(pv("_P1"), atom("b")))
    );
}

#[test]
fn test_consolidate_keeps_signatures_apart() {
    // Same name, different arity: two separate definitions remain.
    let program = vec![
        PredDef { name: user("p"), params: vec![atom("a")], body: Stmt::True },
        PredDef { name: user("p"), params: vec![atom("a"), atom("b")], body: Stmt::True },
        PredDef { name: user("q"), params: vec![], body: Stmt::Fail },
    ];
    let merged = ConsolidateDefs::new().transform(program);
    assert_eq!(merged.len(), 3);
    let sigs: Vec<(Pred, usize)> =
        merged.iter().map(|d| (d.name.clone(), d.params.len())).collect();
    assert_eq!(
        sigs,
        vec![(user("p"), 1), (user("p"), 2), (user("q"), 0)]
    );
}

#[test]
fn test_underscore_elim_renames_each_occurrence() {
    // Two anonymous variables become two distinct fresh names; a user name
    // that merely starts with an underscore is kept.
    let mut program = vec![PredDef {
        name: user("p"),
        params: vec![pv("_"), pv("_keep")],
        body: unify(pv("_"), pv("X")),
    }];
    UnderscoreElim::new().transform_inplace(&mut program);
    assert_eq!(program[0].params, vec![pv("_G1"), pv("_keep")]);
    assert_eq!(program[0].body, unify(pv("_G2"), pv("X")));
}

#[test]
fn test_enumerate_variables_is_dense_and_consistent() {
    // Distinct names get distinct dense indices in first-occurrence order;
    // repeated names share their index; scoping is per definition.
    let program = vec![
        PredDef {
            name: user("p"),
            params: vec![pv("X"), pv("Y")],
            body: and(unify(pv("X"), pv("Z")), unify(pv("Y"), pv("X"))),
        },
        PredDef { name: user("q"), params: vec![pv("A")], body: unify(pv("A"), pv("B")) },
    ];
    let numbered = EnumerateVariables::new().transform(program);
    assert_eq!(numbered[0].params, vec![Expr::PV(0usize), Expr::PV(1usize)]);
    assert_eq!(
        numbered[0].body,
        Stmt::And(
            Box::new(Stmt::Unify(Expr::PV(0), Expr::PV(2))),
            Box::new(Stmt::Unify(Expr::PV(1), Expr::PV(0))),
        )
    );
    // The second definition starts counting afresh.
    assert_eq!(numbered[1].params, vec![Expr::PV(0usize)]);
    assert_eq!(numbered[1].body, Stmt::Unify(Expr::PV(0), Expr::PV(1)));
}

#[test]
fn test_idempotent_elim_reaches_fixed_point() {
    // Nested redundancies vanish in one bottom-up pass.
    let mut program = vec![PredDef {
        name: user("p"),
        params: vec![],
        body: and(
            and(Stmt::True, Stmt::True),
            or(Stmt::Fail, unify(atom("a"), atom("a"))),
        ),
    }];
    IdempotentElim::new().transform_inplace(&mut program);
    assert_eq!(program[0].body, unify(atom("a"), atom("a")));
}

#[test]
fn test_idempotent_elim_decides_conditionals() {
    let mut program = vec![PredDef {
        name: user("p"),
        params: vec![],
        body: Stmt::If(
            Box::new(Stmt::True),
            Box::new(unify(atom("t"), atom("t"))),
            Box::new(unify(atom("e"), atom("e"))),
        ),
    }];
    IdempotentElim::new().transform_inplace(&mut program);
    assert_eq!(program[0].body, unify(atom("t"), atom("t")));
}

#[test]
fn test_collect_pvs_in_order() {
    let s = and(
        unify(pv("X"), pv("Y")),
        Stmt::Call(user("p"), vec![pv("Z"), Expr::Ctor("f".to_string(), vec![pv("X")])]),
    );
    let vars = s.collect_pvs();
    assert_eq!(vars, vec!["X", "Y", "Z", "X"]);
}
