//! The binding store: reflexivity, symmetry, idempotence, persistence, and
//! the concrete unification scenarios.

use cadmium::ir::Value;
use cadmium::unification::Unification;

fn atom(s: &str) -> Value {
    Value::Atom(s.to_string())
}

fn ctor(f: &str, args: Vec<Value>) -> Value {
    Value::Ctor(f.to_string(), args)
}

fn lv(n: u64) -> Value {
    Value::LV(n)
}

#[test]
fn test_union_reflexive() {
    let u = Unification::new();
    let t = ctor("f", vec![atom("a"), lv(1), Value::Num(7)]);
    let u2 = u.union(&t, &t).expect("a term unifies with itself");
    // The semantic content is untouched: every probe resolves as before.
    assert_eq!(u2.find(&lv(1)), &lv(1));
    assert_eq!(u2.find(&atom("a")), &atom("a"));
}

#[test]
fn test_union_symmetric() {
    let u = Unification::new();
    let x = lv(1);
    let a = atom("a");
    let b = atom("b");
    assert!(u.union(&x, &a).is_some());
    assert!(u.union(&a, &x).is_some());
    assert!(u.union(&a, &b).is_none());
    assert!(u.union(&b, &a).is_none());
    let fx = ctor("f", vec![lv(2)]);
    assert!(u.union(&x, &fx).is_some());
    assert!(u.union(&fx, &x).is_some());
    // Compound against compound, both orders: success agrees, and both
    // resolve the variables to the same values.
    let t1 = ctor("f", vec![lv(1), atom("b")]);
    let t2 = ctor("f", vec![atom("a"), lv(2)]);
    let s12 = u.union(&t1, &t2).expect("f(X, b) and f(a, Y) unify");
    let s21 = u.union(&t2, &t1).expect("f(a, Y) and f(X, b) unify");
    assert_eq!(s12.find(&lv(1)), s21.find(&lv(1)));
    assert_eq!(s12.find(&lv(2)), s21.find(&lv(2)));
    // And failure agrees in both orders too.
    let c1 = ctor("f", vec![atom("a"), lv(1)]);
    let c2 = ctor("f", vec![atom("b"), lv(2)]);
    assert!(u.union(&c1, &c2).is_none());
    assert!(u.union(&c2, &c1).is_none());
}

#[test]
fn test_union_idempotent() {
    let u = Unification::new();
    let x = lv(1);
    let y = lv(2);
    let tx = ctor("f", vec![x.clone(), atom("b")]);
    let ty = ctor("f", vec![atom("a"), y.clone()]);
    let s1 = u.union(&tx, &ty).expect("f(X, b) and f(a, Y) unify");
    let rx = s1.find(&tx).clone();
    let ry = s1.find(&ty).clone();
    // Re-unifying the representatives is a no-op: it succeeds, and nothing
    // resolves differently afterwards.
    let s2 = s1
        .union(&rx, &ry)
        .expect("re-unifying already-unified terms succeeds");
    assert_eq!(s2.find(&x), s1.find(&x));
    assert_eq!(s2.find(&y), s1.find(&y));
    assert_eq!(s2.find(&tx), s1.find(&tx));
}

#[test]
fn test_union_persistence() {
    // A version is unaffected by unions performed on its descendants.
    let v0 = Unification::new();
    let x = lv(1);
    let y = lv(2);
    let v1 = v0.union(&x, &atom("a")).expect("X and a unify");
    let v2 = v1.union(&y, &atom("b")).expect("Y and b unify");
    assert_eq!(v0.find(&x), &x);
    assert_eq!(v0.find(&y), &y);
    assert_eq!(v1.find(&x), &atom("a"));
    assert_eq!(v1.find(&y), &y);
    assert_eq!(v2.find(&x), &atom("a"));
    assert_eq!(v2.find(&y), &atom("b"));
}

#[test]
fn test_unify_compound_binds_both_sides() {
    // f(X, b) = f(a, Y) binds X to a and Y to b.
    let u = Unification::new();
    let x = lv(1);
    let y = lv(2);
    let s = u
        .union(&ctor("f", vec![x.clone(), atom("b")]), &ctor("f", vec![atom("a"), y.clone()]))
        .expect("f(X, b) and f(a, Y) unify");
    assert_eq!(s.find(&x), &atom("a"));
    assert_eq!(s.find(&y), &atom("b"));
}

#[test]
fn test_unify_functor_clash_fails() {
    let u = Unification::new();
    assert!(u.union(&ctor("f", vec![atom("a")]), &ctor("g", vec![atom("a")])).is_none());
}

#[test]
fn test_unify_arity_clash_fails() {
    let u = Unification::new();
    assert!(u
        .union(&ctor("f", vec![atom("a")]), &ctor("f", vec![atom("a"), atom("a")]))
        .is_none());
}

#[test]
fn test_unify_first_argument_checked() {
    // The first argument pair takes part in unification.
    let u = Unification::new();
    assert!(u
        .union(&ctor("f", vec![atom("a"), atom("c")]), &ctor("f", vec![atom("b"), atom("c")]))
        .is_none());
}

#[test]
fn test_no_occurs_check() {
    // The engine performs no occurs check: X = f(X) simply binds X.
    let u = Unification::new();
    let x = lv(1);
    let fx = ctor("f", vec![x.clone()]);
    let s = u.union(&x, &fx).expect("binding X to f(X) is accepted");
    assert_eq!(s.find(&x), &fx);
}

#[test]
fn test_find_resolves_chains() {
    let u = Unification::new();
    let x = lv(1);
    let y = lv(2);
    let s = u.union(&x, &y).expect("two variables unify");
    let s = s.union(&y, &atom("end")).expect("Y and end unify");
    assert_eq!(s.find(&x), &atom("end"));
}
