//! Persistent union-find over terms: the binding store of the engine.
//!
//! A substitution maps logic-variable identifiers to terms.  `find` resolves a
//! term through the store to its representative; `union` unifies two terms
//! (Robinson's first-order algorithm, without an occurs check, matching the
//! engine's semantics) and returns a new version of the store, leaving every
//! older version untouched.
//!
//! Termination of `find` rests on the store's acyclicity.  The proof carries a
//! ghost rank for each variable: ranks strictly increase along binding chains
//! and are bounded by a ghost maximum, so each chain is finite.

use vstd::prelude::*;

use crate::ir::{TermV, Value};
use crate::pstore::{pmap_clone, pmap_get, pmap_model, pmap_new, pmap_update};

verus! {

/// Mathematical picture of a substitution version: the binding map plus the
/// ghost ranks that witness acyclicity.
pub struct GSubst {
    /// Bindings: variable identifier to bound term.  A variable in the domain
    /// is bound; every other variable is its own representative.
    pub m: Map<int, TermV>,
    /// Ghost rank of variables; ranks strictly increase along binding chains.
    pub rank: Map<int, nat>,
    /// Upper bound of all ranks.
    pub maxr: nat,
}

/// Well-formedness of one binding: no self-loop, and a variable bound to a
/// variable has a strictly smaller rank than its target.
pub open spec fn gwf_entry(g: GSubst, v: int) -> bool {
    g.m[v] is LV ==> {
        let w = g.m[v]->LV_0;
        &&& w != v
        &&& g.rank.dom().contains(v)
        &&& g.rank.dom().contains(w)
        &&& g.rank[v] < g.rank[w]
    }
}

/// Well-formedness of a substitution version.
pub open spec fn gwf(g: GSubst) -> bool {
    &&& forall|v: int| #[trigger] g.m.dom().contains(v) ==> gwf_entry(g, v)
    &&& forall|v: int| #[trigger] g.rank.dom().contains(v) ==> g.rank[v] <= g.maxr
}

/// Termination measure for walking the binding chain that starts at `t`.
pub open spec fn gmeasure(g: GSubst, t: TermV) -> int {
    if t is LV && g.m.dom().contains(t->LV_0) && g.m[t->LV_0] is LV {
        g.maxr + 1 - g.rank[t->LV_0]
    } else {
        0
    }
}

/// Representative of `t` in `g`: variables are chased through the store;
/// any other term is its own representative.
pub open spec fn gfind(g: GSubst, t: TermV) -> TermV
    decreases gmeasure(g, t),
        when gwf(g)
{
    if t is LV {
        let v = t->LV_0;
        if g.m.dom().contains(v) {
            let y = g.m[v];
            if y is LV {
                gfind(g, y)
            } else {
                y
            }
        } else {
            t
        }
    } else {
        t
    }
}

/// The store after binding the unbound variable `v` to the representative
/// `t`, together with the rank bookkeeping that keeps chains well-founded.
pub open spec fn gbind(g: GSubst, v: int, t: TermV) -> GSubst {
    if t is LV {
        let w = t->LV_0;
        let r = if g.rank.dom().contains(v) {
            g.rank
        } else {
            g.rank.insert(v, 0)
        };
        GSubst { m: g.m.insert(v, t), rank: r.insert(w, g.maxr + 1), maxr: g.maxr + 1 }
    } else {
        GSubst { m: g.m.insert(v, t), rank: g.rank, maxr: g.maxr }
    }
}

/// Outcome of unification at the mathematical level.  `Exhausted` records
/// that the given recursion budget did not suffice; unification without an
/// occurs check has no terminating result on some stores.
pub enum GUnionResult {
    Unified(GSubst),
    Failed,
    Exhausted,
}

/// Unification of `x` and `y` in `g` with a recursion budget.
///
/// The two representatives are compared; equal terms leave the store as it
/// is, a variable representative is bound to the other side, and compound
/// terms with the same functor and arity are unified argument by argument,
/// left to right, short-circuiting on failure.  Anything else fails.
pub open spec fn gunion_n(g: GSubst, x: TermV, y: TermV, fuel: nat) -> GUnionResult
    decreases fuel, 1int, 0int,
{
    if fuel == 0 {
        GUnionResult::Exhausted
    } else {
        let x1 = gfind(g, x);
        let y1 = gfind(g, y);
        if x1 == y1 {
            GUnionResult::Unified(g)
        } else if x1 is LV {
            GUnionResult::Unified(gbind(g, x1->LV_0, y1))
        } else if y1 is LV {
            GUnionResult::Unified(gbind(g, y1->LV_0, x1))
        } else if x1 is Ctor && y1 is Ctor && x1->Ctor_0 == y1->Ctor_0 && x1->Ctor_1.len()
            == y1->Ctor_1.len() {
            gunion_args_n(g, x1->Ctor_1, y1->Ctor_1, 0, (fuel - 1) as nat)
        } else {
            GUnionResult::Failed
        }
    }
}

/// Left-to-right unification of the argument pairs `fa[i..]` with `ga[i..]`.
pub open spec fn gunion_args_n(g: GSubst, fa: Seq<TermV>, ga: Seq<TermV>, i: int, fuel: nat)
    -> GUnionResult
    decreases fuel, 0int, fa.len() - i,
{
    if i < 0 || i >= fa.len() {
        GUnionResult::Unified(g)
    } else if fuel == 0 {
        GUnionResult::Exhausted
    } else {
        match gunion_n(g, fa[i], ga[i], (fuel - 1) as nat) {
            GUnionResult::Unified(g2) => gunion_args_n(g2, fa, ga, i + 1, fuel),
            r => r,
        }
    }
}

/// `gb` extends `ga`: every binding of `ga` is a binding of `gb`.
pub open spec fn gext(ga: GSubst, gb: GSubst) -> bool {
    &&& forall|v: int| #[trigger] ga.m.dom().contains(v) ==> gb.m.dom().contains(v)
    &&& forall|v: int| #[trigger] ga.m.dom().contains(v) ==> gb.m[v] == ga.m[v]
}

/// A variable representative is unbound.
pub proof fn lemma_gfind_lv_unbound(g: GSubst, t: TermV)
    requires
        gwf(g),
        gfind(g, t) is LV,
    ensures
        !g.m.dom().contains(gfind(g, t)->LV_0),
    decreases gmeasure(g, t),
{
    if t is LV {
        let v = t->LV_0;
        if g.m.dom().contains(v) {
            let y = g.m[v];
            if y is LV {
                lemma_gfind_lv_unbound(g, y);
            }
        }
    }
}

/// Binding an unbound variable to a representative keeps the store
/// well-formed and extends it by exactly that binding.
pub proof fn lemma_gbind_wf(g: GSubst, v: int, t: TermV)
    requires
        gwf(g),
        !g.m.dom().contains(v),
        t is LV ==> t->LV_0 != v && !g.m.dom().contains(t->LV_0),
    ensures
        gwf(gbind(g, v, t)),
        gbind(g, v, t).m == g.m.insert(v, t),
        gext(g, gbind(g, v, t)),
{
    let g2 = gbind(g, v, t);
    assert forall|u: int| #[trigger] g2.m.dom().contains(u) implies gwf_entry(g2, u) by {
        if u == v {
            if t is LV {
                let w = t->LV_0;
                assert(g2.rank[w] == g.maxr + 1);
                assert(g2.rank.dom().contains(v));
                assert(g2.rank[v] <= g.maxr);
            }
        } else {
            assert(g.m.dom().contains(u));
            assert(gwf_entry(g, u));
            if g.m[u] is LV {
                let z = g.m[u]->LV_0;
                if t is LV {
                    let w = t->LV_0;
                    assert(w != u);
                    assert(g2.rank[u] == g.rank[u]);
                    assert(g2.rank[z] >= g.rank[z]);
                }
            }
        }
    }
    assert forall|u: int| #[trigger] g2.rank.dom().contains(u) implies g2.rank[u] <= g2.maxr by {
        if t is LV {
            let w = t->LV_0;
            if u != w && u != v {
                assert(g.rank.dom().contains(u));
            }
        }
    }
}

/// A successful unification extends the store and keeps it well-formed.
pub proof fn lemma_gunion_preserves(g: GSubst, x: TermV, y: TermV, fuel: nat)
    requires
        gwf(g),
        gunion_n(g, x, y, fuel) is Unified,
    ensures
        gwf(gunion_n(g, x, y, fuel)->Unified_0),
        gext(g, gunion_n(g, x, y, fuel)->Unified_0),
    decreases fuel, 1int, 0int,
{
    let x1 = gfind(g, x);
    let y1 = gfind(g, y);
    if x1 == y1 {
    } else if x1 is LV {
        lemma_gfind_lv_unbound(g, x);
        if y1 is LV {
            lemma_gfind_lv_unbound(g, y);
        }
        lemma_gbind_wf(g, x1->LV_0, y1);
    } else if y1 is LV {
        lemma_gfind_lv_unbound(g, y);
        lemma_gbind_wf(g, y1->LV_0, x1);
    } else {
        lemma_gunion_args_preserves(g, x1->Ctor_1, y1->Ctor_1, 0, (fuel - 1) as nat);
    }
}

/// As `lemma_gunion_preserves`, for the argument fold.
pub proof fn lemma_gunion_args_preserves(g: GSubst, fa: Seq<TermV>, ga: Seq<TermV>, i: int, fuel: nat)
    requires
        gwf(g),
        gunion_args_n(g, fa, ga, i, fuel) is Unified,
    ensures
        gwf(gunion_args_n(g, fa, ga, i, fuel)->Unified_0),
        gext(g, gunion_args_n(g, fa, ga, i, fuel)->Unified_0),
    decreases fuel, 0int, fa.len() - i,
{
    if i < 0 || i >= fa.len() {
    } else {
        let r1 = gunion_n(g, fa[i], ga[i], (fuel - 1) as nat);
        lemma_gunion_preserves(g, fa[i], ga[i], (fuel - 1) as nat);
        let g2 = r1->Unified_0;
        lemma_gunion_args_preserves(g2, fa, ga, i + 1, fuel);
    }
}

/// Resolving in an extension of `g` gives the same answer whether or not one
/// first resolves in `g`.
pub proof fn lemma_gfind_ext(g: GSubst, g2: GSubst, t: TermV)
    requires
        gwf(g),
        gwf(g2),
        gext(g, g2),
    ensures
        gfind(g2, gfind(g, t)) == gfind(g2, t),
    decreases gmeasure(g, t),
{
    if t is LV {
        let v = t->LV_0;
        if g.m.dom().contains(v) {
            let y = g.m[v];
            if y is LV {
                lemma_gfind_ext(g, g2, y);
            }
        }
    }
}

/// `gfind` is idempotent.
pub proof fn lemma_gfind_idem(g: GSubst, t: TermV)
    requires
        gwf(g),
    ensures
        gfind(g, gfind(g, t)) == gfind(g, t),
    decreases gmeasure(g, t),
{
    if t is LV {
        let v = t->LV_0;
        if g.m.dom().contains(v) {
            let y = g.m[v];
            if y is LV {
                lemma_gfind_idem(g, y);
            }
        }
    }
}

/// After a successful unification of `x` and `y`, unifying them again in the
/// resulting store — or in any well-formed extension `g2` of it — changes
/// nothing: the same store comes back.
pub proof fn lemma_gunion_noop(g: GSubst, x: TermV, y: TermV, fuel: nat, g2: GSubst)
    requires
        gwf(g),
        gwf(g2),
        gunion_n(g, x, y, fuel) is Unified,
        gext(gunion_n(g, x, y, fuel)->Unified_0, g2),
    ensures
        gunion_n(g2, x, y, fuel) == GUnionResult::Unified(g2),
    decreases fuel, 1int, 0int,
{
    let g1 = gunion_n(g, x, y, fuel)->Unified_0;
    lemma_gunion_preserves(g, x, y, fuel);
    let x1 = gfind(g, x);
    let y1 = gfind(g, y);
    lemma_gext_trans(g, g1, g2);
    lemma_gfind_ext(g, g2, x);
    lemma_gfind_ext(g, g2, y);
    if x1 == y1 {
        // g1 == g; both sides resolve alike in g2.
    } else if x1 is LV {
        let v = x1->LV_0;
        // In g2 the binding v -> y1 is present, so x and y resolve alike.
        assert(g1.m.dom().contains(v));
        assert(g2.m[v] == y1);
        assert(gfind(g2, x) == gfind(g2, x1));
        assert(gfind(g2, x1) == if y1 is LV {
            gfind(g2, y1)
        } else {
            y1
        });
        lemma_gfind_idem_ext(g, g2, y);
    } else if y1 is LV {
        let v = y1->LV_0;
        assert(g1.m.dom().contains(v));
        assert(g2.m[v] == x1);
        assert(gfind(g2, y) == gfind(g2, y1));
        lemma_gfind_idem_ext(g, g2, x);
        if gfind(g2, x1) == y1 {
            // Cannot happen: x1 is not a variable, so it resolves to itself.
            assert(gfind(g2, x1) == x1);
        }
    } else {
        // Compound against compound: every argument pair is already unified.
        assert(gfind(g2, x) == x1);
        assert(gfind(g2, y) == y1);
        lemma_gunion_args_noop(g, x1->Ctor_1, y1->Ctor_1, 0, (fuel - 1) as nat, g2);
    }
}

/// As `lemma_gunion_noop`, for the argument fold.
pub proof fn lemma_gunion_args_noop(
    g: GSubst,
    fa: Seq<TermV>,
    ga: Seq<TermV>,
    i: int,
    fuel: nat,
    g2: GSubst,
)
    requires
        gwf(g),
        gwf(g2),
        gunion_args_n(g, fa, ga, i, fuel) is Unified,
        gext(gunion_args_n(g, fa, ga, i, fuel)->Unified_0, g2),
    ensures
        gunion_args_n(g2, fa, ga, i, fuel) == GUnionResult::Unified(g2),
    decreases fuel, 0int, fa.len() - i,
{
    if i < 0 || i >= fa.len() {
    } else {
        let r1 = gunion_n(g, fa[i], ga[i], (fuel - 1) as nat);
        let ga1 = r1->Unified_0;
        lemma_gunion_preserves(g, fa[i], ga[i], (fuel - 1) as nat);
        lemma_gunion_args_preserves(ga1, fa, ga, i + 1, fuel);
        let gfinal = gunion_args_n(ga1, fa, ga, i + 1, fuel)->Unified_0;
        lemma_gext_trans(ga1, gfinal, g2);
        lemma_gunion_noop(g, fa[i], ga[i], (fuel - 1) as nat, g2);
        lemma_gunion_args_noop(ga1, fa, ga, i + 1, fuel, g2);
    }
}

/// `gext` is transitive.
pub proof fn lemma_gext_trans(ga: GSubst, gb: GSubst, gc: GSubst)
    requires
        gext(ga, gb),
        gext(gb, gc),
    ensures
        gext(ga, gc),
{
}

/// In an extension, a term and its old representative resolve to the same
/// representative, and resolving twice is the same as resolving once.
pub proof fn lemma_gfind_idem_ext(g: GSubst, g2: GSubst, t: TermV)
    requires
        gwf(g),
        gwf(g2),
        gext(g, g2),
    ensures
        gfind(g2, gfind(g, t)) == gfind(g2, t),
        gfind(g2, gfind(g2, t)) == gfind(g2, t),
{
    lemma_gfind_ext(g, g2, t);
    lemma_gfind_idem(g2, t);
}

/// After binding the unbound variable `v` to the representative `t`, a
/// term resolves to `t` if it used to resolve to `v`, and as before
/// otherwise.
pub proof fn lemma_gfind_after_bind(g: GSubst, v: int, t: TermV, a: TermV)
    requires
        gwf(g),
        !g.m.dom().contains(v),
        t is LV ==> t->LV_0 != v && !g.m.dom().contains(t->LV_0),
    ensures
        gfind(gbind(g, v, t), a) == (if gfind(g, a) == TermV::LV(v) {
            t
        } else {
            gfind(g, a)
        }),
    decreases gmeasure(g, a),
{
    lemma_gbind_wf(g, v, t);
    let g2 = gbind(g, v, t);
    if a is LV {
        let u = a->LV_0;
        if g.m.dom().contains(u) {
            let y = g.m[u];
            assert(g2.m.dom().contains(u) && g2.m[u] == y);
            if y is LV {
                lemma_gfind_after_bind(g, v, t, y);
                assert(gfind(g, a) == gfind(g, y));
                assert(gfind(g2, a) == gfind(g2, y));
            } else {
                assert(gfind(g, a) == y);
                assert(gfind(g2, a) == y);
            }
        } else {
            if u == v {
                assert(gfind(g, a) == a);
                assert(g2.m.dom().contains(v) && g2.m[v] == t);
                if t is LV {
                    assert(!g2.m.dom().contains(t->LV_0));
                    assert(gfind(g2, t) == t);
                    assert(gfind(g2, a) == t);
                } else {
                    assert(gfind(g2, a) == t);
                }
            } else {
                assert(gfind(g, a) == a);
                assert(!g2.m.dom().contains(u));
                assert(gfind(g2, a) == a);
            }
        }
    } else {
        assert(gfind(g, a) == a);
        assert(gfind(g2, a) == a);
    }
}

/// Semantic equivalence of two substitution versions: they make exactly
/// the same terms resolve alike, and resolve every term that reaches a
/// non-variable to the same value.  Versions that differ only in how
/// variable-to-variable bindings are oriented are equivalent.
pub open spec fn requiv(g1: GSubst, g2: GSubst) -> bool {
    &&& forall|a: TermV, b: TermV| #![trigger gfind(g1, a), gfind(g1, b)]
        (gfind(g1, a) == gfind(g1, b)) <==> (gfind(g2, a) == gfind(g2, b))
    &&& forall|a: TermV| !(#[trigger] gfind(g1, a) is LV) ==> gfind(g2, a) == gfind(g1, a)
    &&& forall|a: TermV| !(#[trigger] gfind(g2, a) is LV) ==> gfind(g1, a) == gfind(g2, a)
}

/// Binding the class of `x` to the representative of `y`, in two
/// equivalent stores, keeps them equivalent.
pub proof fn lemma_requiv_bind_parallel(g1: GSubst, g2: GSubst, x: TermV, y: TermV)
    requires
        gwf(g1),
        gwf(g2),
        requiv(g1, g2),
        gfind(g1, x) is LV,
        gfind(g1, x) != gfind(g1, y),
    ensures
        ({
            let h1 = gbind(g1, gfind(g1, x)->LV_0, gfind(g1, y));
            let h2 = gbind(g2, gfind(g2, x)->LV_0, gfind(g2, y));
            &&& gwf(h1)
            &&& gwf(h2)
            &&& requiv(h1, h2)
        }),
{
    let v1 = gfind(g1, x)->LV_0;
    let t1 = gfind(g1, y);
    let v2 = gfind(g2, x)->LV_0;
    let t2 = gfind(g2, y);
    assert(gfind(g2, x) is LV);
    assert(gfind(g2, x) != gfind(g2, y));
    lemma_gfind_lv_unbound(g1, x);
    lemma_gfind_lv_unbound(g2, x);
    lemma_gfind_idem(g1, y);
    lemma_gfind_idem(g2, y);
    if t1 is LV {
        lemma_gfind_lv_unbound(g1, y);
    }
    if t2 is LV {
        lemma_gfind_lv_unbound(g2, y);
    }
    let h1 = gbind(g1, v1, t1);
    let h2 = gbind(g2, v2, t2);
    lemma_gbind_wf(g1, v1, t1);
    lemma_gbind_wf(g2, v2, t2);
    assert forall|a: TermV| #[trigger] gfind(h1, a) == (if gfind(g1, a) == TermV::LV(v1) {
        t1
    } else {
        gfind(g1, a)
    }) by {
        lemma_gfind_after_bind(g1, v1, t1, a);
    }
    assert forall|a: TermV| #[trigger] gfind(h2, a) == (if gfind(g2, a) == TermV::LV(v2) {
        t2
    } else {
        gfind(g2, a)
    }) by {
        lemma_gfind_after_bind(g2, v2, t2, a);
    }
    // Resolutions correspond clause by clause.
    assert forall|a: TermV, b: TermV| #![trigger gfind(h1, a), gfind(h1, b)]
        (gfind(h1, a) == gfind(h1, b)) <==> (gfind(h2, a) == gfind(h2, b)) by {
        assert((gfind(g1, a) == gfind(g1, b)) <==> (gfind(g2, a) == gfind(g2, b)));
        assert((gfind(g1, a) == gfind(g1, x)) <==> (gfind(g2, a) == gfind(g2, x)));
        assert((gfind(g1, b) == gfind(g1, x)) <==> (gfind(g2, b) == gfind(g2, x)));
        assert((gfind(g1, a) == gfind(g1, y)) <==> (gfind(g2, a) == gfind(g2, y)));
        assert((gfind(g1, b) == gfind(g1, y)) <==> (gfind(g2, b) == gfind(g2, y)));
        if !(t1 is LV) {
            assert(t2 == t1);
        }
        if !(t2 is LV) {
            assert(t1 == t2);
        }
        assert(gfind(g1, gfind(g1, y)) == gfind(g1, y));
        assert(gfind(g2, gfind(g2, y)) == gfind(g2, y));
        if gfind(g1, a) == t1 {
            assert(gfind(g1, a) == gfind(g1, y));
        }
        if gfind(g1, b) == t1 {
            assert(gfind(g1, b) == gfind(g1, y));
        }
        if gfind(g2, a) == t2 {
            assert(gfind(g2, a) == gfind(g2, y));
        }
        if gfind(g2, b) == t2 {
            assert(gfind(g2, b) == gfind(g2, y));
        }
    }
    assert forall|a: TermV| !(#[trigger] gfind(h1, a) is LV) implies gfind(h2, a) == gfind(
        h1,
        a,
    ) by {
        assert((gfind(g1, a) == gfind(g1, x)) <==> (gfind(g2, a) == gfind(g2, x)));
    }
    assert forall|a: TermV| !(#[trigger] gfind(h2, a) is LV) implies gfind(h1, a) == gfind(
        h2,
        a,
    ) by {
        assert((gfind(g1, a) == gfind(g1, x)) <==> (gfind(g2, a) == gfind(g2, x)));
    }
}

/// Binding the class of `x` to the class of `y` in one store, and the
/// class of `y` to the class of `x` in an equivalent store, keeps them
/// equivalent: the orientation of a variable-to-variable binding does not
/// matter.
pub proof fn lemma_requiv_bind_mirror(g1: GSubst, g2: GSubst, x: TermV, y: TermV)
    requires
        gwf(g1),
        gwf(g2),
        requiv(g1, g2),
        gfind(g1, x) is LV,
        gfind(g1, y) is LV,
        gfind(g1, x) != gfind(g1, y),
    ensures
        ({
            let h1 = gbind(g1, gfind(g1, x)->LV_0, gfind(g1, y));
            let h2 = gbind(g2, gfind(g2, y)->LV_0, gfind(g2, x));
            &&& gwf(h1)
            &&& gwf(h2)
            &&& requiv(h1, h2)
        }),
{
    let v1 = gfind(g1, x)->LV_0;
    let t1 = gfind(g1, y);
    let v2 = gfind(g2, y)->LV_0;
    let t2 = gfind(g2, x);
    assert(gfind(g2, x) is LV);
    assert(gfind(g2, y) is LV);
    assert(gfind(g2, x) != gfind(g2, y));
    lemma_gfind_lv_unbound(g1, x);
    lemma_gfind_lv_unbound(g1, y);
    lemma_gfind_lv_unbound(g2, x);
    lemma_gfind_lv_unbound(g2, y);
    let h1 = gbind(g1, v1, t1);
    let h2 = gbind(g2, v2, t2);
    lemma_gbind_wf(g1, v1, t1);
    lemma_gbind_wf(g2, v2, t2);
    assert forall|a: TermV| #[trigger] gfind(h1, a) == (if gfind(g1, a) == TermV::LV(v1) {
        t1
    } else {
        gfind(g1, a)
    }) by {
        lemma_gfind_after_bind(g1, v1, t1, a);
    }
    assert forall|a: TermV| #[trigger] gfind(h2, a) == (if gfind(g2, a) == TermV::LV(v2) {
        t2
    } else {
        gfind(g2, a)
    }) by {
        lemma_gfind_after_bind(g2, v2, t2, a);
    }
    assert forall|a: TermV, b: TermV| #![trigger gfind(h1, a), gfind(h1, b)]
        (gfind(h1, a) == gfind(h1, b)) <==> (gfind(h2, a) == gfind(h2, b)) by {
        assert((gfind(g1, a) == gfind(g1, b)) <==> (gfind(g2, a) == gfind(g2, b)));
        assert((gfind(g1, a) == gfind(g1, x)) <==> (gfind(g2, a) == gfind(g2, x)));
        assert((gfind(g1, b) == gfind(g1, x)) <==> (gfind(g2, b) == gfind(g2, x)));
        assert((gfind(g1, a) == gfind(g1, y)) <==> (gfind(g2, a) == gfind(g2, y)));
        assert((gfind(g1, b) == gfind(g1, y)) <==> (gfind(g2, b) == gfind(g2, y)));
        lemma_gfind_idem(g1, x);
        lemma_gfind_idem(g1, y);
        lemma_gfind_idem(g2, x);
        lemma_gfind_idem(g2, y);
        if gfind(g1, a) == t1 {
            assert(gfind(g1, a) == gfind(g1, y));
        }
        if gfind(g1, b) == t1 {
            assert(gfind(g1, b) == gfind(g1, y));
        }
        if gfind(g2, a) == t2 {
            assert(gfind(g2, a) == gfind(g2, x));
        }
        if gfind(g2, b) == t2 {
            assert(gfind(g2, b) == gfind(g2, x));
        }
    }
    assert forall|a: TermV| !(#[trigger] gfind(h1, a) is LV) implies gfind(h2, a) == gfind(
        h1,
        a,
    ) by {
        assert((gfind(g1, a) == gfind(g1, x)) <==> (gfind(g2, a) == gfind(g2, x)));
        assert((gfind(g1, a) == gfind(g1, y)) <==> (gfind(g2, a) == gfind(g2, y)));
    }
    assert forall|a: TermV| !(#[trigger] gfind(h2, a) is LV) implies gfind(h1, a) == gfind(
        h2,
        a,
    ) by {
        assert((gfind(g1, a) == gfind(g1, x)) <==> (gfind(g2, a) == gfind(g2, x)));
        assert((gfind(g1, a) == gfind(g1, y)) <==> (gfind(g2, a) == gfind(g2, y)));
    }
}

/// Law: unifying a term with itself succeeds and leaves the substitution's
/// semantic content untouched.
pub proof fn lemma_union_reflexive(g: GSubst, t: TermV, fuel: nat)
    requires
        gwf(g),
        fuel >= 1,
    ensures
        gunion_n(g, t, t, fuel) == GUnionResult::Unified(g),
{
}

/// Unifying `x` with `y` in one store and `y` with `x` in an equivalent
/// store succeed, fail, or exhaust the budget together, and successes
/// leave the stores equivalent.
pub proof fn lemma_gunion_requiv(g1: GSubst, g2: GSubst, x: TermV, y: TermV, fuel: nat)
    requires
        gwf(g1),
        gwf(g2),
        requiv(g1, g2),
    ensures
        match (gunion_n(g1, x, y, fuel), gunion_n(g2, y, x, fuel)) {
            (GUnionResult::Unified(h1), GUnionResult::Unified(h2)) => gwf(h1) && gwf(h2)
                && requiv(h1, h2),
            (GUnionResult::Failed, GUnionResult::Failed) => true,
            (GUnionResult::Exhausted, GUnionResult::Exhausted) => true,
            _ => false,
        },
    decreases fuel, 1int, 0int,
{
    if fuel == 0 {
    } else {
        let x1 = gfind(g1, x);
        let y1 = gfind(g1, y);
        assert((gfind(g1, x) == gfind(g1, y)) <==> (gfind(g2, x) == gfind(g2, y)));
        if x1 == y1 {
        } else {
            if x1 is LV {
                if !(gfind(g2, x) is LV) {
                    assert(gfind(g1, x) == gfind(g2, x));
                    assert(false);
                }
                if y1 is LV {
                    if !(gfind(g2, y) is LV) {
                        assert(gfind(g1, y) == gfind(g2, y));
                        assert(false);
                    }
                    lemma_requiv_bind_mirror(g1, g2, x, y);
                } else {
                    assert(gfind(g2, y) == y1);
                    lemma_requiv_bind_parallel(g1, g2, x, y);
                }
            } else if y1 is LV {
                assert(gfind(g2, x) == x1);
                if !(gfind(g2, y) is LV) {
                    assert(gfind(g1, y) == gfind(g2, y));
                    assert(false);
                }
                lemma_requiv_bind_parallel(g1, g2, y, x);
            } else {
                assert(gfind(g2, x) == x1);
                assert(gfind(g2, y) == y1);
                if x1 is Ctor && y1 is Ctor && x1->Ctor_0 == y1->Ctor_0 && x1->Ctor_1.len()
                    == y1->Ctor_1.len() {
                    lemma_gunion_args_requiv(
                        g1,
                        g2,
                        x1->Ctor_1,
                        y1->Ctor_1,
                        0,
                        (fuel - 1) as nat,
                    );
                }
            }
        }
    }
}

/// As `lemma_gunion_requiv`, for the argument folds of two compound terms
/// taken in opposite argument orders.
pub proof fn lemma_gunion_args_requiv(
    g1: GSubst,
    g2: GSubst,
    fa: Seq<TermV>,
    ga: Seq<TermV>,
    i: int,
    fuel: nat,
)
    requires
        gwf(g1),
        gwf(g2),
        requiv(g1, g2),
        fa.len() == ga.len(),
    ensures
        match (gunion_args_n(g1, fa, ga, i, fuel), gunion_args_n(g2, ga, fa, i, fuel)) {
            (GUnionResult::Unified(h1), GUnionResult::Unified(h2)) => gwf(h1) && gwf(h2)
                && requiv(h1, h2),
            (GUnionResult::Failed, GUnionResult::Failed) => true,
            (GUnionResult::Exhausted, GUnionResult::Exhausted) => true,
            _ => false,
        },
    decreases fuel, 0int, fa.len() - i,
{
    if i < 0 || i >= fa.len() {
    } else if fuel == 0 {
    } else {
        lemma_gunion_requiv(g1, g2, fa[i], ga[i], (fuel - 1) as nat);
        match (gunion_n(g1, fa[i], ga[i], (fuel - 1) as nat), gunion_n(
            g2,
            ga[i],
            fa[i],
            (fuel - 1) as nat,
        )) {
            (GUnionResult::Unified(h1), GUnionResult::Unified(h2)) => {
                lemma_gunion_args_requiv(h1, h2, fa, ga, i + 1, fuel);
            },
            _ => {},
        }
    }
}

/// Law: `union(x, y)` succeeds exactly when `union(y, x)` does, and the
/// two substitutions are then semantically equivalent (`requiv`): the same
/// resolutions coincide, and every term resolving to a non-variable
/// resolves to the same value — they differ at most in how
/// variable-to-variable bindings are oriented.
pub proof fn lemma_union_symmetric(g: GSubst, x: TermV, y: TermV, fuel: nat)
    requires
        gwf(g),
    ensures
        gunion_n(g, x, y, fuel) is Unified <==> gunion_n(g, y, x, fuel) is Unified,
        gunion_n(g, x, y, fuel) is Failed <==> gunion_n(g, y, x, fuel) is Failed,
        gunion_n(g, x, y, fuel) is Unified ==> requiv(
            gunion_n(g, x, y, fuel)->Unified_0,
            gunion_n(g, y, x, fuel)->Unified_0,
        ),
{
    assert(requiv(g, g));
    lemma_gunion_requiv(g, g, x, y, fuel);
}

/// Law: after `g1 = union(x, y)` succeeds, unifying the representatives of
/// `x` and `y` in `g1` is a no-op: it succeeds and returns `g1` itself.
pub proof fn lemma_union_idempotent(g: GSubst, x: TermV, y: TermV, fuel: nat)
    requires
        gwf(g),
        gunion_n(g, x, y, fuel) is Unified,
    ensures
        ({
            let g1 = gunion_n(g, x, y, fuel)->Unified_0;
            gunion_n(g1, gfind(g1, x), gfind(g1, y), fuel) == GUnionResult::Unified(g1)
        }),
{
    let g1 = gunion_n(g, x, y, fuel)->Unified_0;
    lemma_gunion_preserves(g, x, y, fuel);
    lemma_gunion_noop(g, x, y, fuel, g1);
    lemma_gfind_idem(g1, x);
    lemma_gfind_idem(g1, y);
}

/// Outcome of one bounded unification attempt.
pub enum UnionResult {
    /// Unification succeeded; here is the new substitution version.
    Unified(Unification),
    /// The two terms do not unify; the caller should backtrack.
    Failed,
    /// The recursion budget ran out (possible only on stores with cyclic
    /// term structure, which the engine, having no occurs check, can build).
    Exhausted,
}

impl UnionResult {
    /// The mathematical outcome this value stands for.
    pub open spec fn view(self) -> GUnionResult {
        match self {
            UnionResult::Unified(u) => GUnionResult::Unified(u@),
            UnionResult::Failed => GUnionResult::Failed,
            UnionResult::Exhausted => GUnionResult::Exhausted,
        }
    }
}

/// Recursion budget used by `union`: bounded only by the machine.
pub const UNION_FUEL: u64 = 0xffff_ffff_ffff_ffff;

/// A persistent substitution: the engine's binding store.
///
/// Versions are values; `union` returns a fresh version and never touches
/// `self`, so every older version stays valid — that is what backtracking
/// restores (persistence is by construction of the shared `im_rc` trie).
pub struct Unification {
    parent: im_rc::HashMap<u64, Value>,
    rank: Ghost<Map<int, nat>>,
    maxr: Ghost<nat>,
}

impl View for Unification {
    type V = GSubst;

    closed spec fn view(&self) -> GSubst {
        GSubst { m: pmap_model(self.parent), rank: self.rank@, maxr: self.maxr@ }
    }
}

impl Unification {
    /// The store's invariant: its binding chains are well-founded.
    pub open spec fn wf(self) -> bool {
        gwf(self@)
    }

    /// The empty substitution.
    pub fn new() -> (r: Self)
        ensures
            r.wf(),
            r@.m == Map::<int, TermV>::empty(),
    {
        Unification { parent: pmap_new(), rank: Ghost(Map::empty()), maxr: Ghost(0) }
    }

    /// An O(1) copy of this version.
    fn dup(&self) -> (r: Self)
        ensures
            r@ == self@,
    {
        Unification { parent: pmap_clone(&self.parent), rank: self.rank, maxr: self.maxr }
    }
}

impl Clone for Unification {
    /// Cloning a version preserves its contents; the copy shares structure.
    fn clone(&self) -> (r: Self)
        ensures
            r@ == self@,
    {
        self.dup()
    }
}

impl Unification {

    /// Resolve `x` through the store to its representative term.
    pub fn find<'a>(&'a self, x: &'a Value) -> (r: &'a Value)
        requires
            self.wf(),
        ensures
            r@ == gfind(self@, x@),
        decreases gmeasure(self@, x@),
    {
        match x {
            Value::LV(v) => match pmap_get(&self.parent, *v) {
                Some(y) => match y {
                    Value::LV(_) => self.find(y),
                    _ => y,
                },
                None => x,
            },
            _ => x,
        }
    }

    /// Unify `x` with `y` under a recursion budget of `fuel`.
    pub fn union_fueled(&self, x: &Value, y: &Value, fuel: u64) -> (r: UnionResult)
        requires
            self.wf(),
        ensures
            r@ == gunion_n(self@, x@, y@, fuel as nat),
            r is Unified ==> r->Unified_0.wf(),
        decreases fuel as nat, 1int, 0int,
    {
        if fuel == 0 {
            return UnionResult::Exhausted;
        }
        let x1 = self.find(x);
        let y1 = self.find(y);
        if crate::ir::term_eq(x1, y1) {
            return UnionResult::Unified(self.dup());
        }
        match (x1, y1) {
            (Value::LV(v), _) => {
                let bound = Unification {
                    parent: pmap_update(&self.parent, *v, y1.clone()),
                    rank: Ghost(gbind(self@, *v as int, y1@).rank),
                    maxr: Ghost(gbind(self@, *v as int, y1@).maxr),
                };
                proof {
                    lemma_gfind_lv_unbound(self@, x@);
                    if y1@ is LV {
                        lemma_gfind_lv_unbound(self@, y@);
                    }
                    lemma_gbind_wf(self@, *v as int, y1@);
                }
                UnionResult::Unified(bound)
            },
            (_, Value::LV(w)) => {
                let bound = Unification {
                    parent: pmap_update(&self.parent, *w, x1.clone()),
                    rank: Ghost(gbind(self@, *w as int, x1@).rank),
                    maxr: Ghost(gbind(self@, *w as int, x1@).maxr),
                };
                proof {
                    lemma_gfind_lv_unbound(self@, y@);
                    lemma_gbind_wf(self@, *w as int, x1@);
                }
                UnionResult::Unified(bound)
            },
            (Value::Ctor(f, fa), Value::Ctor(g, ga)) => {
                if f.eq(g) && fa.len() == ga.len() {
                    proof {
                        crate::ir::lemma_view_terms(fa@);
                        crate::ir::lemma_view_terms(ga@);
                    }
                    self.union_args_fueled(fa, ga, 0, fuel - 1)
                } else {
                    proof {
                        crate::ir::lemma_view_terms(fa@);
                        crate::ir::lemma_view_terms(ga@);
                    }
                    UnionResult::Failed
                }
            },
            _ => UnionResult::Failed,
        }
    }

    /// Unify the argument pairs `fa[i..]` with `ga[i..]`, left to right.
    fn union_args_fueled(&self, fa: &Vec<Value>, ga: &Vec<Value>, i: usize, fuel: u64) -> (r:
        UnionResult)
        requires
            self.wf(),
            fa@.len() == ga@.len(),
            i <= fa@.len(),
        ensures
            r@ == gunion_args_n(
                self@,
                crate::ir::view_terms(fa@),
                crate::ir::view_terms(ga@),
                i as int,
                fuel as nat,
            ),
            r is Unified ==> r->Unified_0.wf(),
        decreases fuel as nat, 0int, fa@.len() - i,
    {
        proof {
            crate::ir::lemma_view_terms(fa@);
            crate::ir::lemma_view_terms(ga@);
        }
        if i >= fa.len() {
            return UnionResult::Unified(self.dup());
        }
        if fuel == 0 {
            return UnionResult::Exhausted;
        }
        match self.union_fueled(&fa[i], &ga[i], fuel - 1) {
            UnionResult::Unified(u2) => u2.union_args_fueled(fa, ga, i + 1, fuel),
            r => r,
        }
    }

    /// Unify `x` with `y`, returning the extended substitution on success and
    /// `None` on a unification failure.
    ///
    /// The caller rules out stores on which the (occurs-check-free) algorithm
    /// would recurse past the machine-sized budget; every store reachable
    /// from realistic programs is far below it.
    pub fn union(&self, x: &Value, y: &Value) -> (r: Option<Unification>)
        requires
            self.wf(),
            !(gunion_n(self@, x@, y@, UNION_FUEL as nat) is Exhausted),
        ensures
            match r {
                Some(u2) => u2.wf() && gunion_n(self@, x@, y@, UNION_FUEL as nat)
                    == GUnionResult::Unified(u2@),
                None => gunion_n(self@, x@, y@, UNION_FUEL as nat) == GUnionResult::Failed,
            },
    {
        match self.union_fueled(x, y, UNION_FUEL) {
            UnionResult::Unified(u2) => Some(u2),
            UnionResult::Failed => None,
            UnionResult::Exhausted => None,
        }
    }
}

} // verus!
