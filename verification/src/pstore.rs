//! Persistent (shared-structure) finite maps from `im_rc`, used as the
//! backing store for variable bindings and frame locals.  Each `update`
//! returns a new map value; older versions stay valid, which is what makes
//! choice-point snapshots cheap and backtracking sound.

use vstd::prelude::*;

use crate::ir::{TermV, Value};

verus! {

#[verifier::external_type_specification]
#[verifier::external_body]
#[verifier::reject_recursive_types(K)]
#[verifier::reject_recursive_types(V)]
#[verifier::reject_recursive_types(S)]
pub struct ExImHashMap<K, V, S>(im_rc::HashMap<K, V, S>);

/// The finite map that an `im_rc::HashMap<u64, Value>` holds, with keys as
/// mathematical integers and stored terms by their views.
pub uninterp spec fn pmap_model(m: im_rc::HashMap<u64, Value>) -> Map<int, TermV>;

/// Relies on `im_rc::HashMap::new`: constructs the empty map.
#[verifier::external_body]
pub fn pmap_new() -> (r: im_rc::HashMap<u64, Value>)
    ensures
        pmap_model(r) =~= Map::empty(),
{
    im_rc::HashMap::new()
}

/// Relies on `im_rc::HashMap::get`: returns the value the key maps to, if any.
#[verifier::external_body]
pub fn pmap_get(m: &im_rc::HashMap<u64, Value>, k: u64) -> (r: Option<&Value>)
    ensures
        match r {
            Some(v) => pmap_model(*m).dom().contains(k as int) && v@ == pmap_model(*m)[k as int],
            None => !pmap_model(*m).dom().contains(k as int),
        },
{
    m.get(&k)
}

/// Relies on `im_rc::HashMap::update`: returns a new map with the binding
/// added, leaving the original untouched.
#[verifier::external_body]
pub fn pmap_update(m: &im_rc::HashMap<u64, Value>, k: u64, v: Value) -> (r: im_rc::HashMap<
    u64,
    Value,
>)
    ensures
        pmap_model(r) == pmap_model(*m).insert(k as int, v@),
{
    m.update(k, v)
}

/// Relies on `im_rc::HashMap::clone`: an O(1) copy sharing the same contents.
#[verifier::external_body]
pub fn pmap_clone(m: &im_rc::HashMap<u64, Value>) -> (r: im_rc::HashMap<u64, Value>)
    ensures
        pmap_model(r) == pmap_model(*m),
{
    m.clone()
}

} // verus!
