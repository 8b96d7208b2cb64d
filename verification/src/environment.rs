//! Environments of invocations: variables by name, in the order in which they were set first.

use crate::invocation::{EnvEntry, EnvView};
use crate::order::views;
use vstd::prelude::*;

verus! {

/// `indexmap::IndexMap`, values by key in the order in which the keys were put in.
#[verifier::external_type_specification]
#[verifier::external_body]
#[verifier::reject_recursive_types(K)]
#[verifier::reject_recursive_types(V)]
#[verifier::reject_recursive_types(S)]
pub struct ExIndexMap<K, V, S>(indexmap::IndexMap<K, V, S>);

/// The variables of an invocation by name. One without a value is unset.
pub type EnvMap = indexmap::IndexMap<String, Option<String>, std::hash::RandomState>;

/// The variables that an environment holds, in their order.
pub uninterp spec fn held_variables(
    env: indexmap::IndexMap<String, Option<String>, std::hash::RandomState>,
) -> Seq<(Seq<char>, Option<Seq<char>>)>;

/// The variables that an environment holds, in their order.
pub open spec fn env_views(env: EnvMap) -> Seq<EnvView> {
    held_variables(env).map_values(
        |variable: (Seq<char>, Option<Seq<char>>)|
            EnvView { name: variable.0, value: variable.1 },
    )
}

/// `indexmap::IndexMap::new` gives a map that holds nothing.
#[verifier::external_body]
pub(crate) fn new_env() -> (env: EnvMap)
    ensures
        held_variables(env) == Seq::<(Seq<char>, Option<Seq<char>>)>::empty(),
{
    indexmap::IndexMap::new()
}

/// `indexmap::IndexMap::clone` gives a map with copies of what the map holds, in the same
/// order.
#[verifier::external_body]
pub(crate) fn copy_env(env: &EnvMap) -> (copy: EnvMap)
    ensures
        held_variables(copy) == held_variables(*env),
{
    env.clone()
}

/// `indexmap::IndexMap::iter` walks over what the map holds, in its order.
#[verifier::external_body]
pub(crate) fn list_env(env: &EnvMap) -> (variables: Vec<EnvEntry>)
    ensures
        views(variables@) == env_views(*env),
{
    env.iter().map(|(name, value)| EnvEntry { name: name.clone(), value: value.clone() }).collect()
}

/// `==` on `indexmap::IndexMap` says whether two maps hold the same values under the same
/// keys, whatever their order is.
#[verifier::external_body]
pub(crate) fn same_env(a: &EnvMap, b: &EnvMap) -> (same: bool)
    ensures
        same == (env_views(*a).to_set() == env_views(*b).to_set()),
{
    a == b
}

} // verus!
