//! Laws that relate the operations on a parameter tree, stated over the
//! host's flat view that the operations' own contracts use.
use vstd::prelude::*;

use crate::flat::{label_at, name_at, nest, set_at, value_at, ParamView};

verus! {

/// A leaf appended to a group takes the next index and is shown there under
/// its own name, label and value.
pub proof fn lemma_leaf_appended(params: Seq<ParamView>, leaf: ParamView)
    ensures
        name_at(params.push(leaf), params.len() as int) == leaf.name,
        label_at(params.push(leaf), params.len() as int) == leaf.label,
        value_at(params.push(leaf), params.len() as int) == leaf.value,
{
}

/// A parameter of a nested group is shown, at its place in the enclosing
/// group, under the nesting prefix followed by its name within the nested
/// group; its label and value are its own.
pub proof fn lemma_prefix_prepended(
    params: Seq<ParamView>,
    child: Seq<ParamView>,
    prefix: Seq<char>,
    j: int,
)
    requires
        0 <= j < child.len(),
    ensures
        name_at(nest(params, child, prefix), params.len() + j) == prefix + name_at(child, j),
        label_at(nest(params, child, prefix), params.len() + j) == label_at(child, j),
        value_at(nest(params, child, prefix), params.len() + j) == value_at(child, j),
{
}

/// Prefixes compose by depth: a leaf nested twice is named by the outer
/// prefix, then the inner prefix, then its own name.
pub proof fn lemma_prefixes_compose(
    outer_params: Seq<ParamView>,
    inner_params: Seq<ParamView>,
    child: Seq<ParamView>,
    outer: Seq<char>,
    inner: Seq<char>,
    j: int,
)
    requires
        0 <= j < child.len(),
    ensures
        name_at(
            nest(outer_params, nest(inner_params, child, inner), outer),
            outer_params.len() + inner_params.len() + j,
        ) == outer + inner + child[j].name,
{
    let middle = nest(inner_params, child, inner);
    lemma_prefix_prepended(inner_params, child, inner, j);
    lemma_prefix_prepended(outer_params, middle, outer, inner_params.len() + j);
    assert(outer + (inner + child[j].name) =~= outer + inner + child[j].name);
}

/// Writing a value at an index in range and reading it back gives exactly
/// the value written; every other index keeps its value, and no name or
/// label changes.
pub proof fn lemma_set_then_get(params: Seq<ParamView>, index: int, value: u32)
    requires
        0 <= index < params.len(),
    ensures
        value_at(set_at(params, index, value), index) == value,
        set_at(params, index, value).len() == params.len(),
        forall|i: int|
            i != index ==> #[trigger] value_at(set_at(params, index, value), i) == value_at(
                params,
                i,
            ),
        forall|i: int| #[trigger]
            name_at(set_at(params, index, value), i) == name_at(params, i),
        forall|i: int| #[trigger]
            label_at(set_at(params, index, value), i) == label_at(params, i),
{
}

/// Outside the index space every read gives its default (an empty name,
/// label or text, and the zero value) and a write changes nothing.
pub proof fn lemma_out_of_range(params: Seq<ParamView>, index: int, value: u32)
    requires
        index < 0 || index >= params.len(),
    ensures
        name_at(params, index) == Seq::<char>::empty(),
        label_at(params, index) == Seq::<char>::empty(),
        value_at(params, index) == 0,
        set_at(params, index, value) == params,
{
}

} // verus!
