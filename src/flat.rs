//! The host's view of a parameter tree: one flat sequence of parameters,
//! and what each operation gives at a flat index, in range or not.
use vstd::prelude::*;

verus! {

/// What the host sees of one parameter: its displayed name (with every
/// enclosing prefix), its label and the bits of its current value.
pub struct ParamView {
    pub name: Seq<char>,
    pub label: Seq<char>,
    pub value: u32,
}

impl ParamView {
    /// The same parameter, shown with `prefix` in front of its name.
    pub open spec fn prefixed(self, prefix: Seq<char>) -> ParamView {
        ParamView { name: prefix + self.name, label: self.label, value: self.value }
    }

    /// The same parameter, holding `value`.
    pub open spec fn with_value(self, value: u32) -> ParamView {
        ParamView { name: self.name, label: self.label, value }
    }
}

/// The name shown at `index`; empty outside the index space.
pub open spec fn name_at(params: Seq<ParamView>, index: int) -> Seq<char> {
    if 0 <= index < params.len() {
        params[index].name
    } else {
        Seq::empty()
    }
}

/// The label shown at `index`; empty outside the index space.
pub open spec fn label_at(params: Seq<ParamView>, index: int) -> Seq<char> {
    if 0 <= index < params.len() {
        params[index].label
    } else {
        Seq::empty()
    }
}

/// The value bits at `index`; outside the index space, the bits of `0.0`,
/// which are all zero.
pub open spec fn value_at(params: Seq<ParamView>, index: int) -> u32 {
    if 0 <= index < params.len() {
        params[index].value
    } else {
        0
    }
}

/// The parameters after `value` is written at `index`. A write outside the
/// index space changes nothing.
pub open spec fn set_at(params: Seq<ParamView>, index: int, value: u32) -> Seq<ParamView> {
    if 0 <= index < params.len() {
        params.update(index, params[index].with_value(value))
    } else {
        params
    }
}

/// The text of `prefix`, empty when there is none.
pub open spec fn prefix_text(prefix: Option<&str>) -> Seq<char> {
    match prefix {
        Some(p) => p@,
        None => Seq::empty(),
    }
}

/// The parameters of a group after a nested group with parameters `child`
/// is appended under `prefix`.
pub open spec fn nest(params: Seq<ParamView>, child: Seq<ParamView>, prefix: Seq<char>) -> Seq<
    ParamView,
> {
    params + child.map_values(|q: ParamView| q.prefixed(prefix))
}

} // verus!
