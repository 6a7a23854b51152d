//! A single parameter: a name, a label and a value cell.
use vstd::prelude::*;

use crate::flat::ParamView;

verus! {

/// One named parameter. Its value is the bit pattern of a single-precision float; the leaf
/// stores whatever it is given, without clamping.
pub struct Leaf {
    name: String,
    label: String,
    value: u32,
}

impl View for Leaf {
    type V = ParamView;

    closed spec fn view(&self) -> ParamView {
        ParamView { name: self.name@, label: self.label@, value: self.value }
    }
}

impl Leaf {
    /// A leaf declared as `ident`, holding `value`. Its name is the
    /// identifier and its label is empty until either is set.
    pub fn new(ident: &str, value: u32) -> (r: Leaf)
        ensures
            r@ == (ParamView { name: ident@, label: Seq::empty(), value }),
    {
        Leaf { name: String::from_str(ident), label: String::new(), value }
    }

    /// The leaf with its displayed name replaced by `name`.
    pub fn with_name(self, name: &str) -> (r: Leaf)
        ensures
            r@ == (ParamView { name: name@, label: self@.label, value: self@.value }),
    {
        Leaf { name: String::from_str(name), label: self.label, value: self.value }
    }

    /// The leaf with its label replaced by `label`.
    pub fn with_label(self, label: &str) -> (r: Leaf)
        ensures
            r@ == (ParamView { name: self@.name, label: label@, value: self@.value }),
    {
        Leaf { name: self.name, label: String::from_str(label), value: self.value }
    }

    pub fn get_value(&self) -> (r: u32)
        ensures
            r == self@.value,
    {
        self.value
    }

    /// Overwrites the value; name and label stay as they were.
    pub fn set_value(&mut self, value: u32)
        ensures
            final(self)@ == old(self)@.with_value(value),
    {
        self.value = value;
    }

    pub fn get_name(&self) -> (r: String)
        ensures
            r@ == self@.name,
    {
        self.name.clone()
    }

    pub fn get_label(&self) -> (r: String)
        ensures
            r@ == self@.label,
    {
        self.label.clone()
    }

    /// The value shown as text by `format`, which receives the value's bits.
    pub fn get_text<F: Fn(u32) -> String>(&self, format: F) -> (r: String)
        requires
            format.requires((self@.value,)),
        ensures
            format.ensures((self@.value,), r),
    {
        format(self.value)
    }
}

} // verus!
