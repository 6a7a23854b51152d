//! Groups: ordered lists of leaves and nested groups, and the resolution of a
//! flat index to the leaf that owns it.
use vstd::prelude::*;

use crate::flat::{label_at, name_at, nest, prefix_text, set_at, value_at, ParamView};
use crate::leaf::Leaf;

verus! {

/// One entry of a group: a leaf, or a nested group whose names below it are
/// shown behind an optional prefix.
enum Element {
    Leaf(Leaf),
    Group(Group, Option<String>),
}

/// Why a group could not take another entry.
#[derive(Debug, PartialEq, Eq, Structural)]
pub enum BuildError {
    /// The flat index space would outgrow the host's `i32` indices.
    TooManyParameters,
}

/// An ordered list of leaves and nested groups. The k-th entry owns the flat
/// indices that follow those of the entries before it: one for a leaf, as
/// many as a nested group has for a nested group.
pub struct Group {
    elements: Vec<Element>,
    count: i32,
}

spec fn prefix_of(prefix: Option<String>) -> Seq<char> {
    match prefix {
        Some(p) => p@,
        None => Seq::empty(),
    }
}

/// The parameters of a run of entries, in index order.
spec fn flatten(elements: Seq<Element>) -> Seq<ParamView>
    decreases elements,
{
    if elements.len() == 0 {
        Seq::empty()
    } else {
        flatten(elements.drop_last()) + element_params(elements.last())
    }
}

/// The parameters that one entry contributes.
spec fn element_params(e: Element) -> Seq<ParamView>
    decreases e,
{
    match e {
        Element::Leaf(l) => seq![l@],
        Element::Group(g, p) => nest(Seq::empty(), flatten(g.elements@), prefix_of(p)),
    }
}

spec fn element_wf(e: Element) -> bool
    decreases e,
{
    match e {
        Element::Leaf(_) => true,
        Element::Group(g, _) => g.wf(),
    }
}

impl View for Group {
    type V = Seq<ParamView>;

    closed spec fn view(&self) -> Seq<ParamView> {
        flatten(self.elements@)
    }
}

impl Group {
    /// The cached count is the length of the flat index space, and every
    /// nested group is well formed too.
    pub closed spec fn wf(self) -> bool
        decreases self,
    {
        &&& self.count as int == flatten(self.elements@).len()
        &&& forall|k: int| 0 <= k < self.elements@.len() ==> element_wf(#[trigger] self.elements@[k])
    }
}

proof fn lemma_flatten_push(s: Seq<Element>, e: Element)
    ensures
        flatten(s.push(e)) == flatten(s) + element_params(e),
{
    assert(s.push(e).drop_last() =~= s);
}

proof fn lemma_flatten_concat(a: Seq<Element>, b: Seq<Element>)
    ensures
        flatten(a + b) == flatten(a) + flatten(b),
    decreases b.len(),
{
    if b.len() == 0 {
    } else {
        assert((a + b).drop_last() =~= a + b.drop_last());
        lemma_flatten_concat(a, b.drop_last());
        assert(flatten(a) + flatten(b.drop_last()) + element_params(b.last()) =~= flatten(a) + (
        flatten(b.drop_last()) + element_params(b.last())));
    }
}

/// The entry at `k` owns the indices from the count of the entries before it.
proof fn lemma_flatten_split(s: Seq<Element>, k: int)
    requires
        0 <= k < s.len(),
    ensures
        flatten(s) == flatten(s.take(k)) + element_params(s[k]) + flatten(s.skip(k + 1)),
        flatten(s.take(k + 1)) == flatten(s.take(k)) + element_params(s[k]),
{
    assert(s.take(k + 1) =~= s.take(k).push(s[k]));
    lemma_flatten_push(s.take(k), s[k]);
    assert(s =~= s.take(k + 1) + s.skip(k + 1));
    lemma_flatten_concat(s.take(k + 1), s.skip(k + 1));
}

/// Leaves declared directly in a run of entries.
spec fn direct_leaves(s: Seq<Element>) -> nat
    decreases s,
{
    if s.len() == 0 {
        0
    } else {
        direct_leaves(s.drop_last()) + match s.last() {
            Element::Leaf(_) => 1nat,
            Element::Group(..) => 0nat,
        }
    }
}

/// The counts of the groups nested directly in a run of entries, each
/// computed recursively as its own leaves plus the counts nested in it.
spec fn nested_total(s: Seq<Element>) -> nat
    decreases s,
{
    if s.len() == 0 {
        0
    } else {
        nested_total(s.drop_last()) + match s.last() {
            Element::Leaf(_) => 0nat,
            Element::Group(g, _) => direct_leaves(g.elements@) + nested_total(g.elements@),
        }
    }
}

proof fn lemma_flatten_len(s: Seq<Element>)
    ensures
        flatten(s).len() == direct_leaves(s) + nested_total(s),
    decreases s,
{
    if s.len() > 0 {
        let rest = s.drop_last();
        lemma_flatten_len(rest);
        assert(flatten(s) == flatten(rest) + element_params(s.last()));
        if let Element::Group(g, _) = s.last() {
            lemma_flatten_len(g.elements@);
        }
    }
}

impl Group {
    /// The number of leaves declared directly in this group.
    pub closed spec fn leaf_count(self) -> nat {
        direct_leaves(self.elements@)
    }

    /// The sum, over the groups nested directly in this one, of their counts,
    /// each being that group's own leaves plus, recursively, the counts of
    /// the groups nested in it.
    pub closed spec fn nested_count(self) -> nat {
        nested_total(self.elements@)
    }
}

/// A group's parameter count, the length of its flat index space, is the
/// number of its own leaves plus the recursively computed counts of all the
/// groups nested in it, at any depth.
pub proof fn lemma_count_is_recursive_sum(g: Group)
    requires
        g.wf(),
    ensures
        g@.len() == g.leaf_count() + g.nested_count(),
{
    lemma_flatten_len(g.elements@);
}

impl Group {
    /// An empty group.
    pub fn new() -> (r: Group)
        ensures
            r.wf(),
            r@ == Seq::<ParamView>::empty(),
    {
        Group { elements: Vec::new(), count: 0 }
    }

    /// The number of flat indices, which the host addresses as `0..count`.
    pub fn num_parameters(&self) -> (r: i32)
        requires
            self.wf(),
        ensures
            r as int == self@.len(),
    {
        self.count
    }

    /// Appends a leaf, which takes the next flat index.
    pub fn add_leaf(&mut self, leaf: Leaf) -> (r: Result<(), BuildError>)
        requires
            old(self).wf(),
        ensures
            final(self).wf(),
            r is Ok <==> old(self)@.len() < i32::MAX,
            r is Ok ==> final(self)@ == old(self)@.push(leaf@),
            r is Err ==> final(self)@ == old(self)@,
    {
        if self.count == i32::MAX {
            return Err(BuildError::TooManyParameters);
        }
        let ghost s0 = self.elements@;
        self.elements.push(Element::Leaf(leaf));
        self.count = self.count + 1;
        proof {
            lemma_flatten_push(s0, Element::Leaf(leaf));
            assert(forall|k: int|
                0 <= k < s0.len() ==> #[trigger] self.elements@[k] == s0[k]);
        }
        Ok(())
    }

    /// Appends a nested group, whose indices follow those already taken. Its
    /// names are shown behind `prefix`, when one is given.
    pub fn add_group(&mut self, child: Group, prefix: Option<&str>) -> (r: Result<(), BuildError>)
        requires
            old(self).wf(),
            child.wf(),
        ensures
            final(self).wf(),
            r is Ok <==> old(self)@.len() + child@.len() <= i32::MAX,
            r is Ok ==> final(self)@ == nest(old(self)@, child@, prefix_text(prefix)),
            r is Err ==> final(self)@ == old(self)@,
    {
        if self.count > i32::MAX - child.count {
            return Err(BuildError::TooManyParameters);
        }
        let stored: Option<String> = match prefix {
            Some(p) => Some(String::from_str(p)),
            None => None,
        };
        let ghost s0 = self.elements@;
        let ghost e = Element::Group(child, stored);
        self.count = self.count + child.count;
        self.elements.push(Element::Group(child, stored));
        proof {
            lemma_flatten_push(s0, e);
            assert(forall|k: int|
                0 <= k < s0.len() ==> #[trigger] self.elements@[k] == s0[k]);
        }
        Ok(())
    }

    /// Finds the entry whose index range holds `index`, and the first index
    /// of that range. Walks the entries in order, carving out one index per
    /// leaf and the cached count per nested group.
    fn locate(&self, index: i32) -> (r: Option<(usize, i32)>)
        requires
            self.wf(),
        ensures
            r is None <==> !(0 <= index < self@.len()),
            r matches Some((k, off)) ==> {
                &&& k < self.elements@.len()
                &&& off as int == flatten(self.elements@.take(k as int)).len()
                &&& off <= index < off + element_params(self.elements@[k as int]).len()
            },
    {
        if index < 0 {
            return None;
        }
        let mut off: i32 = 0;
        let mut k: usize = 0;
        while k < self.elements.len()
            invariant
                self.wf(),
                0 <= k <= self.elements@.len(),
                off as int == flatten(self.elements@.take(k as int)).len(),
                off <= index,
            decreases self.elements@.len() - k,
        {
            let ghost s = self.elements@;
            proof {
                lemma_flatten_split(s, k as int);
                lemma_flatten_concat(s.take(k + 1), s.skip(k + 1));
                assert(element_wf(s[k as int]));
            }
            let size: i32 = match &self.elements[k] {
                Element::Leaf(_) => 1,
                Element::Group(g, _) => g.count,
            };
            if index - off < size {
                return Some((k, off));
            }
            off = off + size;
            k = k + 1;
        }
        assert(self.elements@.take(k as int) =~= self.elements@);
        None
    }

    /// The leaf that owns `index`, if any. Its label and value are those of
    /// the parameter at `index`; only its name lacks the enclosing prefixes.
    fn leaf_at(&self, index: i32) -> (r: Option<&Leaf>)
        requires
            self.wf(),
        ensures
            r is Some <==> 0 <= index < self@.len(),
            r matches Some(l) ==> l@.label == self@[index as int].label && l@.value
                == self@[index as int].value,
        decreases self,
    {
        match self.locate(index) {
            None => None,
            Some((k, off)) => {
                proof {
                    lemma_flatten_split(self.elements@, k as int);
                }
                match &self.elements[k] {
                    Element::Leaf(l) => Some(l),
                    Element::Group(g, _) => g.leaf_at(index - off),
                }
            },
        }
    }

    /// The name at `index`, with the prefixes of every enclosing group in
    /// front, outermost first; empty when `index` is out of range.
    pub fn get_parameter_name(&self, index: i32) -> (r: String)
        requires
            self.wf(),
        ensures
            r@ == name_at(self@, index as int),
        decreases self,
    {
        match self.locate(index) {
            None => String::new(),
            Some((k, off)) => {
                proof {
                    lemma_flatten_split(self.elements@, k as int);
                }
                match &self.elements[k] {
                    Element::Leaf(l) => l.get_name(),
                    Element::Group(g, prefix) => {
                        let inner = g.get_parameter_name(index - off);
                        match prefix {
                            Some(p) => {
                                let mut named = p.clone();
                                named.append(inner.as_str());
                                named
                            },
                            None => inner,
                        }
                    },
                }
            },
        }
    }

    /// The label at `index`; empty when `index` is out of range.
    pub fn get_parameter_label(&self, index: i32) -> (r: String)
        requires
            self.wf(),
        ensures
            r@ == label_at(self@, index as int),
    {
        match self.leaf_at(index) {
            Some(l) => l.get_label(),
            None => String::new(),
        }
    }

    /// The value bits at `index`; zero, the bits of `0.0`, when `index` is
    /// out of range.
    pub fn get_parameter(&self, index: i32) -> (r: u32)
        requires
            self.wf(),
        ensures
            r == value_at(self@, index as int),
    {
        match self.leaf_at(index) {
            Some(l) => l.get_value(),
            None => 0,
        }
    }

    /// The value at `index` shown as text by `format`, which receives the
    /// value's bits; empty when `index` is out of range.
    pub fn get_parameter_text<F: Fn(u32) -> String>(&self, index: i32, format: F) -> (r: String)
        requires
            self.wf(),
            forall|v: u32| format.requires((v,)),
        ensures
            0 <= index < self@.len() ==> format.ensures((self@[index as int].value,), r),
            !(0 <= index < self@.len()) ==> r@ == Seq::<char>::empty(),
    {
        match self.leaf_at(index) {
            Some(l) => l.get_text(format),
            None => String::new(),
        }
    }
    /// Writes `value` to the leaf at `index`. Names, labels and every other
    /// value stay as they were; an out-of-range `index` changes nothing.
    pub fn set_parameter(&mut self, index: i32, value: u32)
        requires
            old(self).wf(),
        ensures
            final(self).wf(),
            final(self)@ == set_at(old(self)@, index as int, value),
        decreases *old(self),
    {
        match self.locate(index) {
            None => {},
            Some((k, off)) => {
                let ghost s0 = self.elements@;
                let ghost e0 = s0[k as int];
                proof {
                    lemma_flatten_split(s0, k as int);
                }
                match &mut self.elements[k] {
                    Element::Leaf(l) => l.set_value(value),
                    Element::Group(g, _) => g.set_parameter(index - off, value),
                }
                let ghost s1 = self.elements@;
                let ghost e1 = s1[k as int];
                proof {
                    assert(s1.take(k as int) =~= s0.take(k as int));
                    assert(s1.skip(k + 1) =~= s0.skip(k + 1));
                    lemma_flatten_split(s1, k as int);
                    let ep0 = element_params(e0);
                    let j = index - off;
                    assert(element_params(e1) =~= ep0.update(j, ep0[j].with_value(value)));
                    assert(flatten(s1) =~= set_at(flatten(s0), index as int, value));
                    assert(forall|i: int|
                        0 <= i < s1.len() && i != k ==> #[trigger] s1[i] == s0[i]);
                }
            },
        }
    }
}

} // verus!
