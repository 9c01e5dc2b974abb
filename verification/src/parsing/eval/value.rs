//! The values that parsing produces.

use vstd::prelude::*;

use crate::parsing::language::ast::Symbol;
use crate::parsing::language::Int;
use crate::window::{Window, WindowView};

verus! {

/// The mathematical contents of a parsed value.
pub enum SValue {
    /// An integer.
    Integer(int),
    /// A sequence of bytes.
    Bytes(Seq<u8>),
    /// A truth value.
    Boolean(bool),
    /// Named values in order.
    Struct(Seq<(Seq<char>, SValue)>),
    /// Values in order.
    Array(Seq<SValue>),
}

/// The windows of the input that a value was read from.
pub struct Provenance {
    /// The windows, in the order in which they were read.
    windows: Vec<Window>,
}

impl Provenance {
    /// The windows, in the order in which they were read.
    pub closed spec fn spec_windows(&self) -> Seq<WindowView> {
        self.windows@.map_values(|w: Window| w@)
    }

    /// A value that was read from nowhere.
    pub fn empty() -> (r: Provenance)
        ensures
            r.spec_windows() == Seq::<WindowView>::empty(),
    {
        let r = Provenance { windows: Vec::new() };
        proof {
            assert(r.spec_windows() =~= Seq::<WindowView>::empty());
        }
        r
    }

    /// A value that was read from the given window.
    pub fn from_window(window: Window) -> (r: Provenance)
        ensures
            r.spec_windows() == seq![window@],
    {
        let mut windows: Vec<Window> = Vec::new();
        windows.push(window);
        let r = Provenance { windows };
        proof {
            assert(r.spec_windows() =~= seq![window@]);
        }
        r
    }

    /// Adds the windows of another provenance.
    pub fn add(&mut self, other: &Provenance)
        ensures
            final(self).spec_windows() == old(self).spec_windows() + other.spec_windows(),
    {
        let ghost start = self.windows@;
        let mut i: usize = 0;
        while i < other.windows.len()
            invariant
                i <= other.windows@.len(),
                self.windows@ == start + other.windows@.subrange(0, i as int),
            decreases other.windows@.len() - i,
        {
            self.windows.push(other.windows[i]);
            i = i + 1;
            proof {
                assert(self.windows@ =~= start + other.windows@.subrange(0, i as int));
            }
        }
        proof {
            assert(other.windows@.subrange(0, i as int) =~= other.windows@);
            assert(self.spec_windows() =~= start.map_values(|w: Window| w@)
                + other.spec_windows());
        }
    }

    /// The windows, in the order in which they were read.
    pub fn windows(&self) -> (r: &Vec<Window>)
        ensures
            r@.map_values(|w: Window| w@) == self.spec_windows(),
    {
        &self.windows
    }

    /// A copy of the provenance.
    pub fn copy(&self) -> (r: Provenance)
        ensures
            r.spec_windows() == self.spec_windows(),
    {
        let mut r = Provenance::empty();
        r.add(self);
        proof {
            assert(r.spec_windows() =~= self.spec_windows());
        }
        r
    }
}

/// The kind of a parsed value.
pub enum ValueKind {
    /// An integer.
    Integer(Int),
    /// A sequence of bytes.
    Bytes(Vec<u8>),
    /// A truth value.
    Boolean(bool),
    /// Named values in order.
    Struct(Vec<(Symbol, Value)>),
    /// Values in order.
    Array(Vec<Value>),
}

/// A parsed value with the windows it was read from.
pub struct Value {
    /// The kind of the value.
    pub kind: ValueKind,
    /// The windows that the value was read from.
    pub provenance: Provenance,
}

/// The mathematical contents of named values.
pub open spec fn fields_view(fields: Seq<(Symbol, Value)>) -> Seq<(Seq<char>, SValue)>
    decreases fields,
{
    if fields.len() == 0 {
        Seq::empty()
    } else {
        fields_view(fields.drop_last()).push((fields.last().0@, value_view(fields.last().1)))
    }
}

/// The mathematical contents of values.
pub open spec fn values_view(values: Seq<Value>) -> Seq<SValue>
    decreases values,
{
    if values.len() == 0 {
        Seq::empty()
    } else {
        values_view(values.drop_last()).push(value_view(values.last()))
    }
}

/// The mathematical contents of a value.
pub open spec fn value_view(value: Value) -> SValue
    decreases value,
{
    match value.kind {
        ValueKind::Integer(i) => SValue::Integer(i@),
        ValueKind::Bytes(b) => SValue::Bytes(b@),
        ValueKind::Boolean(b) => SValue::Boolean(b),
        ValueKind::Struct(fields) => SValue::Struct(fields_view(fields@)),
        ValueKind::Array(values) => SValue::Array(values_view(values@)),
    }
}

/// The windows of named values, one value after another.
pub open spec fn fields_windows(fields: Seq<(Symbol, Value)>) -> Seq<WindowView>
    decreases fields.len(),
{
    if fields.len() == 0 {
        Seq::empty()
    } else {
        fields_windows(fields.drop_last()) + fields.last().1.provenance.spec_windows()
    }
}

/// The windows of values, one after another.
pub open spec fn values_windows(values: Seq<Value>) -> Seq<WindowView>
    decreases values.len(),
{
    if values.len() == 0 {
        Seq::empty()
    } else {
        values_windows(values.drop_last()) + values.last().provenance.spec_windows()
    }
}

} // verus!
