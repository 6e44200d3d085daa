//! Single-assignment values and their allocator.
//!
//! A `Value` is an opaque identifier for one scalar result. It is unique
//! within a compilation unit, immutable once created, and compared by
//! identity. The owning `ValueTable` issues strictly increasing
//! identifiers that are never reused.

use vstd::prelude::*;

verus! {

/// Scalar type of a value in the intermediate representation.
#[derive(Debug, Clone, Copy, PartialEq, Eq, Structural)]
pub enum Type {
    Bool,
    I32,
}

/// Opaque single-assignment identifier for one scalar result.
#[derive(Debug, Clone, Copy, PartialEq, Eq, Structural)]
pub struct Value {
    pub id: usize,
}

/// Allocator for `Value`s: issues identifiers in strictly increasing
/// order, starting at zero, and records every value it has issued.
#[derive(Debug, Clone, PartialEq, Eq)]
pub struct ValueTable {
    values: Vec<Value>,
}

impl View for ValueTable {
    type V = Seq<Value>;

    /// The values issued so far, in order of allocation.
    closed spec fn view(&self) -> Seq<Value> {
        self.values@
    }
}

impl ValueTable {
    /// The table is well formed when the i-th issued value carries
    /// identifier i; this is what makes identifiers unique and increasing.
    pub open spec fn wf(&self) -> bool {
        forall|i: int| 0 <= i < self@.len() ==> (#[trigger] self@[i]).id == i
    }

    /// Number of values issued so far, which is also the identifier the
    /// next allocation will receive.
    pub open spec fn next_id(&self) -> nat {
        self@.len()
    }

    pub fn new() -> (t: ValueTable)
        ensures
            t@ =~= Seq::<Value>::empty(),
            t.wf(),
    {
        ValueTable { values: Vec::new() }
    }

    /// Issue one fresh value carrying the next unused identifier.
    pub fn new_value(&mut self) -> (v: Value)
        requires
            old(self).wf(),
        ensures
            final(self).wf(),
            v.id == old(self).next_id(),
            final(self)@ == old(self)@.push(v),
    {
        let v = Value { id: self.values.len() };
        self.values.push(v);
        proof {
            assert forall|i: int| 0 <= i < self@.len() implies (#[trigger] self@[i]).id == i by {
                if i < self@.len() - 1 {
                    assert(self@[i] == old(self)@[i]);
                }
            }
        }
        v
    }

    /// Issue `n` fresh values in allocation order; equivalent to `n`
    /// calls to `new_value`.
    pub fn new_values(&mut self, n: usize) -> (r: Vec<Value>)
        requires
            old(self).wf(),
        ensures
            final(self).wf(),
            r@.len() == n,
            final(self)@ == old(self)@ + r@,
            forall|i: int|
                0 <= i < n ==> (#[trigger] r@[i]).id == old(self).next_id() + i,
    {
        let mut ret: Vec<Value> = Vec::new();
        let mut k: usize = 0;
        while k < n
            invariant
                self.wf(),
                k <= n,
                ret@.len() == k,
                self@ == old(self)@ + ret@,
                forall|i: int|
                    0 <= i < k ==> (#[trigger] ret@[i]).id == old(self).next_id() + i,
            decreases n - k,
        {
            let v = self.new_value();
            ret.push(v);
            k = k + 1;
        }
        ret
    }
}

/// The identifiers issued by one value table are strictly increasing in
/// allocation order, and in particular never repeat.
pub proof fn lemma_values_strictly_increasing(t: &ValueTable)
    requires
        t.wf(),
    ensures
        forall|i: int, j: int|
            0 <= i < j < t@.len() ==> (#[trigger] t@[i]).id < (#[trigger] t@[j]).id,
        forall|i: int, j: int|
            0 <= i < j < t@.len() ==> #[trigger] t@[i] != #[trigger] t@[j],
{
}

} // verus!
