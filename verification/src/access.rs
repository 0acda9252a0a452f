//! What a query reads and writes, kept as bit sets over component indices.
use vstd::prelude::*;
use fixedbitset::FixedBitSet;
use crate::bits::{empty_bits, insert_grown, ones};

verus! {

/// The mathematical content of an [`Access`].
#[verifier::ext_equal]
pub struct AccessView {
    pub reads_and_writes: Set<usize>,
    pub writes: Set<usize>,
}

impl AccessView {
    pub open spec fn empty() -> AccessView {
        AccessView { reads_and_writes: Set::empty(), writes: Set::empty() }
    }

    pub open spec fn read(index: usize) -> AccessView {
        AccessView { reads_and_writes: Set::empty().insert(index), writes: Set::empty() }
    }

    pub open spec fn write(index: usize) -> AccessView {
        AccessView {
            reads_and_writes: Set::empty().insert(index),
            writes: Set::empty().insert(index),
        }
    }

    pub open spec fn union(self, other: AccessView) -> AccessView {
        AccessView {
            reads_and_writes: self.reads_and_writes.union(other.reads_and_writes),
            writes: self.writes.union(other.writes),
        }
    }
}

/// The indices that are read or written, and among them those that are written.
pub struct Access {
    pub reads_and_writes: FixedBitSet,
    pub writes: FixedBitSet,
}

impl View for Access {
    type V = AccessView;

    open spec fn view(&self) -> AccessView {
        AccessView { reads_and_writes: ones(self.reads_and_writes), writes: ones(self.writes) }
    }
}

impl Access {
    /// An access that touches nothing.
    pub fn new() -> (access: Access)
        ensures
            access@ == AccessView::empty(),
    {
        Access { reads_and_writes: empty_bits(), writes: empty_bits() }
    }

    /// Adds a read of `index`.
    pub fn add_read(&mut self, index: usize)
        requires
            index < usize::MAX,
        ensures
            final(self)@ == old(self)@.union(AccessView::read(index)),
    {
        insert_grown(&mut self.reads_and_writes, index);
        assert(self@ =~= old(self)@.union(AccessView::read(index)));
    }

    /// Adds a write of `index`, which is a read too.
    pub fn add_write(&mut self, index: usize)
        requires
            index < usize::MAX,
        ensures
            final(self)@ == old(self)@.union(AccessView::write(index)),
    {
        insert_grown(&mut self.reads_and_writes, index);
        insert_grown(&mut self.writes, index);
        assert(self@ =~= old(self)@.union(AccessView::write(index)));
    }

    pub fn has_read(&self, index: usize) -> (b: bool)
        ensures
            b == self@.reads_and_writes.contains(index),
    {
        self.reads_and_writes.contains(index)
    }

    pub fn has_write(&self, index: usize) -> (b: bool)
        ensures
            b == self@.writes.contains(index),
    {
        self.writes.contains(index)
    }

    /// Adds everything that `other` touches.
    pub fn extend(&mut self, other: &Access)
        ensures
            final(self)@ == old(self)@.union(other@),
    {
        self.reads_and_writes.union_with(&other.reads_and_writes);
        self.writes.union_with(&other.writes);
    }
}

/// The mathematical content of a [`FilteredAccess`].
#[verifier::ext_equal]
pub struct FilteredAccessView {
    pub access: AccessView,
    pub with: Set<usize>,
    pub without: Set<usize>,
}

impl FilteredAccessView {
    pub open spec fn empty() -> FilteredAccessView {
        FilteredAccessView { access: AccessView::empty(), with: Set::empty(), without: Set::empty() }
    }

    pub open spec fn union(self, other: FilteredAccessView) -> FilteredAccessView {
        FilteredAccessView {
            access: self.access.union(other.access),
            with: self.with.union(other.with),
            without: self.without.union(other.without),
        }
    }
}

/// An access, with the components that an archetype must have and must not have.
pub struct FilteredAccess {
    pub access: Access,
    pub with: FixedBitSet,
    pub without: FixedBitSet,
}

impl View for FilteredAccess {
    type V = FilteredAccessView;

    open spec fn view(&self) -> FilteredAccessView {
        FilteredAccessView {
            access: self.access@,
            with: ones(self.with),
            without: ones(self.without),
        }
    }
}

impl FilteredAccess {
    /// An access that touches nothing and excludes nothing.
    pub fn new() -> (access: FilteredAccess)
        ensures
            access@ == FilteredAccessView::empty(),
    {
        FilteredAccess { access: Access::new(), with: empty_bits(), without: empty_bits() }
    }

    /// Adds a read of `index`, which must then be present.
    pub fn add_read(&mut self, index: usize)
        requires
            index < usize::MAX,
        ensures
            final(self)@.access == old(self)@.access.union(AccessView::read(index)),
            final(self)@.with == old(self)@.with.insert(index),
            final(self)@.without == old(self)@.without,
    {
        self.access.add_read(index);
        insert_grown(&mut self.with, index);
    }

    /// Adds a write of `index`, which must then be present.
    pub fn add_write(&mut self, index: usize)
        requires
            index < usize::MAX,
        ensures
            final(self)@.access == old(self)@.access.union(AccessView::write(index)),
            final(self)@.with == old(self)@.with.insert(index),
            final(self)@.without == old(self)@.without,
    {
        self.access.add_write(index);
        insert_grown(&mut self.with, index);
    }

    /// Asks for the presence of `index`.
    pub fn add_with(&mut self, index: usize)
        requires
            index < usize::MAX,
        ensures
            final(self)@.access == old(self)@.access,
            final(self)@.with == old(self)@.with.insert(index),
            final(self)@.without == old(self)@.without,
    {
        insert_grown(&mut self.with, index);
    }

    /// Asks for the absence of `index`.
    pub fn add_without(&mut self, index: usize)
        requires
            index < usize::MAX,
        ensures
            final(self)@.access == old(self)@.access,
            final(self)@.with == old(self)@.with,
            final(self)@.without == old(self)@.without.insert(index),
    {
        insert_grown(&mut self.without, index);
    }

    /// Adds everything that `other` touches, and its conditions.
    pub fn extend(&mut self, other: &FilteredAccess)
        ensures
            final(self)@ == old(self)@.union(other@),
    {
        self.access.extend(&other.access);
        self.with.union_with(&other.with);
        self.without.union_with(&other.without);
    }
}

} // verus!
