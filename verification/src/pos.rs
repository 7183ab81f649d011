//! Positions within the encoded byte buffer.
use core::cmp::Ordering;
use core::marker::PhantomData;
use vstd::prelude::*;

verus! {

/// A byte position within the encoded byte buffer.
#[derive(Debug, Copy, Clone, PartialEq, Eq, PartialOrd, Ord, Structural)]
pub struct BytePos(usize);

impl View for BytePos {
    type V = nat;

    closed spec fn view(&self) -> nat {
        self.0 as nat
    }
}

impl BytePos {
    /// A byte position is determined by its index, which fits into a machine word.
    pub proof fn law_view_is_injective(a: BytePos, b: BytePos)
        ensures
            a@ == b@ <==> a == b,
            a@ <= usize::MAX,
    {
    }

    /// Creates the byte position at `index`.
    pub(crate) fn new(index: usize) -> (pos: Self)
        ensures
            pos@ == index,
    {
        Self(index)
    }
}

impl From<usize> for BytePos {
    fn from(index: usize) -> (pos: Self)
        ensures
            pos@ == index,
    {
        Self::new(index)
    }
}

impl vstd::std_specs::convert::FromSpecImpl<usize> for BytePos {
    open spec fn obeys_from_spec() -> bool {
        true
    }

    closed spec fn from_spec(index: usize) -> Self {
        BytePos(index)
    }
}

impl From<BytePos> for usize {
    fn from(pos: BytePos) -> (index: Self)
        ensures
            index == pos@,
    {
        pos.0
    }
}

impl vstd::std_specs::convert::FromSpecImpl<BytePos> for usize {
    open spec fn obeys_from_spec() -> bool {
        true
    }

    closed spec fn from_spec(pos: BytePos) -> Self {
        pos.0
    }
}

/// A position within the encoded byte buffer and its known encoded type.
#[derive(Debug)]
pub struct Pos<T> {
    /// The underlying byte position.
    value: BytePos,
    /// The type marker denoting what value type has been encoded.
    marker: PhantomData<T>,
}

impl<T> View for Pos<T> {
    type V = nat;

    closed spec fn view(&self) -> nat {
        self.value@
    }
}

impl<T> Pos<T> {
    /// A typed position is determined by its index, which fits into a machine word.
    pub proof fn law_view_is_injective(a: Pos<T>, b: Pos<T>)
        ensures
            a@ == b@ <==> a == b,
            a@ <= usize::MAX,
    {
        assert(a.marker == b.marker);
    }

    /// Compares the two positions by their byte index.
    pub fn cmp(&self, other: &Self) -> (order: Ordering)
        ensures
            order == (if self@ < other@ {
                Ordering::Less
            } else if self@ == other@ {
                Ordering::Equal
            } else {
                Ordering::Greater
            }),
    {
        if self.value.0 < other.value.0 {
            Ordering::Less
        } else if self.value.0 == other.value.0 {
            Ordering::Equal
        } else {
            Ordering::Greater
        }
    }
}

impl<T> From<BytePos> for Pos<T> {
    fn from(value: BytePos) -> (pos: Self)
        ensures
            pos@ == value@,
    {
        Self { value, marker: PhantomData }
    }
}

impl<T> vstd::std_specs::convert::FromSpecImpl<BytePos> for Pos<T> {
    open spec fn obeys_from_spec() -> bool {
        true
    }

    closed spec fn from_spec(value: BytePos) -> Self {
        Pos { value, marker: PhantomData }
    }
}

impl<T> From<Pos<T>> for BytePos {
    fn from(pos: Pos<T>) -> (value: Self)
        ensures
            value@ == pos@,
    {
        pos.value
    }
}

impl<T> vstd::std_specs::convert::FromSpecImpl<Pos<T>> for BytePos {
    open spec fn obeys_from_spec() -> bool {
        true
    }

    closed spec fn from_spec(pos: Pos<T>) -> Self {
        pos.value
    }
}

impl<T> Copy for Pos<T> {

}

impl<T> Clone for Pos<T> {
    fn clone(&self) -> (pos: Self)
        ensures
            pos == *self,
    {
        *self
    }
}

impl<T> PartialEq for Pos<T> {
    fn eq(&self, other: &Self) -> (equal: bool)
        ensures
            equal == (self@ == other@),
    {
        self.value == other.value
    }
}

impl<T> vstd::std_specs::cmp::PartialEqSpecImpl for Pos<T> {
    open spec fn obeys_eq_spec() -> bool {
        true
    }

    open spec fn eq_spec(&self, other: &Self) -> bool {
        self@ == other@
    }
}

impl<T> Eq for Pos<T> {

}

impl<T> PartialOrd for Pos<T> {
    fn partial_cmp(&self, other: &Self) -> (order: Option<Ordering>) {
        Some(self.cmp(other))
    }
}

impl<T> vstd::std_specs::cmp::PartialOrdSpecImpl for Pos<T> {
    open spec fn obeys_partial_cmp_spec() -> bool {
        true
    }

    open spec fn partial_cmp_spec(&self, other: &Self) -> Option<Ordering> {
        if self@ < other@ {
            Some(Ordering::Less)
        } else if self@ == other@ {
            Some(Ordering::Equal)
        } else {
            Some(Ordering::Greater)
        }
    }
}

} // verus!
