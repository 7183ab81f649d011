//! What positions are.
use crate::pos::{BytePos, Pos};
use core::cmp::Ordering;
use vstd::prelude::*;

verus! {

/// A byte position is the index that it was made of.
pub proof fn law_byte_pos(index: usize, pos: BytePos)
    ensures
        forall|made: BytePos| #[trigger]
            call_ensures(<BytePos as From<usize>>::from, (index,), made) ==> made@ == index,
        forall|read: usize| #[trigger]
            call_ensures(<usize as From<BytePos>>::from, (pos,), read) ==> read == pos@,
{
}

/// A typed position is the byte position that it was made of.
pub proof fn law_typed_pos<T>(value: BytePos, pos: Pos<T>)
    ensures
        forall|made: Pos<T>| #[trigger]
            call_ensures(<Pos<T> as From<BytePos>>::from, (value,), made) ==> made@ == value@,
        forall|read: BytePos| #[trigger]
            call_ensures(<BytePos as From<Pos<T>>>::from, (pos,), read) ==> read@ == pos@,
        forall|cloned: Pos<T>| #[trigger]
            call_ensures(<Pos<T> as Clone>::clone, (&pos,), cloned) ==> cloned == pos,
{
}

/// Positions are ordered as their indices are.
pub proof fn law_order<T>(a: Pos<T>, b: Pos<T>)
    ensures
        forall|order: Ordering| #[trigger]
            call_ensures(Pos::<T>::cmp, (&a, &b), order) ==> match order {
                Ordering::Less => a@ < b@,
                Ordering::Equal => a@ == b@,
                Ordering::Greater => a@ > b@,
            },
        forall|order: Option<Ordering>| #[trigger]
            call_ensures(Pos::<T>::partial_cmp, (&a, &b), order) ==> match order {
                Some(Ordering::Less) => a@ < b@,
                Some(Ordering::Equal) => a@ == b@,
                Some(Ordering::Greater) => a@ > b@,
                None => false,
            },
        forall|equal: bool| #[trigger]
            call_ensures(Pos::<T>::eq, (&a, &b), equal) ==> (equal <==> a@ == b@),
{
}

} // verus!
