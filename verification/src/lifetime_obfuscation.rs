//! Carrying a value as bare bytes.
//!
//! Bytes know nothing of lifetimes: a value whose memory is copied out into a
//! byte buffer, and back into memory for a value of the same type later, has
//! crossed a place where its lifetime could not be named.

use vstd::layout::size_of;
use vstd::prelude::*;

verus! {

/// A value can be restored from the bytes that were made of it, and its memory
/// is then as it was: [`from_bytes_unchecked`] undoes [`obfuscate_lifetime`].
pub proof fn law_bytes_round_trip<T>(value: &[u8], bytes: Vec<u8>, carried: &[u8])
    requires
        value@.len() == size_of::<T>(),
        call_ensures(obfuscate_lifetime::<T>, (value,), bytes),
        carried@ == bytes@,
    ensures
        forall|memory: &mut [u8]|
            memory@.len() == size_of::<T>() ==> call_requires(
                from_bytes_unchecked::<T>,
                (carried, memory),
            ),
        forall|memory: &mut [u8]| #[trigger]
            call_ensures(from_bytes_unchecked::<T>, (carried, memory), ()) ==> final(memory)@
                == value@,
{
}

/// Copies the memory of a value of type `T` into a buffer of its own.
pub fn obfuscate_lifetime<T>(value: &[u8]) -> (bytes: Vec<u8>)
    requires
        value@.len() == size_of::<T>(),
    ensures
        bytes@ == value@,
{
    let size: usize = core::mem::size_of::<T>();
    let mut bytes: Vec<u8> = vec![0u8; size];
    let mut copied: usize = 0;
    while copied < size
        invariant
            copied <= size,
            size == value@.len(),
            bytes@.len() == size,
            bytes@.take(copied as int) == value@.take(copied as int),
        decreases size - copied,
    {
        bytes[copied] = value[copied];
        assert(bytes@.take(copied + 1) =~= bytes@.take(copied as int).push(value@[copied as int]));
        assert(value@.take(copied + 1) =~= value@.take(copied as int).push(value@[copied as int]));
        copied = copied + 1;
    }
    assert(bytes@.take(size as int) =~= bytes@);
    assert(value@.take(size as int) =~= value@);
    bytes
}

/// Copies `bytes`, which hold the memory of a value of type `T`, into memory
/// for such a value. This undoes [`obfuscate_lifetime`].
pub fn from_bytes_unchecked<T>(bytes: &[u8], value: &mut [u8])
    requires
        bytes@.len() == size_of::<T>(),
        old(value)@.len() == size_of::<T>(),
    ensures
        final(value)@ == bytes@,
{
    let size: usize = core::mem::size_of::<T>();
    let mut copied: usize = 0;
    while copied < size
        invariant
            copied <= size,
            size == bytes@.len(),
            value@.len() == size,
            value@.take(copied as int) == bytes@.take(copied as int),
        decreases size - copied,
    {
        value[copied] = bytes[copied];
        assert(value@.take(copied + 1) =~= value@.take(copied as int).push(bytes@[copied as int]));
        assert(bytes@.take(copied + 1) =~= bytes@.take(copied as int).push(bytes@[copied as int]));
        copied = copied + 1;
    }
    assert(value@.take(size as int) =~= value@);
    assert(bytes@.take(size as int) =~= bytes@);
}

} // verus!
