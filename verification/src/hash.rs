use core::marker::PhantomData;
use vstd::prelude::*;
use vstd::string::StringSliceAdditionalSpecFns;

verus! {

/// Defines a hash function which should have good anti-collision
/// properties.
pub trait Hash<T: ?Sized> {
    /// The hash of a value.
    spec fn spec_hash(val: &T) -> usize;

    /// Returns the hash of `val`.
    fn hash(val: &T) -> (h: usize)
        ensures
            h == Self::spec_hash(val),
    ;
}

/// The default hash struct implemented for basic types.
pub struct DefaultHash<T: ?Sized> {
    _ignore_type: PhantomData<T>,
}

impl Hash<u8> for DefaultHash<u8> {
    open spec fn spec_hash(val: &u8) -> usize {
        *val as usize
    }

    fn hash(val: &u8) -> (h: usize) {
        *val as usize
    }
}

impl Hash<i8> for DefaultHash<i8> {
    open spec fn spec_hash(val: &i8) -> usize {
        *val as usize
    }

    fn hash(val: &i8) -> (h: usize) {
        #[verifier::truncate]
        (*val as usize)
    }
}

impl Hash<u16> for DefaultHash<u16> {
    open spec fn spec_hash(val: &u16) -> usize {
        *val as usize
    }

    fn hash(val: &u16) -> (h: usize) {
        *val as usize
    }
}

impl Hash<i16> for DefaultHash<i16> {
    open spec fn spec_hash(val: &i16) -> usize {
        *val as usize
    }

    fn hash(val: &i16) -> (h: usize) {
        #[verifier::truncate]
        (*val as usize)
    }
}

impl Hash<u32> for DefaultHash<u32> {
    open spec fn spec_hash(val: &u32) -> usize {
        *val as usize
    }

    fn hash(val: &u32) -> (h: usize) {
        *val as usize
    }
}

impl Hash<i32> for DefaultHash<i32> {
    open spec fn spec_hash(val: &i32) -> usize {
        *val as usize
    }

    fn hash(val: &i32) -> (h: usize) {
        #[verifier::truncate]
        (*val as usize)
    }
}

impl Hash<u64> for DefaultHash<u64> {
    open spec fn spec_hash(val: &u64) -> usize {
        *val as usize
    }

    fn hash(val: &u64) -> (h: usize) {
        #[verifier::truncate]
        (*val as usize)
    }
}

impl Hash<i64> for DefaultHash<i64> {
    open spec fn spec_hash(val: &i64) -> usize {
        *val as usize
    }

    fn hash(val: &i64) -> (h: usize) {
        #[verifier::truncate]
        (*val as usize)
    }
}

impl Hash<usize> for DefaultHash<usize> {
    open spec fn spec_hash(val: &usize) -> usize {
        *val
    }

    fn hash(val: &usize) -> (h: usize) {
        *val
    }
}

impl Hash<isize> for DefaultHash<isize> {
    open spec fn spec_hash(val: &isize) -> usize {
        *val as usize
    }

    fn hash(val: &isize) -> (h: usize) {
        #[verifier::truncate]
        (*val as usize)
    }
}

impl Hash<bool> for DefaultHash<bool> {
    open spec fn spec_hash(val: &bool) -> usize {
        if *val {
            1
        } else {
            0
        }
    }

    fn hash(val: &bool) -> (h: usize) {
        if *val {
            1
        } else {
            0
        }
    }
}

/// The value that the FNV1 hash starts from.
pub const FNV1_OFFSET_BASIS: u32 = 2166136261;

/// The value that the FNV1 hash is multiplied by before each byte.
pub const FNV1_PRIME: u32 = 16777619;

/// The FNV1 hash of `bytes`: from the offset basis on, the hash so far is multiplied by the
/// prime, the product cut to 32 bits, and the next byte added bit by bit without carry.
pub open spec fn fnv1_of(bytes: Seq<u8>) -> u32
    decreases bytes.len(),
{
    if bytes.len() == 0 {
        FNV1_OFFSET_BASIS
    } else {
        fnv1_of(bytes.drop_last()).wrapping_mul(FNV1_PRIME) ^ (bytes.last() as u32)
    }
}

/// The FNV1 hash function.
pub fn fnv1(str: &str) -> (h: usize)
    ensures
        h == fnv1_of(str.spec_bytes()) as usize,
{
    let bytes = str.as_bytes();
    let mut res: u32 = FNV1_OFFSET_BASIS;
    let mut i: usize = 0;
    while i < bytes.len()
        invariant
            i <= bytes@.len(),
            bytes@ == str.spec_bytes(),
            res == fnv1_of(bytes@.take(i as int)),
        decreases bytes@.len() - i,
    {
        let c = bytes[i];
        proof {
            assert(bytes@.take(i + 1).drop_last() =~= bytes@.take(i as int));
        }
        res = (res.wrapping_mul(FNV1_PRIME)) ^ (c as u32);
        i = i + 1;
    }
    proof {
        assert(bytes@.take(i as int) =~= bytes@);
    }
    res as usize
}

impl Hash<str> for DefaultHash<str> {
    open spec fn spec_hash(val: &str) -> usize {
        fnv1_of(val.spec_bytes()) as usize
    }

    fn hash(val: &str) -> (h: usize) {
        fnv1(val)
    }
}

} // verus!
