//! Multiplicative identities: `1` for each integer type, the identity matrix for square
//! matrices.

use vstd::prelude::*;

verus! {

/// A type with a multiplicative identity: a value `e` with `x * e == x`.
pub trait Identity: Sized {
    /// Whether this type has an identity at all (a matrix shape may rule one out).
    spec fn has_identity() -> bool;

    /// Whether this value is the identity.
    spec fn is_identity(&self) -> bool;

    fn identity() -> (r: Self)
        requires
            Self::has_identity(),
        ensures
            r.is_identity(),
    ;
}

impl Identity for i8 {
    open spec fn has_identity() -> bool {
        true
    }

    open spec fn is_identity(&self) -> bool {
        *self == 1
    }

    fn identity() -> (r: Self) {
        1
    }
}

impl Identity for i16 {
    open spec fn has_identity() -> bool {
        true
    }

    open spec fn is_identity(&self) -> bool {
        *self == 1
    }

    fn identity() -> (r: Self) {
        1
    }
}

impl Identity for i32 {
    open spec fn has_identity() -> bool {
        true
    }

    open spec fn is_identity(&self) -> bool {
        *self == 1
    }

    fn identity() -> (r: Self) {
        1
    }
}

impl Identity for i64 {
    open spec fn has_identity() -> bool {
        true
    }

    open spec fn is_identity(&self) -> bool {
        *self == 1
    }

    fn identity() -> (r: Self) {
        1
    }
}

impl Identity for i128 {
    open spec fn has_identity() -> bool {
        true
    }

    open spec fn is_identity(&self) -> bool {
        *self == 1
    }

    fn identity() -> (r: Self) {
        1
    }
}

impl Identity for isize {
    open spec fn has_identity() -> bool {
        true
    }

    open spec fn is_identity(&self) -> bool {
        *self == 1
    }

    fn identity() -> (r: Self) {
        1
    }
}

impl Identity for u8 {
    open spec fn has_identity() -> bool {
        true
    }

    open spec fn is_identity(&self) -> bool {
        *self == 1
    }

    fn identity() -> (r: Self) {
        1
    }
}

impl Identity for u16 {
    open spec fn has_identity() -> bool {
        true
    }

    open spec fn is_identity(&self) -> bool {
        *self == 1
    }

    fn identity() -> (r: Self) {
        1
    }
}

impl Identity for u32 {
    open spec fn has_identity() -> bool {
        true
    }

    open spec fn is_identity(&self) -> bool {
        *self == 1
    }

    fn identity() -> (r: Self) {
        1
    }
}

impl Identity for u64 {
    open spec fn has_identity() -> bool {
        true
    }

    open spec fn is_identity(&self) -> bool {
        *self == 1
    }

    fn identity() -> (r: Self) {
        1
    }
}

impl Identity for u128 {
    open spec fn has_identity() -> bool {
        true
    }

    open spec fn is_identity(&self) -> bool {
        *self == 1
    }

    fn identity() -> (r: Self) {
        1
    }
}

impl Identity for usize {
    open spec fn has_identity() -> bool {
        true
    }

    open spec fn is_identity(&self) -> bool {
        *self == 1
    }

    fn identity() -> (r: Self) {
        1
    }
}

} // verus!
