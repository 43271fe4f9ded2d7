//! Zero-filled buffers.

use vstd::prelude::*;

verus! {

/// A type with an additive identity that a buffer can be filled with.
pub trait Zeroed: Sized {
    /// Whether the value is the additive identity of its type.
    spec fn is_zero(&self) -> bool;

    /// Returns the additive identity.
    fn zero() -> (z: Self)
        ensures
            z.is_zero(),
    ;
}

/// Trusted: `num::zero::<i32>()`, which returns `<i32 as Zero>::zero()`;
/// the impl of `Zero` for `i32` returns the literal `0`.
#[verifier::external_body]
fn zero_i32() -> (z: i32)
    ensures
        z == 0,
{
    num::zero::<i32>()
}

/// Trusted: `num::zero::<u8>()`, which returns `<u8 as Zero>::zero()`;
/// the impl of `Zero` for `u8` returns the literal `0`.
#[verifier::external_body]
fn zero_u8() -> (z: u8)
    ensures
        z == 0,
{
    num::zero::<u8>()
}

impl Zeroed for i32 {
    open spec fn is_zero(&self) -> bool {
        *self == 0
    }

    fn zero() -> (z: i32) {
        zero_i32()
    }
}

impl Zeroed for u8 {
    open spec fn is_zero(&self) -> bool {
        *self == 0
    }

    fn zero() -> (z: u8) {
        zero_u8()
    }
}

/// Builds a vector of `size` zeros.
pub fn zeros<T: Zeroed>(size: usize) -> (filled: Vec<T>)
    ensures
        filled@.len() == size,
        forall|i: int| 0 <= i < size ==> (#[trigger] filled@[i]).is_zero(),
{
    let mut filled: Vec<T> = Vec::with_capacity(size);
    let mut done: usize = 0;
    while done < size
        invariant
            done <= size,
            filled@.len() == done,
            forall|i: int| 0 <= i < done ==> (#[trigger] filled@[i]).is_zero(),
        decreases size - done,
    {
        filled.push(T::zero());
        done = done + 1;
    }
    filled
}

} // verus!
