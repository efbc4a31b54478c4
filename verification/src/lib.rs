//! A table-precalculation engine: given a pure function over a finite
//! domain of integer tuples — one inclusive range per parameter — it
//! validates the declared configuration, derives the table's shape and
//! size, materializes a lookup table by exhaustive evaluation, and
//! answers queries in one of three modes: trusting the caller to stay
//! in range, reporting absence out of range, or falling back to the
//! original computation.

pub mod binder;
pub mod config;
pub mod domain;
pub mod funcs;
pub mod laws;
pub mod table;

use vstd::prelude::*;

verus! {

/// Types that provide a compile-time placeholder value used to fill a
/// lookup table before it is populated by exhaustive evaluation. Every
/// slot is overwritten during population, so the placeholder is never
/// observed through a correct accessor.
pub trait PrecalcConst {
    const DEFAULT: Self;
}

impl<T> PrecalcConst for Option<T> {
    const DEFAULT: Self = None;
}

impl PrecalcConst for usize {
    const DEFAULT: Self = 0;
}

impl PrecalcConst for u8 {
    const DEFAULT: Self = 0;
}

impl PrecalcConst for i8 {
    const DEFAULT: Self = 0;
}

impl PrecalcConst for u16 {
    const DEFAULT: Self = 0;
}

impl PrecalcConst for i16 {
    const DEFAULT: Self = 0;
}

impl PrecalcConst for u32 {
    const DEFAULT: Self = 0;
}

impl PrecalcConst for i32 {
    const DEFAULT: Self = 0;
}

impl PrecalcConst for u64 {
    const DEFAULT: Self = 0;
}

impl PrecalcConst for i64 {
    const DEFAULT: Self = 0;
}

impl PrecalcConst for u128 {
    const DEFAULT: Self = 0;
}

impl PrecalcConst for i128 {
    const DEFAULT: Self = 0;
}

/// Two-argument addition over `i32`, the running example a lookup
/// table is built for.
pub fn add(a: i32, b: i32) -> (r: i32)
    requires
        i32::MIN <= a + b <= i32::MAX,
    ensures
        r == a + b,
{
    a + b
}

} // verus!
