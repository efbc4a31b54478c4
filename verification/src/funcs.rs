//! Ground-truth functions that lookup tables are built for. Each one
//! implements `PrecalcFn`: its mathematical value, the arguments it is
//! defined on, and the executable evaluation the table caches.

use vstd::prelude::*;

use crate::table::PrecalcFn;

verus! {

/// Two-argument addition.
pub struct AddFn;

impl PrecalcFn for AddFn {
    open spec fn pre(&self, args: Seq<i64>) -> bool {
        &&& args.len() == 2
        &&& i64::MIN <= args[0] + args[1] <= i64::MAX
    }

    open spec fn value(&self, args: Seq<i64>) -> i64 {
        (args[0] + args[1]) as i64
    }

    fn eval(&self, args: &Vec<i64>) -> (r: i64) {
        args[0] + args[1]
    }
}

/// Three-argument addition.
pub struct Add3Fn;

impl PrecalcFn for Add3Fn {
    open spec fn pre(&self, args: Seq<i64>) -> bool {
        &&& args.len() == 3
        &&& i64::MIN <= args[0] + args[1] <= i64::MAX
        &&& i64::MIN <= args[0] + args[1] + args[2] <= i64::MAX
    }

    open spec fn value(&self, args: Seq<i64>) -> i64 {
        (args[0] + args[1] + args[2]) as i64
    }

    fn eval(&self, args: &Vec<i64>) -> (r: i64) {
        args[0] + args[1] + args[2]
    }
}

/// One-argument identity.
pub struct IdentityFn;

impl PrecalcFn for IdentityFn {
    open spec fn pre(&self, args: Seq<i64>) -> bool {
        args.len() == 1
    }

    open spec fn value(&self, args: Seq<i64>) -> i64 {
        args[0]
    }

    fn eval(&self, args: &Vec<i64>) -> (r: i64) {
        args[0]
    }
}

/// Two-argument subtraction.
pub struct SubFn;

impl PrecalcFn for SubFn {
    open spec fn pre(&self, args: Seq<i64>) -> bool {
        &&& args.len() == 2
        &&& i64::MIN <= args[0] - args[1] <= i64::MAX
    }

    open spec fn value(&self, args: Seq<i64>) -> i64 {
        (args[0] - args[1]) as i64
    }

    fn eval(&self, args: &Vec<i64>) -> (r: i64) {
        args[0] - args[1]
    }
}

/// Two-argument multiplication.
pub struct MulFn;

impl PrecalcFn for MulFn {
    open spec fn pre(&self, args: Seq<i64>) -> bool {
        &&& args.len() == 2
        &&& i64::MIN <= args[0] * args[1] <= i64::MAX
    }

    open spec fn value(&self, args: Seq<i64>) -> i64 {
        (args[0] * args[1]) as i64
    }

    fn eval(&self, args: &Vec<i64>) -> (r: i64) {
        args[0] * args[1]
    }
}

/// Squaring.
pub struct SquareFn;

impl PrecalcFn for SquareFn {
    open spec fn pre(&self, args: Seq<i64>) -> bool {
        &&& args.len() == 1
        &&& i64::MIN <= args[0] * args[0] <= i64::MAX
    }

    open spec fn value(&self, args: Seq<i64>) -> i64 {
        (args[0] * args[0]) as i64
    }

    fn eval(&self, args: &Vec<i64>) -> (r: i64) {
        args[0] * args[0]
    }
}

/// What saturating subtraction clamped to the signed eight-bit range
/// yields.
pub open spec fn sat_sub_i8(a: int, b: int) -> int {
    let d: int = a - b;
    if d < -128 {
        -128
    } else if d > 127 {
        127
    } else {
        d
    }
}

/// Saturating subtraction of signed eight-bit values, carried in `i64`.
pub struct SubSatI8Fn;

impl PrecalcFn for SubSatI8Fn {
    open spec fn pre(&self, args: Seq<i64>) -> bool {
        &&& args.len() == 2
        &&& -128 <= args[0] <= 127
        &&& -128 <= args[1] <= 127
    }

    open spec fn value(&self, args: Seq<i64>) -> i64 {
        sat_sub_i8(args[0] as int, args[1] as int) as i64
    }

    fn eval(&self, args: &Vec<i64>) -> (r: i64) {
        let d: i64 = args[0] - args[1];
        if d < -128 {
            -128
        } else if d > 127 {
            127
        } else {
            d
        }
    }
}

/// Keeps an even argument, answers `-1` for an odd one: an encoding of
/// an optional result as a sentinel value.
pub struct EvenOrAbsentFn;

impl PrecalcFn for EvenOrAbsentFn {
    open spec fn pre(&self, args: Seq<i64>) -> bool {
        &&& args.len() == 1
        &&& args[0] >= 0
    }

    open spec fn value(&self, args: Seq<i64>) -> i64 {
        if args[0] % 2 == 0 {
            args[0]
        } else {
            -1i64
        }
    }

    fn eval(&self, args: &Vec<i64>) -> (r: i64) {
        if args[0] % 2 == 0 {
            args[0]
        } else {
            -1
        }
    }
}

} // verus!
