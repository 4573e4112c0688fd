//! Numbers that cannot go below zero.

use vstd::prelude::*;

verus! {

/// `a - b`, or zero where that is negative.
pub open spec fn less(a: nat, b: nat) -> nat {
    if a >= b {
        (a - b) as nat
    } else {
        0
    }
}

/// The smaller of two numbers.
pub open spec fn least(a: nat, b: nat) -> nat {
    if a <= b {
        a
    } else {
        b
    }
}

/// The larger of two numbers.
pub open spec fn most(a: nat, b: nat) -> nat {
    if a >= b {
        a
    } else {
        b
    }
}

/// The smaller of two numbers.
pub fn smaller(a: usize, b: usize) -> (r: usize)
    ensures
        r == least(a as nat, b as nat),
{
    if a <= b {
        a
    } else {
        b
    }
}

/// `a - b`, or zero where that is negative.
pub fn minus(a: usize, b: usize) -> (r: usize)
    ensures
        r == less(a as nat, b as nat),
{
    if a >= b {
        a - b
    } else {
        0
    }
}

} // verus!
