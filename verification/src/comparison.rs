//! A total order on IEEE-754 double precision values.
//!
//! A value is handled by its bit pattern, as `f64::to_bits` gives it, so that
//! every statement about the order is a statement about integers.

use std::cmp::Ordering;
use vstd::prelude::*;

verus! {

/// The bits of a pattern that hold exponent and fraction.
pub const MAGNITUDE_MASK: u64 = 0x7fff_ffff_ffff_ffff;

/// The pattern of positive infinity: every larger magnitude is a NaN.
pub const INFINITY_BITS: u64 = 0x7ff0_0000_0000_0000;

/// Exponent and fraction of a pattern, without its sign.
pub open spec fn magnitude(bits: u64) -> u64 {
    bits & MAGNITUDE_MASK
}

/// Whether the pattern stands for a NaN.
pub open spec fn is_nan(bits: u64) -> bool {
    magnitude(bits) > INFINITY_BITS
}

/// Whether the sign bit of the pattern is set.
pub open spec fn is_negative(bits: u64) -> bool {
    bits != magnitude(bits)
}

/// The place of a pattern that is no NaN on the number line: patterns of
/// one sign are ordered as their magnitudes are, and both zeros share a place.
pub open spec fn float_key(bits: u64) -> int {
    if is_negative(bits) {
        0 - magnitude(bits)
    } else {
        0 + magnitude(bits)
    }
}

/// The order on patterns: two NaNs are equal, a NaN is greater than any
/// other value, and all other values are ordered by their place on the number line.
pub open spec fn float_order(a: u64, b: u64) -> Ordering {
    if is_nan(a) && is_nan(b) {
        Ordering::Equal
    } else if is_nan(a) {
        Ordering::Greater
    } else if is_nan(b) {
        Ordering::Less
    } else if float_key(a) < float_key(b) {
        Ordering::Less
    } else if float_key(a) > float_key(b) {
        Ordering::Greater
    } else {
        Ordering::Equal
    }
}

/// Whether `a` is strictly below `b` as `<` on doubles has it: false as
/// soon as one of them is a NaN.
pub open spec fn float_less(a: u64, b: u64) -> bool {
    !is_nan(a) && !is_nan(b) && float_key(a) < float_key(b)
}

/// How one value stands to another.
#[derive(Clone, Copy, Debug, PartialEq, Eq, Structural)]
pub enum Order {
    /// It is less.
    Less,
    /// The two are equal.
    Equal,
    /// It is greater.
    Greater,
}

/// The order that an ordering stands for.
pub open spec fn order_for(ordering: Ordering) -> Order {
    match ordering {
        Ordering::Less => Order::Less,
        Ordering::Equal => Order::Equal,
        Ordering::Greater => Order::Greater,
    }
}

/// The ordering that an order stands for.
pub open spec fn ordering_for(order: Order) -> Ordering {
    match order {
        Order::Less => Ordering::Less,
        Order::Equal => Ordering::Equal,
        Order::Greater => Ordering::Greater,
    }
}

/// How one double stands to another, both given by their bit patterns.
pub open spec fn fitness_order(a: u64, b: u64) -> Order {
    order_for(float_order(a, b))
}

/// Turns an ordering into an order.
pub fn to_order(ordering: Ordering) -> (r: Order)
    ensures
        r == order_for(ordering),
        ordering_for(r) == ordering,
{
    match ordering {
        Ordering::Less => Order::Less,
        Ordering::Equal => Order::Equal,
        Ordering::Greater => Order::Greater,
    }
}

/// Turns an order into an ordering.
pub fn to_ordering(order: Order) -> (r: Ordering)
    ensures
        r == ordering_for(order),
        order_for(r) == order,
{
    match order {
        Order::Less => Ordering::Less,
        Order::Equal => Ordering::Equal,
        Order::Greater => Ordering::Greater,
    }
}

/// Orders two doubles given by their bit patterns.
pub fn order_floats(a: u64, b: u64) -> (r: Order)
    ensures
        r == fitness_order(a, b),
{
    to_order(compare_floats(a, b))
}

/// The order of doubles is transitive, and swapping the two values reverses it.
pub proof fn lemma_fitness_order(a: u64, b: u64, c: u64)
    ensures
        fitness_order(a, b) != Order::Greater && fitness_order(b, c) != Order::Greater
            ==> fitness_order(a, c) != Order::Greater,
        fitness_order(a, b) == Order::Greater <==> fitness_order(b, a) == Order::Less,
        fitness_order(a, b) == Order::Equal <==> fitness_order(b, a) == Order::Equal,
        fitness_order(a, a) == Order::Equal,
        fitness_order(a, b) == Order::Greater && fitness_order(b, c) != Order::Less
            ==> fitness_order(a, c) == Order::Greater,
        fitness_order(a, b) != Order::Less && fitness_order(b, c) == Order::Greater
            ==> fitness_order(a, c) == Order::Greater,
        fitness_order(a, b) == Order::Equal && fitness_order(b, c) == Order::Equal
            ==> fitness_order(a, c) == Order::Equal,
{
}

/// Compares two doubles given by their bit patterns.
pub fn compare_floats(a: u64, b: u64) -> (r: Ordering)
    ensures
        r == float_order(a, b),
{
    let a_mag: u64 = a & MAGNITUDE_MASK;
    let b_mag: u64 = b & MAGNITUDE_MASK;
    let a_nan: bool = a_mag > INFINITY_BITS;
    let b_nan: bool = b_mag > INFINITY_BITS;
    if a_nan && b_nan {
        Ordering::Equal
    } else if a_nan {
        Ordering::Greater
    } else if b_nan {
        Ordering::Less
    } else {
        let a_neg: bool = a != a_mag;
        let b_neg: bool = b != b_mag;
        if a_neg && b_neg {
            order_of(b_mag, a_mag)
        } else if a_neg {
            if a_mag == 0 && b_mag == 0 {
                Ordering::Equal
            } else {
                Ordering::Less
            }
        } else if b_neg {
            if a_mag == 0 && b_mag == 0 {
                Ordering::Equal
            } else {
                Ordering::Greater
            }
        } else {
            order_of(a_mag, b_mag)
        }
    }
}

/// Tells whether `a` is strictly below `b`, as `<` on doubles does.
pub fn is_less(a: u64, b: u64) -> (r: bool)
    ensures
        r == float_less(a, b),
{
    let a_mag: u64 = a & MAGNITUDE_MASK;
    let b_mag: u64 = b & MAGNITUDE_MASK;
    if a_mag > INFINITY_BITS || b_mag > INFINITY_BITS {
        false
    } else {
        match compare_floats(a, b) {
            Ordering::Less => true,
            _ => false,
        }
    }
}

/// The order of two unsigned numbers.
pub open spec fn order_of_spec(x: u64, y: u64) -> Ordering {
    if x < y {
        Ordering::Less
    } else if x > y {
        Ordering::Greater
    } else {
        Ordering::Equal
    }
}

fn order_of(x: u64, y: u64) -> (r: Ordering)
    ensures
        r == order_of_spec(x, y),
{
    if x < y {
        Ordering::Less
    } else if x > y {
        Ordering::Greater
    } else {
        Ordering::Equal
    }
}

/// Every value is equal to itself, a NaN too.
pub proof fn lemma_order_reflexive(a: u64)
    ensures
        float_order(a, a) == Ordering::Equal,
{
}

/// Swapping the arguments turns `Less` into `Greater` and back, and keeps `Equal`.
pub proof fn lemma_order_antisymmetric(a: u64, b: u64)
    ensures
        float_order(a, b) == Ordering::Less <==> float_order(b, a) == Ordering::Greater,
        float_order(a, b) == Ordering::Equal <==> float_order(b, a) == Ordering::Equal,
{
}

/// The order is transitive, and so is the equality that it induces.
pub proof fn lemma_order_transitive(a: u64, b: u64, c: u64)
    ensures
        float_order(a, b) != Ordering::Greater && float_order(b, c) != Ordering::Greater
            ==> float_order(a, c) != Ordering::Greater,
        float_order(a, b) == Ordering::Less && float_order(b, c) != Ordering::Greater
            ==> float_order(a, c) == Ordering::Less,
        float_order(a, b) != Ordering::Greater && float_order(b, c) == Ordering::Less
            ==> float_order(a, c) == Ordering::Less,
        float_order(a, b) == Ordering::Equal && float_order(b, c) == Ordering::Equal
            ==> float_order(a, c) == Ordering::Equal,
{
}

/// A NaN equals every NaN and is greater than everything else.
pub proof fn lemma_nan_is_greatest(a: u64, b: u64)
    requires
        is_nan(a),
    ensures
        is_nan(b) ==> float_order(a, b) == Ordering::Equal,
        !is_nan(b) ==> float_order(a, b) == Ordering::Greater && float_order(b, a)
            == Ordering::Less,
{
}

} // verus!
