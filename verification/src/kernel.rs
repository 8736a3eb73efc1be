//! The interference kernel: the contribution of one pair of points at one
//! `q`, which is `sin(x) / x` at `x = q * d` for a pair at distance `d`, and
//! the limit of that quotient, one, where `x` is zero.
//!
//! The kernel decides here which of the two applies; the zero test, the
//! product `q * d` and the quotient are the caller's arithmetic.
use vstd::prelude::*;

verus! {

/// `value` is the contribution of a pair with the given squared distance at
/// `q`: `one` if the squared distance vanishes or the argument `q * d`
/// vanishes, and otherwise a value that `sinc` can give for that argument.
pub open spec fn is_contribution<T, Z: Fn(&T) -> bool, R: Fn(&T, &T) -> T, S: Fn(&T) -> T>(
    vanishes: Z,
    argument: R,
    sinc: S,
    one: T,
    q: T,
    distance_sq: T,
    value: T,
) -> bool {
    exists|coincident: bool|
        #![trigger call_ensures(vanishes, (&distance_sq,), coincident)]
        call_ensures(vanishes, (&distance_sq,), coincident) && if coincident {
            value == one
        } else {
            exists|x: T, at_limit: bool|
                #![trigger call_ensures(argument, (&q, &distance_sq), x), call_ensures(vanishes, (&x,), at_limit)]
                call_ensures(argument, (&q, &distance_sq), x) && call_ensures(
                    vanishes,
                    (&x,),
                    at_limit,
                ) && if at_limit {
                    value == one
                } else {
                    call_ensures(sinc, (&x,), value)
                }
        }
}

/// The contribution of a pair with squared distance `distance_sq` at `q`.
///
/// `vanishes` tells whether a scalar is zero, `argument` gives `q * d` from
/// `q` and the squared distance, and `sinc` gives `sin(x) / x`. A pair at
/// distance zero contributes exactly `one`, without a call of `argument` or
/// `sinc`; so does a pair whose argument is zero, without a call of `sinc`.
/// `sinc` is called only with an argument of which `vanishes` has said that
/// it is not zero.
pub fn contribution<T: Copy, Z: Fn(&T) -> bool, R: Fn(&T, &T) -> T, S: Fn(&T) -> T>(
    q: &T,
    distance_sq: &T,
    one: T,
    vanishes: &Z,
    argument: &R,
    sinc: &S,
) -> (value: T)
    requires
        forall|x: &T| call_requires(*vanishes, (x,)),
        forall|a: &T, b: &T| call_requires(*argument, (a, b)),
        forall|x: &T| call_ensures(*vanishes, (x,), false) ==> call_requires(*sinc, (x,)),
    ensures
        is_contribution(*vanishes, *argument, *sinc, one, *q, *distance_sq, value),
        (forall|answer: bool| call_ensures(*vanishes, (distance_sq,), answer) ==> answer) ==> value
            == one,
{
    if vanishes(distance_sq) {
        return one;
    }
    let x = argument(q, distance_sq);
    if vanishes(&x) {
        return one;
    }
    sinc(&x)
}

} // verus!
