//! Determinism: where the caller's arithmetic gives one value for given
//! arguments, a lattice and a grid of `q` have one scattering curve.
use vstd::prelude::*;
use vstd::arithmetic::div_mod::lemma_fundamental_div_mod;
use crate::curve::{
    Strategy, are_row_totals, are_terms, is_curve, is_curve_value, is_fold, is_intensity,
    is_intensity_by_rows, is_q_grid, is_scattering_curve,
};
use crate::matrix::{DistanceMatrix, pair_place};

verus! {

/// The squared distance of two points is one value.
pub open spec fn distance_is_single_valued<P, T, D: Fn(&P, &P) -> T>(distance_sq: D) -> bool {
    forall|a: P, b: P, one: T, other: T|
        call_ensures(distance_sq, (&a, &b), one) && call_ensures(distance_sq, (&a, &b), other)
            ==> one == other
}

/// The value of `q` at an index is one value.
pub open spec fn grid_is_single_valued<T, Q: Fn(usize) -> T>(q_at: Q) -> bool {
    forall|index: usize, one: T, other: T|
        call_ensures(q_at, (index,), one) && call_ensures(q_at, (index,), other) ==> one == other
}

/// The contribution of a squared distance at a `q` is one value.
pub open spec fn kernel_is_single_valued<T, K: Fn(&T, &T) -> T>(kernel: K) -> bool {
    forall|q: T, distance: T, one: T, other: T|
        call_ensures(kernel, (&q, &distance), one) && call_ensures(kernel, (&q, &distance), other)
            ==> one == other
}

/// The sum of two contributions is one value.
pub open spec fn sum_is_single_valued<T, A: Fn(T, T) -> T>(plus: A) -> bool {
    forall|a: T, b: T, one: T, other: T|
        call_ensures(plus, (a, b), one) && call_ensures(plus, (a, b), other) ==> one == other
}

/// Terms added in one order from one start have one total.
pub proof fn lemma_fold_is_determined<T, A: Fn(T, T) -> T>(
    plus: A,
    start: T,
    terms: Seq<T>,
    one: T,
    other: T,
)
    requires
        sum_is_single_valued(plus),
        is_fold(plus, start, terms, one),
        is_fold(plus, start, terms, other),
    ensures
        one == other,
    decreases terms.len(),
{
    if terms.len() > 0 {
        let before_one = choose|earlier: T|
            #![trigger call_ensures(plus, (earlier, terms.last()), one)]
            is_fold(plus, start, terms.drop_last(), earlier) && call_ensures(
                plus,
                (earlier, terms.last()),
                one,
            );
        let before_other = choose|earlier: T|
            #![trigger call_ensures(plus, (earlier, terms.last()), other)]
            is_fold(plus, start, terms.drop_last(), earlier) && call_ensures(
                plus,
                (earlier, terms.last()),
                other,
            );
        lemma_fold_is_determined(plus, start, terms.drop_last(), before_one, before_other);
    }
}

/// The kernel summed over given squared distances at a given `q` has one
/// value.
pub proof fn lemma_intensity_is_determined<T, K: Fn(&T, &T) -> T, A: Fn(T, T) -> T>(
    kernel: K,
    plus: A,
    zero: T,
    q: T,
    distances: Seq<T>,
    one: T,
    other: T,
)
    requires
        kernel_is_single_valued(kernel),
        sum_is_single_valued(plus),
        is_intensity(kernel, plus, zero, q, distances, one),
        is_intensity(kernel, plus, zero, q, distances, other),
    ensures
        one == other,
{
    let terms_one = choose|terms: Seq<T>|
        #![trigger are_terms(kernel, q, distances, terms)]
        are_terms(kernel, q, distances, terms) && is_fold(plus, zero, terms, one);
    let terms_other = choose|terms: Seq<T>|
        #![trigger are_terms(kernel, q, distances, terms)]
        are_terms(kernel, q, distances, terms) && is_fold(plus, zero, terms, other);
    assert forall|place: int| 0 <= place < distances.len() implies terms_one[place]
        == terms_other[place] by {
        assert(call_ensures(kernel, (&q, &distances[place]), terms_one[place]));
        assert(call_ensures(kernel, (&q, &distances[place]), terms_other[place]));
    }
    assert(terms_one =~= terms_other);
    lemma_fold_is_determined(plus, zero, terms_one, one, other);
}

/// Two tables of the same points hold the same entries.
pub proof fn lemma_table_is_determined<P, T, D: Fn(&P, &P) -> T>(
    points: Seq<P>,
    distance_sq: D,
    one: DistanceMatrix<T>,
    other: DistanceMatrix<T>,
)
    requires
        distance_is_single_valued(distance_sq),
        one.is_table_of(points, distance_sq),
        other.is_table_of(points, distance_sq),
    ensures
        one.size == other.size,
        one.entries@ == other.entries@,
{
    let n = points.len() as int;
    assert forall|place: int| 0 <= place < one.entries@.len() implies one.entries@[place]
        == other.entries@[place] by {
        assert(one.entries@.len() == n * n);
        assert(n > 0) by (nonlinear_arith)
            requires
                0 <= place < n * n,
                n >= 0,
        ;
        let row = place / n;
        let column = place % n;
        lemma_fundamental_div_mod(place, n);
        assert(0 <= row < n) by (nonlinear_arith)
            requires
                0 <= place < n * n,
                n > 0,
                row == place / n,
        ;
        assert(row * n + column == place) by (nonlinear_arith)
            requires
                place == n * row + column,
        ;
        assert(pair_place(n as nat, row, column) == place);
        assert(call_ensures(distance_sq, (&points[row], &points[column]), one.entry(row, column)));
        assert(call_ensures(
            distance_sq,
            (&points[row], &points[column]),
            other.entry(row, column),
        ));
    }
    assert(one.entries@ =~= other.entries@);
}

/// The intensity at a given `q` over given table entries has one value,
/// whatever the strategy.
pub proof fn lemma_curve_value_is_determined<T, K: Fn(&T, &T) -> T, A: Fn(T, T) -> T>(
    strategy: Strategy,
    kernel: K,
    plus: A,
    zero: T,
    q: T,
    first: DistanceMatrix<T>,
    second: DistanceMatrix<T>,
    one: T,
    other: T,
)
    requires
        kernel_is_single_valued(kernel),
        sum_is_single_valued(plus),
        first.size == second.size,
        first.entries@ == second.entries@,
        is_curve_value(strategy, kernel, plus, zero, q, first, one),
        is_curve_value(strategy, kernel, plus, zero, q, second, other),
    ensures
        one == other,
{
    if strategy == Strategy::ParallelByRow {
        let totals_one = choose|totals: Seq<T>|
            #![trigger are_row_totals(kernel, plus, zero, q, first, totals)]
            are_row_totals(kernel, plus, zero, q, first, totals) && is_fold(
                plus,
                zero,
                totals,
                one,
            );
        let totals_other = choose|totals: Seq<T>|
            #![trigger are_row_totals(kernel, plus, zero, q, second, totals)]
            are_row_totals(kernel, plus, zero, q, second, totals) && is_fold(
                plus,
                zero,
                totals,
                other,
            );
        assert forall|row: int| 0 <= row < first.size implies totals_one[row]
            == totals_other[row] by {
            assert(first.row(row) == second.row(row));
            lemma_intensity_is_determined(
                kernel,
                plus,
                zero,
                q,
                first.row(row),
                totals_one[row],
                totals_other[row],
            );
        }
        assert(totals_one =~= totals_other);
        lemma_fold_is_determined(plus, zero, totals_one, one, other);
    } else {
        lemma_intensity_is_determined(kernel, plus, zero, q, first.entries@, one, other);
    }
}

/// Two computations of a scattering curve from the same lattice, the same
/// grid of `q` and the same strategy give the same sequence of values,
/// provided each arithmetic function gives one value for given arguments.
pub proof fn lemma_scattering_curve_is_determined<
    P,
    T,
    D: Fn(&P, &P) -> T,
    Q: Fn(usize) -> T,
    K: Fn(&T, &T) -> T,
    A: Fn(T, T) -> T,
>(
    strategy: Strategy,
    lattice: Seq<P>,
    n_points: nat,
    distance_sq: D,
    q_at: Q,
    kernel: K,
    plus: A,
    zero: T,
    one: Seq<T>,
    other: Seq<T>,
)
    requires
        distance_is_single_valued(distance_sq),
        grid_is_single_valued(q_at),
        kernel_is_single_valued(kernel),
        sum_is_single_valued(plus),
        is_scattering_curve(strategy, lattice, n_points, distance_sq, q_at, kernel, plus, zero, one),
        is_scattering_curve(
            strategy,
            lattice,
            n_points,
            distance_sq,
            q_at,
            kernel,
            plus,
            zero,
            other,
        ),
    ensures
        one == other,
{
    let (first, first_grid) = choose|matrix: DistanceMatrix<T>, q_values: Seq<T>|
        #![trigger is_curve(strategy, kernel, plus, zero, q_values, matrix, one)]
        matrix.is_table_of(lattice, distance_sq) && is_q_grid(q_at, n_points, q_values) && is_curve(
            strategy,
            kernel,
            plus,
            zero,
            q_values,
            matrix,
            one,
        );
    let (second, second_grid) = choose|matrix: DistanceMatrix<T>, q_values: Seq<T>|
        #![trigger is_curve(strategy, kernel, plus, zero, q_values, matrix, other)]
        matrix.is_table_of(lattice, distance_sq) && is_q_grid(q_at, n_points, q_values) && is_curve(
            strategy,
            kernel,
            plus,
            zero,
            q_values,
            matrix,
            other,
        );
    lemma_table_is_determined(lattice, distance_sq, first, second);
    assert forall|place: int| 0 <= place < n_points implies first_grid[place]
        == second_grid[place] by {
        assert(call_ensures(q_at, (place as usize,), first_grid[place]));
        assert(call_ensures(q_at, (place as usize,), second_grid[place]));
    }
    assert(first_grid =~= second_grid);
    assert forall|place: int| 0 <= place < n_points implies one[place] == other[place] by {
        lemma_curve_value_is_determined(
            strategy,
            kernel,
            plus,
            zero,
            first_grid[place],
            first,
            second,
            one[place],
            other[place],
        );
    }
    assert(one =~= other);
}

/// Sharing out the values of `q` among threads changes no value: a curve
/// computed with `ParallelByQ` is a curve of `Sequential`, and the other way
/// round.
pub proof fn lemma_parallel_by_q_is_sequential<
    P,
    T,
    D: Fn(&P, &P) -> T,
    Q: Fn(usize) -> T,
    K: Fn(&T, &T) -> T,
    A: Fn(T, T) -> T,
>(
    lattice: Seq<P>,
    n_points: nat,
    distance_sq: D,
    q_at: Q,
    kernel: K,
    plus: A,
    zero: T,
    curve: Seq<T>,
)
    ensures
        is_scattering_curve(
            Strategy::ParallelByQ,
            lattice,
            n_points,
            distance_sq,
            q_at,
            kernel,
            plus,
            zero,
            curve,
        ) <==> is_scattering_curve(
            Strategy::Sequential,
            lattice,
            n_points,
            distance_sq,
            q_at,
            kernel,
            plus,
            zero,
            curve,
        ),
{
    assert forall|matrix: DistanceMatrix<T>, q_values: Seq<T>|
        is_curve(Strategy::ParallelByQ, kernel, plus, zero, q_values, matrix, curve) == is_curve(
            Strategy::Sequential,
            kernel,
            plus,
            zero,
            q_values,
            matrix,
            curve,
        ) by {
        assert forall|q: T, value: T|
            is_curve_value(Strategy::ParallelByQ, kernel, plus, zero, q, matrix, value)
                == is_curve_value(Strategy::Sequential, kernel, plus, zero, q, matrix, value) by {}
    }
}

} // verus!
