//! The scattering curve: for every `q` of a grid, the interference kernel
//! summed over all ordered pairs of lattice points.
//!
//! The kernel and the addition are the caller's arithmetic. What a sum is, is
//! stated as a relation between the terms, taken from first to last, and a
//! total that the addition can give for them in that order.
use vstd::prelude::*;
use crate::binary64::Binary64;
use crate::error::DseError;
use crate::matrix::{DistanceMatrix, pair_place, lemma_pair_place_bounds};
use crate::parallel::par_tabulate;

verus! {

/// How the work of a curve is spread over threads.
#[derive(Clone, Copy, Debug, PartialEq, Eq, Structural)]
pub enum Strategy {
    /// One thread; for each `q` the kernel is summed over the whole table,
    /// entry by entry.
    Sequential,
    /// The values of `q` are shared out among threads; each value is summed
    /// as in `Sequential`.
    ParallelByQ,
    /// For each `q` the rows of the table are shared out among threads; the
    /// row totals are then added up in row order.
    ParallelByRow,
}

/// `total` is a value that `plus` can give for `start` and the terms, added
/// one after the other from the first to the last.
pub open spec fn is_fold<T, A: Fn(T, T) -> T>(plus: A, start: T, terms: Seq<T>, total: T) -> bool
    decreases terms.len(),
{
    if terms.len() == 0 {
        total == start
    } else {
        exists|earlier: T|
            #![trigger call_ensures(plus, (earlier, terms.last()), total)]
            is_fold(plus, start, terms.drop_last(), earlier) && call_ensures(
                plus,
                (earlier, terms.last()),
                total,
            )
    }
}

/// Each term is a value that `kernel` can give for `q` and the squared
/// distance at the same place.
pub open spec fn are_terms<T, K: Fn(&T, &T) -> T>(
    kernel: K,
    q: T,
    distances: Seq<T>,
    terms: Seq<T>,
) -> bool {
    &&& terms.len() == distances.len()
    &&& forall|place: int|
        0 <= place < distances.len() ==> call_ensures(
            kernel,
            (&q, &distances[place]),
            #[trigger] terms[place],
        )
}

/// `value` is the kernel at `q` summed over the squared distances in their
/// order, starting from `zero`.
pub open spec fn is_intensity<T, K: Fn(&T, &T) -> T, A: Fn(T, T) -> T>(
    kernel: K,
    plus: A,
    zero: T,
    q: T,
    distances: Seq<T>,
    value: T,
) -> bool {
    exists|terms: Seq<T>|
        #![trigger are_terms(kernel, q, distances, terms)]
        are_terms(kernel, q, distances, terms) && is_fold(plus, zero, terms, value)
}

/// Each total is the kernel at `q` summed over the row of the same number.
pub open spec fn are_row_totals<T, K: Fn(&T, &T) -> T, A: Fn(T, T) -> T>(
    kernel: K,
    plus: A,
    zero: T,
    q: T,
    matrix: DistanceMatrix<T>,
    totals: Seq<T>,
) -> bool {
    &&& totals.len() == matrix.size
    &&& forall|row: int|
        0 <= row < matrix.size ==> is_intensity(
            kernel,
            plus,
            zero,
            q,
            matrix.row(row),
            #[trigger] totals[row],
        )
}

/// `value` is the sum, in row order and starting from `zero`, of the row
/// totals of the kernel at `q`.
pub open spec fn is_intensity_by_rows<T, K: Fn(&T, &T) -> T, A: Fn(T, T) -> T>(
    kernel: K,
    plus: A,
    zero: T,
    q: T,
    matrix: DistanceMatrix<T>,
    value: T,
) -> bool {
    exists|totals: Seq<T>|
        #![trigger are_row_totals(kernel, plus, zero, q, matrix, totals)]
        are_row_totals(kernel, plus, zero, q, matrix, totals) && is_fold(plus, zero, totals, value)
}

/// `value` is the intensity at `q` as the strategy sums it: row by row for
/// `ParallelByRow`, over the whole table in one pass otherwise.
pub open spec fn is_curve_value<T, K: Fn(&T, &T) -> T, A: Fn(T, T) -> T>(
    strategy: Strategy,
    kernel: K,
    plus: A,
    zero: T,
    q: T,
    matrix: DistanceMatrix<T>,
    value: T,
) -> bool {
    match strategy {
        Strategy::ParallelByRow => is_intensity_by_rows(kernel, plus, zero, q, matrix, value),
        _ => is_intensity(kernel, plus, zero, q, matrix.entries@, value),
    }
}

/// The curve has one value for each `q`, at the same place.
pub open spec fn is_curve<T, K: Fn(&T, &T) -> T, A: Fn(T, T) -> T>(
    strategy: Strategy,
    kernel: K,
    plus: A,
    zero: T,
    q_values: Seq<T>,
    matrix: DistanceMatrix<T>,
    curve: Seq<T>,
) -> bool {
    &&& curve.len() == q_values.len()
    &&& forall|place: int|
        0 <= place < q_values.len() ==> is_curve_value(
            strategy,
            kernel,
            plus,
            zero,
            q_values[place],
            matrix,
            #[trigger] curve[place],
        )
}

/// The grid has `n_points` values, the one at place `i` being a value that
/// `q_at` can give for `i`.
pub open spec fn is_q_grid<T, Q: Fn(usize) -> T>(q_at: Q, n_points: nat, q_values: Seq<T>) -> bool {
    &&& q_values.len() == n_points
    &&& forall|place: int|
        0 <= place < n_points ==> call_ensures(q_at, (place as usize,), #[trigger] q_values[place])
}

/// Adding one more term to a sum.
pub proof fn lemma_fold_step<T, A: Fn(T, T) -> T>(
    plus: A,
    start: T,
    terms: Seq<T>,
    total: T,
    term: T,
    next: T,
)
    requires
        is_fold(plus, start, terms, total),
        call_ensures(plus, (total, term), next),
    ensures
        is_fold(plus, start, terms.push(term), next),
{
    let longer = terms.push(term);
    assert(longer.drop_last() =~= terms);
    assert(call_ensures(plus, (total, longer.last()), next));
}

/// Adds up `values` from the first to the last, starting from `start`.
pub fn fold_values<T: Copy, A: Fn(T, T) -> T>(values: &Vec<T>, start: T, plus: &A) -> (total: T)
    requires
        forall|a: T, b: T| call_requires(*plus, (a, b)),
    ensures
        is_fold(*plus, start, values@, total),
{
    let mut total: T = start;
    let mut done: usize = 0;
    while done < values.len()
        invariant
            done <= values.len(),
            forall|a: T, b: T| call_requires(*plus, (a, b)),
            is_fold(*plus, start, values@.take(done as int), total),
        decreases values.len() - done,
    {
        let next = plus(total, values[done]);
        proof {
            lemma_fold_step(*plus, start, values@.take(done as int), total, values@[done as int], next);
            assert(values@.take(done as int).push(values@[done as int]) == values@.take(done + 1));
        }
        total = next;
        done = done + 1;
    }
    proof {
        assert(values@.take(done as int) == values@);
    }
    total
}

/// The kernel at `q` summed over the entries from place `from` up to, not
/// including, place `to`, in that order, starting from `zero`. The kernel is
/// called once for each entry; an entry of zero is no exception.
pub fn intensity_over<T: Copy, K: Fn(&T, &T) -> T, A: Fn(T, T) -> T>(
    entries: &Vec<T>,
    from: usize,
    to: usize,
    q: &T,
    zero: T,
    kernel: &K,
    plus: &A,
) -> (value: T)
    requires
        from <= to <= entries.len(),
        forall|a: &T, b: &T| call_requires(*kernel, (a, b)),
        forall|a: T, b: T| call_requires(*plus, (a, b)),
    ensures
        is_intensity(*kernel, *plus, zero, *q, entries@.subrange(from as int, to as int), value),
{
    let mut total: T = zero;
    let ghost mut terms: Seq<T> = Seq::empty();
    let mut place: usize = from;
    while place < to
        invariant
            from <= place <= to <= entries.len(),
            forall|a: &T, b: &T| call_requires(*kernel, (a, b)),
            forall|a: T, b: T| call_requires(*plus, (a, b)),
            terms.len() == place - from,
            forall|x: int|
                0 <= x < terms.len() ==> call_ensures(
                    *kernel,
                    (q, &entries@[from + x]),
                    #[trigger] terms[x],
                ),
            is_fold(*plus, zero, terms, total),
        decreases to - place,
    {
        let term = kernel(q, &entries[place]);
        let next = plus(total, term);
        proof {
            lemma_fold_step(*plus, zero, terms, total, term, next);
            terms = terms.push(term);
        }
        total = next;
        place = place + 1;
    }
    proof {
        assert(are_terms(*kernel, *q, entries@.subrange(from as int, to as int), terms));
    }
    total
}

/// The kernel at `q` summed over the whole table in one pass, row by row.
pub fn intensity<T: Copy, K: Fn(&T, &T) -> T, A: Fn(T, T) -> T>(
    matrix: &DistanceMatrix<T>,
    q: &T,
    zero: T,
    kernel: &K,
    plus: &A,
) -> (value: T)
    requires
        forall|a: &T, b: &T| call_requires(*kernel, (a, b)),
        forall|a: T, b: T| call_requires(*plus, (a, b)),
    ensures
        is_intensity(*kernel, *plus, zero, *q, matrix.entries@, value),
{
    let count = matrix.entries.len();
    proof {
        assert(matrix.entries@.subrange(0, count as int) == matrix.entries@);
    }
    intensity_over(&matrix.entries, 0, count, q, zero, kernel, plus)
}

/// The kernel at `q` summed row by row on the thread pool, the row totals
/// then added up in row order.
pub fn intensity_by_rows<T: Copy + Send + Sync, K: Fn(&T, &T) -> T + Sync, A: Fn(T, T) -> T + Sync>(
    matrix: &DistanceMatrix<T>,
    q: &T,
    zero: T,
    kernel: &K,
    plus: &A,
) -> (value: T)
    requires
        matrix.wf(),
        forall|a: &T, b: &T| call_requires(*kernel, (a, b)),
        forall|a: T, b: T| call_requires(*plus, (a, b)),
    ensures
        is_intensity_by_rows(*kernel, *plus, zero, *q, *matrix, value),
{
    let size = matrix.size;
    let row_total = |row: usize| -> (total: T)
        requires
            row < size,
        ensures
            is_intensity(*kernel, *plus, zero, *q, matrix.row(row as int), total),
        {
            proof {
                lemma_pair_place_bounds(size as nat, row as int, 0, size as int);
                assert(pair_place(size as nat, size as int, 0) == matrix.entries@.len());
                assert(matrix.entries@.len() == matrix.entries.len());
            }
            let from = row * size;
            intensity_over(&matrix.entries, from, from + size, q, zero, kernel, plus)
        };
    let totals = par_tabulate(size, row_total);
    proof {
        assert forall|row: int| 0 <= row < size implies is_intensity(
            *kernel,
            *plus,
            zero,
            *q,
            matrix.row(row),
            #[trigger] totals@[row],
        ) by {
            assert(call_ensures(row_total, (row as usize,), totals@[row as usize as int]));
        }
        assert(are_row_totals(*kernel, *plus, zero, *q, *matrix, totals@));
    }
    fold_values(&totals, zero, plus)
}

/// The values of `q`: `q_at` evaluated at every index below `n_points`, in
/// ascending order.
pub fn q_grid<T, Q: Fn(usize) -> T>(n_points: usize, q_at: &Q) -> (q_values: Vec<T>)
    requires
        forall|index: usize| call_requires(*q_at, (index,)),
    ensures
        is_q_grid(*q_at, n_points as nat, q_values@),
{
    let mut q_values: Vec<T> = Vec::new();
    let mut index: usize = 0;
    while index < n_points
        invariant
            index <= n_points,
            forall|index: usize| call_requires(*q_at, (index,)),
            is_q_grid(*q_at, index as nat, q_values@),
        decreases n_points - index,
    {
        let q = q_at(index);
        q_values.push(q);
        index = index + 1;
    }
    q_values
}

/// The curve over the given values of `q`: one intensity for each, at the
/// same place, each summed over every entry of the table. The table is only
/// read, and read in full for every `q`.
pub fn scattering_curve<T: Copy + Send + Sync, K: Fn(&T, &T) -> T + Sync, A: Fn(T, T) -> T + Sync>(
    strategy: Strategy,
    matrix: &DistanceMatrix<T>,
    q_values: &Vec<T>,
    zero: T,
    kernel: &K,
    plus: &A,
) -> (curve: Vec<T>)
    requires
        matrix.wf(),
        forall|a: &T, b: &T| call_requires(*kernel, (a, b)),
        forall|a: T, b: T| call_requires(*plus, (a, b)),
    ensures
        is_curve(strategy, *kernel, *plus, zero, q_values@, *matrix, curve@),
        matrix.size == 0 ==> forall|place: int| 0 <= place < curve@.len() ==> curve@[place] == zero,
{
    let count = q_values.len();
    let curve = match strategy {
        Strategy::Sequential => {
            let mut curve: Vec<T> = Vec::new();
            let mut place: usize = 0;
            while place < count
                invariant
                    place <= count,
                    count == q_values.len(),
                    forall|a: &T, b: &T| call_requires(*kernel, (a, b)),
                    forall|a: T, b: T| call_requires(*plus, (a, b)),
                    is_curve(
                        Strategy::Sequential,
                        *kernel,
                        *plus,
                        zero,
                        q_values@.take(place as int),
                        *matrix,
                        curve@,
                    ),
                decreases count - place,
            {
                let value = intensity(matrix, &q_values[place], zero, kernel, plus);
                curve.push(value);
                place = place + 1;
            }
            proof {
                assert(q_values@.take(count as int) == q_values@);
            }
            curve
        },
        Strategy::ParallelByQ => {
            let at_place = |place: usize| -> (value: T)
                requires
                    place < count,
                ensures
                    is_intensity(*kernel, *plus, zero, q_values@[place as int], matrix.entries@, value),
                { intensity(matrix, &q_values[place], zero, kernel, plus) };
            let curve = par_tabulate(count, at_place);
            proof {
                assert forall|place: int| 0 <= place < count implies is_curve_value(
                    Strategy::ParallelByQ,
                    *kernel,
                    *plus,
                    zero,
                    q_values@[place],
                    *matrix,
                    #[trigger] curve@[place],
                ) by {
                    assert(call_ensures(at_place, (place as usize,), curve@[place as usize as int]));
                }
            }
            curve
        },
        Strategy::ParallelByRow => {
            let mut curve: Vec<T> = Vec::new();
            let mut place: usize = 0;
            while place < count
                invariant
                    place <= count,
                    count == q_values.len(),
                    matrix.wf(),
                    forall|a: &T, b: &T| call_requires(*kernel, (a, b)),
                    forall|a: T, b: T| call_requires(*plus, (a, b)),
                    is_curve(
                        Strategy::ParallelByRow,
                        *kernel,
                        *plus,
                        zero,
                        q_values@.take(place as int),
                        *matrix,
                        curve@,
                    ),
                decreases count - place,
            {
                let value = intensity_by_rows(matrix, &q_values[place], zero, kernel, plus);
                curve.push(value);
                place = place + 1;
            }
            proof {
                assert(q_values@.take(count as int) == q_values@);
            }
            curve
        },
    };
    proof {
        if matrix.size == 0 {
            assert forall|place: int| 0 <= place < curve@.len() implies curve@[place] == zero by {
                lemma_no_points_scatter_nothing(
                    strategy,
                    *kernel,
                    *plus,
                    zero,
                    q_values@[place],
                    *matrix,
                    curve@[place],
                );
            }
        }
    }
    curve
}

/// Without points there are no pairs, and the sum over no pairs is where it
/// started: the intensity is `zero`, whatever the strategy and the value of
/// `q`.
pub proof fn lemma_no_points_scatter_nothing<T, K: Fn(&T, &T) -> T, A: Fn(T, T) -> T>(
    strategy: Strategy,
    kernel: K,
    plus: A,
    zero: T,
    q: T,
    matrix: DistanceMatrix<T>,
    value: T,
)
    requires
        matrix.wf(),
        matrix.size == 0,
        is_curve_value(strategy, kernel, plus, zero, q, matrix, value),
    ensures
        value == zero,
{
    assert(matrix.entries@.len() == 0);
    if strategy == Strategy::ParallelByRow {
        let totals = choose|totals: Seq<T>|
            #![trigger are_row_totals(kernel, plus, zero, q, matrix, totals)]
            are_row_totals(kernel, plus, zero, q, matrix, totals) && is_fold(
                plus,
                zero,
                totals,
                value,
            );
        assert(totals.len() == 0);
    } else {
        let terms = choose|terms: Seq<T>|
            #![trigger are_terms(kernel, q, matrix.entries@, terms)]
            are_terms(kernel, q, matrix.entries@, terms) && is_fold(plus, zero, terms, value);
        assert(terms.len() == 0);
    }
}

/// The range of `q` can be stepped through: the step is greater than zero
/// and the upper end lies above the lower end.
pub open spec fn is_q_range(min_q: Binary64, max_q: Binary64, q_step: Binary64) -> bool {
    q_step.is_positive() && min_q.is_below(max_q)
}

/// Accepts a range of `q` whose step is greater than zero and whose upper
/// end lies above its lower end, and rejects every other, NaN included.
pub fn check_q_range(min_q: Binary64, max_q: Binary64, q_step: Binary64) -> (r: Result<(), DseError>)
    ensures
        r == if is_q_range(min_q, max_q, q_step) {
            Ok::<(), DseError>(())
        } else {
            Err::<(), DseError>(DseError::InvalidRange)
        },
{
    if q_step.exceeds_zero() && min_q.lies_below(max_q) {
        Ok(())
    } else {
        Err(DseError::InvalidRange)
    }
}

/// The number of points of the grid of `q`: the whole steps that the
/// quotient of the width of the range by the step holds. The upper end of
/// the range is a point only if the arithmetic that gave the quotient says
/// so.
pub fn q_point_count(quotient: Binary64) -> (n_points: usize)
    ensures
        n_points == quotient.step_count(),
{
    quotient.to_step_count()
}

/// `curve` is the scattering curve of `lattice` over `n_points` values of
/// `q`: there is a table of the squared distances of all ordered pairs and a
/// grid of `q`, and the value at each place is the kernel, at the `q` of that
/// place, summed over the table.
pub open spec fn is_scattering_curve<
    P,
    T,
    D: Fn(&P, &P) -> T,
    Q: Fn(usize) -> T,
    K: Fn(&T, &T) -> T,
    A: Fn(T, T) -> T,
>(
    strategy: Strategy,
    lattice: Seq<P>,
    n_points: nat,
    distance_sq: D,
    q_at: Q,
    kernel: K,
    plus: A,
    zero: T,
    curve: Seq<T>,
) -> bool {
    exists|matrix: DistanceMatrix<T>, q_values: Seq<T>|
        #![trigger is_curve(strategy, kernel, plus, zero, q_values, matrix, curve)]
        matrix.is_table_of(lattice, distance_sq) && is_q_grid(q_at, n_points, q_values) && is_curve(
            strategy,
            kernel,
            plus,
            zero,
            q_values,
            matrix,
            curve,
        )
}

/// Computes the scattering curve of a lattice.
///
/// `quotient` is the width of the range, `max_q - min_q`, divided by
/// `q_step`, as the caller's arithmetic gives it; the whole steps it holds
/// are the points of the curve. `q_at` gives the value of `q` at an index,
/// `distance_sq` the squared distance of two points, `kernel` the
/// contribution of one squared distance at one `q`, and `plus` the sum of
/// two contributions; sums start from `zero`.
///
/// A range that cannot be stepped through is rejected before anything is
/// computed. Otherwise the squared distances of all ordered pairs are
/// tabulated once, and every value of the curve is summed over the whole
/// table, the pairs of a point with itself included.
pub fn compute_scattering_curve<
    P,
    T: Copy + Send + Sync,
    D: Fn(&P, &P) -> T,
    Q: Fn(usize) -> T,
    K: Fn(&T, &T) -> T + Sync,
    A: Fn(T, T) -> T + Sync,
>(
    strategy: Strategy,
    min_q: Binary64,
    max_q: Binary64,
    q_step: Binary64,
    quotient: Binary64,
    lattice: &Vec<P>,
    distance_sq: &D,
    q_at: &Q,
    kernel: &K,
    plus: &A,
    zero: T,
) -> (r: Result<Vec<T>, DseError>)
    requires
        is_q_range(min_q, max_q, q_step) ==> lattice.len() * lattice.len() <= usize::MAX,
        forall|a: &P, b: &P| call_requires(*distance_sq, (a, b)),
        forall|index: usize| call_requires(*q_at, (index,)),
        forall|a: &T, b: &T| call_requires(*kernel, (a, b)),
        forall|a: T, b: T| call_requires(*plus, (a, b)),
    ensures
        !is_q_range(min_q, max_q, q_step) ==> r == Err::<Vec<T>, DseError>(DseError::InvalidRange),
        is_q_range(min_q, max_q, q_step) ==> (r matches Ok(curve) && curve@.len()
            == quotient.step_count() && is_scattering_curve(
            strategy,
            lattice@,
            quotient.step_count(),
            *distance_sq,
            *q_at,
            *kernel,
            *plus,
            zero,
            curve@,
        ) && (lattice@.len() == 0 ==> forall|place: int|
            0 <= place < curve@.len() ==> curve@[place] == zero)),
{
    match check_q_range(min_q, max_q, q_step) {
        Ok(()) => {},
        Err(error) => {
            return Err(error);
        },
    }
    let n_points = q_point_count(quotient);
    let matrix = DistanceMatrix::build(lattice, distance_sq);
    let q_values = q_grid(n_points, q_at);
    let curve = scattering_curve(strategy, &matrix, &q_values, zero, kernel, plus);
    Ok(curve)
}

} // verus!
