//! The table of squared distances of all ordered pairs of lattice points.
use vstd::prelude::*;

verus! {

/// The squared distances of all ordered pairs of `size` points, the pairs of
/// a point with itself included, stored row by row: the pair `(i, j)` stands
/// at place `i * size + j`.
pub struct DistanceMatrix<T> {
    pub size: usize,
    pub entries: Vec<T>,
}

/// The place of the pair `(row, column)` in a table of `size` rows.
pub open spec fn pair_place(size: nat, row: int, column: int) -> int {
    row * size + column
}

impl<T> DistanceMatrix<T> {
    /// The table has one entry for every ordered pair.
    pub open spec fn wf(&self) -> bool {
        self.entries@.len() == self.size * self.size
    }

    /// The entry of the pair `(row, column)`.
    pub open spec fn entry(&self, row: int, column: int) -> T {
        self.entries@[pair_place(self.size as nat, row, column)]
    }

    /// The entries of the pairs whose first point is `row`, by second point.
    pub open spec fn row(&self, row: int) -> Seq<T> {
        self.entries@.subrange(
            pair_place(self.size as nat, row, 0),
            pair_place(self.size as nat, row + 1, 0),
        )
    }

    /// Every entry is a value that `distance_sq` can give for the two points
    /// of its pair.
    pub open spec fn is_table_of<P, D: Fn(&P, &P) -> T>(&self, points: Seq<P>, distance_sq: D) -> bool {
        &&& self.wf()
        &&& self.size == points.len()
        &&& forall|row: int, column: int|
            0 <= row < points.len() && 0 <= column < points.len() ==> call_ensures(
                distance_sq,
                (&points[row], &points[column]),
                #[trigger] self.entry(row, column),
            )
    }

    /// Tabulates `distance_sq` over all ordered pairs of `points`, row by
    /// row. The function is called once for each pair, with the points in
    /// the order of the pair; no use is made of symmetry.
    pub fn build<P, D: Fn(&P, &P) -> T>(points: &Vec<P>, distance_sq: &D) -> (matrix: Self)
        requires
            points.len() * points.len() <= usize::MAX,
            forall|a: &P, b: &P| call_requires(*distance_sq, (a, b)),
        ensures
            matrix.is_table_of(points@, *distance_sq),
    {
        let size = points.len();
        let ghost n = size as nat;
        let mut entries: Vec<T> = Vec::new();
        let mut i: usize = 0;
        while i < size
            invariant
                i <= size,
                size == points.len(),
                n == size,
                forall|a: &P, b: &P| call_requires(*distance_sq, (a, b)),
                entries@.len() == pair_place(n, i as int, 0),
                forall|row: int, column: int|
                    0 <= row < i && 0 <= column < n ==> call_ensures(
                        *distance_sq,
                        (&points@[row], &points@[column]),
                        #[trigger] entries@[pair_place(n, row, column)],
                    ),
            decreases size - i,
        {
            let mut j: usize = 0;
            while j < size
                invariant
                    i < size,
                    j <= size,
                    size == points.len(),
                    n == size,
                    forall|a: &P, b: &P| call_requires(*distance_sq, (a, b)),
                    entries@.len() == pair_place(n, i as int, j as int),
                    forall|row: int, column: int|
                        0 <= row < i && 0 <= column < n ==> call_ensures(
                            *distance_sq,
                            (&points@[row], &points@[column]),
                            #[trigger] entries@[pair_place(n, row, column)],
                        ),
                    forall|column: int|
                        0 <= column < j ==> call_ensures(
                            *distance_sq,
                            (&points@[i as int], &points@[column]),
                            #[trigger] entries@[pair_place(n, i as int, column)],
                        ),
                decreases size - j,
            {
                let ghost before = entries@;
                let value = distance_sq(&points[i], &points[j]);
                entries.push(value);
                proof {
                    assert forall|row: int, column: int| 0 <= row < i && 0 <= column < n implies call_ensures(
                        *distance_sq,
                        (&points@[row], &points@[column]),
                        #[trigger] entries@[pair_place(n, row, column)],
                    ) by {
                        lemma_pair_place_bounds(n, row, column, i as int);
                        assert(entries@[pair_place(n, row, column)] == before[pair_place(
                            n,
                            row,
                            column,
                        )]);
                    }
                    assert forall|column: int| 0 <= column < j + 1 implies call_ensures(
                        *distance_sq,
                        (&points@[i as int], &points@[column]),
                        #[trigger] entries@[pair_place(n, i as int, column)],
                    ) by {
                        if column < j {
                            assert(entries@[pair_place(n, i as int, column)] == before[pair_place(
                                n,
                                i as int,
                                column,
                            )]);
                        }
                    }
                }
                j = j + 1;
            }
            proof {
                assert(pair_place(n, i as int, n as int) == pair_place(n, i + 1, 0))
                    by (nonlinear_arith);
            }
            i = i + 1;
        }
        let matrix = DistanceMatrix { size, entries };
        proof {
            assert(pair_place(n, n as int, 0) == n * n) by (nonlinear_arith);
        }
        matrix
    }

    /// The number of points.
    pub fn size(&self) -> (n: usize)
        ensures
            n == self.size,
    {
        self.size
    }

    /// The entry of the pair `(row, column)`.
    pub fn get(&self, row: usize, column: usize) -> (value: &T)
        requires
            self.wf(),
            row < self.size,
            column < self.size,
        ensures
            *value == self.entry(row as int, column as int),
    {
        proof {
            lemma_pair_place_bounds(
                self.size as nat,
                row as int,
                column as int,
                self.size as int,
            );
            assert(pair_place(self.size as nat, self.size as int, 0) == self.entries@.len());
            assert(self.entries@.len() == self.entries.len());
        }
        &self.entries[row * self.size + column]
    }
}

/// The number of ordered pairs of `size` points, where that number can be
/// held.
pub fn pair_count(size: usize) -> (count: Option<usize>)
    ensures
        match count {
            Some(n) => n == size * size,
            None => size * size > usize::MAX,
        },
{
    size.checked_mul(size)
}

/// The place of a pair lies within its row, and its row before all later
/// rows.
pub proof fn lemma_pair_place_bounds(size: nat, row: int, column: int, rows: int)
    requires
        0 <= row < rows,
        0 <= column < size,
    ensures
        pair_place(size, row, 0) <= pair_place(size, row, column) < pair_place(size, row + 1, 0),
        pair_place(size, row + 1, 0) <= pair_place(size, rows, 0),
        0 <= pair_place(size, row, 0),
        pair_place(size, row + 1, 0) == pair_place(size, row, 0) + size,
{
    assert(row * size + size == (row + 1) * size) by (nonlinear_arith);
    assert((row + 1) * size <= rows * size) by (nonlinear_arith)
        requires
            row + 1 <= rows,
            size >= 0,
    ;
    assert(0 <= row * size) by (nonlinear_arith)
        requires
            0 <= row,
            size >= 0,
    ;
}

/// A table is symmetric and has a constant diagonal where the function that
/// it tabulates is: if a pair and its reverse always get the same value, the
/// entries `(i, j)` and `(j, i)` are equal; if a point and itself always get
/// `zero`, every entry `(i, i)` is `zero`.
pub proof fn lemma_symmetric_with_zero_diagonal<P, T, D: Fn(&P, &P) -> T>(
    matrix: DistanceMatrix<T>,
    points: Seq<P>,
    distance_sq: D,
    zero: T,
)
    requires
        matrix.is_table_of(points, distance_sq),
        forall|a: P, b: P, forth: T, back: T|
            call_ensures(distance_sq, (&a, &b), forth) && call_ensures(distance_sq, (&b, &a), back)
                ==> forth == back,
        forall|a: P, own: T| call_ensures(distance_sq, (&a, &a), own) ==> own == zero,
    ensures
        forall|i: int, j: int|
            0 <= i < points.len() && 0 <= j < points.len() ==> #[trigger] matrix.entry(i, j)
                == matrix.entry(j, i),
        forall|i: int| 0 <= i < points.len() ==> #[trigger] matrix.entry(i, i) == zero,
{
    assert forall|i: int, j: int| 0 <= i < points.len() && 0 <= j < points.len() implies #[trigger] matrix.entry(
        i,
        j,
    ) == matrix.entry(j, i) by {
        assert(call_ensures(distance_sq, (&points[i], &points[j]), matrix.entry(i, j)));
        assert(call_ensures(distance_sq, (&points[j], &points[i]), matrix.entry(j, i)));
    }
    assert forall|i: int| 0 <= i < points.len() implies #[trigger] matrix.entry(i, i) == zero by {
        assert(call_ensures(distance_sq, (&points[i], &points[i]), matrix.entry(i, i)));
    }
}

} // verus!
