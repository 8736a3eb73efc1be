//! Lattice generation: the sites of a cubic grid, and those of them that a
//! sphere retains.
//!
//! A site is named by its three grid indices. Its position along an axis is
//! its index times the lattice spacing; that product, and the test whether a
//! position lies inside the sphere, are the caller's arithmetic.
use vstd::prelude::*;
use vstd::arithmetic::div_mod::{lemma_fundamental_div_mod_converse, lemma_div_denominator};
use crate::binary64::Binary64;
use crate::error::DseError;
use crate::shape::{Shape, shape_named, parse_shape};

verus! {

/// A site of the cubic grid, by its indices along the three axes.
#[derive(Clone, Copy, Debug, PartialEq, Eq, Structural)]
pub struct GridPoint {
    pub i: usize,
    pub j: usize,
    pub k: usize,
}

/// The number of sites of a cubic grid with `steps` sites along each edge.
pub open spec fn site_count(steps: nat) -> nat {
    steps * steps * steps
}

/// The place of the site `(i, j, k)` in generation order: the first index
/// varies slowest, the last fastest.
pub open spec fn position_of(steps: nat, i: nat, j: nat, k: nat) -> nat {
    (i * steps + j) * steps + k
}

/// The site generated at place `index`.
pub open spec fn site_at(steps: nat, index: int) -> GridPoint {
    let edge = steps as int;
    GridPoint {
        i: (index / (edge * edge)) as usize,
        j: ((index / edge) % edge) as usize,
        k: (index % edge) as usize,
    }
}

/// All sites of the cubic grid, in generation order.
pub open spec fn cube_sites(steps: nat) -> Seq<GridPoint> {
    Seq::new(site_count(steps), |index: int| site_at(steps, index))
}

/// The items among the first `upto` whose flag in `keep` is set, in their
/// order among the items.
pub open spec fn retained(items: Seq<GridPoint>, keep: Seq<bool>, upto: nat) -> Seq<GridPoint>
    decreases upto,
{
    if upto == 0 {
        Seq::empty()
    } else {
        let earlier = retained(items, keep, (upto - 1) as nat);
        if keep[upto - 1] {
            earlier.push(items[upto - 1])
        } else {
            earlier
        }
    }
}

/// `keep` records, site by site of the cubic grid, an answer that `inside`
/// can give for that site.
pub open spec fn answers_of<F: Fn(GridPoint) -> bool>(inside: F, steps: nat, keep: Seq<bool>) -> bool {
    &&& keep.len() == site_count(steps)
    &&& forall|index: int|
        0 <= index < keep.len() ==> call_ensures(inside, (site_at(steps, index),), #[trigger] keep[index])
}

/// `sites` holds exactly the sites of the cubic grid that `inside` accepted,
/// in generation order.
pub open spec fn is_selection<F: Fn(GridPoint) -> bool>(inside: F, steps: nat, sites: Seq<GridPoint>) -> bool {
    exists|keep: Seq<bool>| #[trigger]
        answers_of(inside, steps, keep) && sites == retained(
            cube_sites(steps),
            keep,
            site_count(steps),
        )
}

/// The place of a site determines the site, and lies within the grid.
pub proof fn lemma_site_at_position(steps: nat, i: nat, j: nat, k: nat)
    requires
        i < steps,
        j < steps,
        k < steps,
    ensures
        position_of(steps, i, j, k) < site_count(steps),
        site_at(steps, position_of(steps, i, j, k) as int) == (GridPoint {
            i: i as usize,
            j: j as usize,
            k: k as usize,
        }),
        cube_sites(steps)[position_of(steps, i, j, k) as int] == (GridPoint {
            i: i as usize,
            j: j as usize,
            k: k as usize,
        }),
{
    let s = steps as int;
    let row = (i * steps + j) as int;
    let index = position_of(steps, i, j, k) as int;
    assert(index == row * s + k);
    assert(row * s + k == s * row + k) by (nonlinear_arith);
    assert(i * s + j == s * i + j) by (nonlinear_arith);
    lemma_fundamental_div_mod_converse(index, s, row, k as int);
    lemma_fundamental_div_mod_converse(row, s, i as int, j as int);
    lemma_div_denominator(index, s, s);
    assert(row <= (s - 1) * s + (s - 1)) by (nonlinear_arith)
        requires
            row == i * s + j,
            0 <= i <= s - 1,
            0 <= j <= s - 1,
    ;
    assert(index < s * s * s) by (nonlinear_arith)
        requires
            index == row * s + k,
            0 <= row <= (s - 1) * s + (s - 1),
            0 <= k <= s - 1,
    ;
}

/// Every site of the grid has indices below `steps`, and stands at the place
/// that its indices give.
pub proof fn lemma_site_at_within(steps: nat, index: int)
    requires
        steps <= usize::MAX,
        0 <= index < site_count(steps),
    ensures
        site_at(steps, index).i < steps,
        site_at(steps, index).j < steps,
        site_at(steps, index).k < steps,
        position_of(
            steps,
            site_at(steps, index).i as nat,
            site_at(steps, index).j as nat,
            site_at(steps, index).k as nat,
        ) == index,
{
    let s = steps as int;
    assert(s > 0) by (nonlinear_arith)
        requires
            0 <= index < s * s * s,
            s >= 0,
    ;
    let row = index / s;
    lemma_div_denominator(index, s, s);
    assert(row / s == index / (s * s));
    assert(0 <= row < s * s) by (nonlinear_arith)
        requires
            0 <= index < s * s * s,
            s > 0,
            row == index / s,
    ;
    assert(0 <= row / s < s) by (nonlinear_arith)
        requires
            0 <= row < s * s,
            s > 0,
    ;
    assert(0 <= row % s < s);
    assert(0 <= index % s < s);
    assert(row == s * (row / s) + row % s) by {
        vstd::arithmetic::div_mod::lemma_fundamental_div_mod(row, s);
    }
    assert(index == s * row + index % s) by {
        vstd::arithmetic::div_mod::lemma_fundamental_div_mod(index, s);
    }
    assert(site_at(steps, index).i == row / s);
    assert(site_at(steps, index).j == row % s);
    assert(site_at(steps, index).k == index % s);
    assert(((row / s) * s + row % s) * s + index % s == index) by (nonlinear_arith)
        requires
            row == s * (row / s) + row % s,
            index == s * row + index % s,
    ;
}

/// What is retained among the first `upto` items depends on the first `upto`
/// flags only.
pub proof fn lemma_retained_reads_prefix(
    items: Seq<GridPoint>,
    keep: Seq<bool>,
    other: Seq<bool>,
    upto: nat,
)
    requires
        upto <= keep.len(),
        upto <= other.len(),
        forall|index: int| 0 <= index < upto ==> keep[index] == other[index],
    ensures
        retained(items, keep, upto) == retained(items, other, upto),
    decreases upto,
{
    if upto > 0 {
        lemma_retained_reads_prefix(items, keep, other, (upto - 1) as nat);
    }
}

/// The cubic grid with `steps` sites along each edge: every site once, the
/// first index outermost and the last innermost.
pub fn cube_grid(steps: usize) -> (sites: Vec<GridPoint>)
    requires
        site_count(steps as nat) <= usize::MAX,
    ensures
        sites@ == cube_sites(steps as nat),
{
    let ghost s = steps as nat;
    let mut sites: Vec<GridPoint> = Vec::new();
    let mut i: usize = 0;
    while i < steps
        invariant
            i <= steps,
            s == steps,
            sites@.len() == position_of(s, i as nat, 0, 0),
            forall|index: int| 0 <= index < sites@.len() ==> sites@[index] == site_at(s, index),
        decreases steps - i,
    {
        let mut j: usize = 0;
        while j < steps
            invariant
                i < steps,
                j <= steps,
                s == steps,
                sites@.len() == position_of(s, i as nat, j as nat, 0),
                forall|index: int| 0 <= index < sites@.len() ==> sites@[index] == site_at(s, index),
            decreases steps - j,
        {
            let mut k: usize = 0;
            while k < steps
                invariant
                    i < steps,
                    j < steps,
                    k <= steps,
                    s == steps,
                    sites@.len() == position_of(s, i as nat, j as nat, k as nat),
                    forall|index: int|
                        0 <= index < sites@.len() ==> sites@[index] == site_at(s, index),
                decreases steps - k,
            {
                proof {
                    lemma_site_at_position(s, i as nat, j as nat, k as nat);
                }
                sites.push(GridPoint { i, j, k });
                k = k + 1;
            }
            proof {
                lemma_next_row(s, i as nat, j as nat);
            }
            j = j + 1;
        }
        proof {
            lemma_next_plane(s, i as nat);
        }
        i = i + 1;
    }
    proof {
        lemma_all_planes(s);
        assert(sites@ =~= cube_sites(s));
    }
    sites
}

/// The sites of the cubic grid that `inside` accepts, in generation order.
/// `inside` is asked once for every site of the grid.
pub fn sphere_grid<F: Fn(GridPoint) -> bool>(steps: usize, inside: &F) -> (sites: Vec<GridPoint>)
    requires
        site_count(steps as nat) <= usize::MAX,
        forall|site: GridPoint| call_requires(*inside, (site,)),
    ensures
        is_selection(*inside, steps as nat, sites@),
{
    let ghost s = steps as nat;
    let ghost all = cube_sites(s);
    let ghost mut keep: Seq<bool> = Seq::empty();
    let mut sites: Vec<GridPoint> = Vec::new();
    let mut i: usize = 0;
    while i < steps
        invariant
            i <= steps,
            s == steps,
            all == cube_sites(s),
            forall|site: GridPoint| call_requires(*inside, (site,)),
            keep.len() == position_of(s, i as nat, 0, 0),
            forall|index: int|
                0 <= index < keep.len() ==> call_ensures(
                    *inside,
                    (site_at(s, index),),
                    #[trigger] keep[index],
                ),
            sites@ == retained(all, keep, keep.len()),
        decreases steps - i,
    {
        let mut j: usize = 0;
        while j < steps
            invariant
                i < steps,
                j <= steps,
                s == steps,
                all == cube_sites(s),
                forall|site: GridPoint| call_requires(*inside, (site,)),
                keep.len() == position_of(s, i as nat, j as nat, 0),
                forall|index: int|
                    0 <= index < keep.len() ==> call_ensures(
                        *inside,
                        (site_at(s, index),),
                        #[trigger] keep[index],
                    ),
                sites@ == retained(all, keep, keep.len()),
            decreases steps - j,
        {
            let mut k: usize = 0;
            while k < steps
                invariant
                    i < steps,
                    j < steps,
                    k <= steps,
                    s == steps,
                    all == cube_sites(s),
                    forall|site: GridPoint| call_requires(*inside, (site,)),
                    keep.len() == position_of(s, i as nat, j as nat, k as nat),
                    forall|index: int|
                        0 <= index < keep.len() ==> call_ensures(
                            *inside,
                            (site_at(s, index),),
                            #[trigger] keep[index],
                        ),
                    sites@ == retained(all, keep, keep.len()),
                decreases steps - k,
            {
                let site = GridPoint { i, j, k };
                let accepted = inside(site);
                proof {
                    lemma_site_at_position(s, i as nat, j as nat, k as nat);
                    let earlier = keep;
                    keep = keep.push(accepted);
                    lemma_retained_reads_prefix(all, earlier, keep, earlier.len());
                }
                if accepted {
                    sites.push(site);
                }
                k = k + 1;
            }
            proof {
                lemma_next_row(s, i as nat, j as nat);
            }
            j = j + 1;
        }
        proof {
            lemma_next_plane(s, i as nat);
        }
        i = i + 1;
    }
    proof {
        lemma_all_planes(s);
        assert(answers_of(*inside, s, keep));
    }
    sites
}

/// The number of sites of the cubic grid, where that number can be held.
pub fn grid_capacity(steps: usize) -> (count: Option<usize>)
    ensures
        match count {
            Some(n) => n == site_count(steps as nat),
            None => site_count(steps as nat) > usize::MAX,
        },
{
    match steps.checked_mul(steps) {
        Some(plane) => {
            let count = plane.checked_mul(steps);
            proof {
                assert(steps * steps * steps == plane * steps);
            }
            count
        },
        None => {
            proof {
                assert(steps * steps * steps >= steps * steps) by (nonlinear_arith)
                    requires
                        steps * steps > usize::MAX,
                        steps >= 0,
                ;
            }
            None
        },
    }
}

/// Accepts a lattice spacing and an edge length that are both greater than
/// zero, and rejects every other pair, NaN included.
pub fn check_lattice_parameters(lattice_param: Binary64, length: Binary64) -> (r: Result<
    (),
    DseError,
>)
    ensures
        r == if lattice_param.is_positive() && length.is_positive() {
            Ok::<(), DseError>(())
        } else {
            Err::<(), DseError>(DseError::InvalidParameter)
        },
{
    if lattice_param.exceeds_zero() && length.exceeds_zero() {
        Ok(())
    } else {
        Err(DseError::InvalidParameter)
    }
}

/// The number of sites along each edge: the whole steps that the quotient of
/// edge length by lattice spacing holds.
pub fn lattice_steps(quotient: Binary64) -> (steps: usize)
    ensures
        steps == quotient.step_count(),
{
    quotient.to_step_count()
}

/// The request names a shape and gives a spacing and a length that are
/// greater than zero.
pub open spec fn is_lattice_request(shape: Seq<char>, lattice_param: Binary64, length: Binary64) -> bool {
    shape_named(shape) is Some && lattice_param.is_positive() && length.is_positive()
}

/// Generates the lattice sites of a crystal.
///
/// `quotient` is the edge length divided by the lattice spacing, as the
/// caller's arithmetic gives it; the whole steps it holds are the sites along
/// each edge. A cube has every site of the grid. A sphere has the sites that
/// `inside` accepts, which is asked for each site of the grid in generation
/// order.
///
/// An unknown shape name is reported before anything else; a spacing or a
/// length that is not greater than zero is reported next. No sites are
/// returned with an error.
pub fn generate_lattice<F: Fn(GridPoint) -> bool>(
    shape: &str,
    lattice_param: Binary64,
    length: Binary64,
    quotient: Binary64,
    inside: &F,
) -> (r: Result<Vec<GridPoint>, DseError>)
    requires
        forall|site: GridPoint| call_requires(*inside, (site,)),
        is_lattice_request(shape@, lattice_param, length) ==> site_count(quotient.step_count())
            <= usize::MAX,
    ensures
        shape_named(shape@) is None ==> (r matches Err(DseError::InvalidShape(given)) && given@
            == shape@),
        shape_named(shape@) is Some && !(lattice_param.is_positive() && length.is_positive())
            ==> r == Err::<Vec<GridPoint>, DseError>(DseError::InvalidParameter),
        is_lattice_request(shape@, lattice_param, length) ==> (r matches Ok(sites)
            && match shape_named(shape@) {
            Some(Shape::Sphere) => is_selection(*inside, quotient.step_count(), sites@),
            _ => sites@ == cube_sites(quotient.step_count()),
        }),
{
    let outline = match parse_shape(shape) {
        Ok(outline) => outline,
        Err(error) => {
            return Err(error);
        },
    };
    match check_lattice_parameters(lattice_param, length) {
        Ok(()) => {},
        Err(error) => {
            return Err(error);
        },
    }
    let steps = lattice_steps(quotient);
    match outline {
        Shape::Cube => Ok(cube_grid(steps)),
        Shape::Sphere => Ok(sphere_grid(steps, inside)),
    }
}

/// The places, among the first `upto`, whose flag in `keep` is set, in
/// ascending order.
pub open spec fn retained_places(keep: Seq<bool>, upto: nat) -> Seq<int>
    decreases upto,
{
    if upto == 0 {
        Seq::empty()
    } else {
        let earlier = retained_places(keep, (upto - 1) as nat);
        if keep[upto - 1] {
            earlier.push(upto - 1)
        } else {
            earlier
        }
    }
}

/// Retaining filters and does not reorder: what is retained are the items at
/// the flagged places, each once, in the order of their places.
pub proof fn lemma_retained_keeps_order(items: Seq<GridPoint>, keep: Seq<bool>, upto: nat)
    requires
        upto <= items.len(),
        upto <= keep.len(),
    ensures
        retained(items, keep, upto).len() == retained_places(keep, upto).len(),
        retained_places(keep, upto).len() <= upto,
        forall|x: int|
            0 <= x < retained_places(keep, upto).len() ==> {
                let place = #[trigger] retained_places(keep, upto)[x];
                0 <= place < upto && keep[place] && retained(items, keep, upto)[x] == items[place]
            },
        forall|x: int, y: int|
            0 <= x < y < retained_places(keep, upto).len() ==> retained_places(keep, upto)[x]
                < retained_places(keep, upto)[y],
        forall|place: int|
            0 <= place < upto && keep[place] ==> retained_places(keep, upto).contains(place),
    decreases upto,
{
    if upto > 0 {
        let before = (upto - 1) as nat;
        lemma_retained_keeps_order(items, keep, before);
        let earlier = retained_places(keep, before);
        let places = retained_places(keep, upto);
        assert forall|place: int| 0 <= place < upto && keep[place] implies places.contains(
            place,
        ) by {
            if place < before {
                assert(earlier.contains(place));
                let x = choose|x: int| 0 <= x < earlier.len() && earlier[x] == place;
                assert(places[x] == place);
            } else {
                assert(places[places.len() - 1] == place);
            }
        }
    }
}

/// A sphere is cut from the cube of the same parameters: each of its sites
/// is a site of that cube and was accepted by the membership test, and it has
/// no more sites than the cube.
pub proof fn lemma_selection_within_cube<F: Fn(GridPoint) -> bool>(
    inside: F,
    steps: nat,
    sites: Seq<GridPoint>,
)
    requires
        is_selection(inside, steps, sites),
    ensures
        sites.len() <= site_count(steps),
        forall|x: int|
            0 <= x < sites.len() ==> cube_sites(steps).contains(#[trigger] sites[x])
                && call_ensures(inside, (sites[x],), true),
{
    let keep = choose|keep: Seq<bool>| #[trigger]
        answers_of(inside, steps, keep) && sites == retained(
            cube_sites(steps),
            keep,
            site_count(steps),
        );
    let all = cube_sites(steps);
    lemma_retained_keeps_order(all, keep, site_count(steps));
    let places = retained_places(keep, site_count(steps));
    assert forall|x: int| 0 <= x < sites.len() implies all.contains(#[trigger] sites[x])
        && call_ensures(inside, (sites[x],), true) by {
        let place = places[x];
        assert(all[place] == sites[x]);
        assert(call_ensures(inside, (site_at(steps, place),), keep[place]));
    }
}

/// After the last site of a row comes the first of the next row.
proof fn lemma_next_row(steps: nat, i: nat, j: nat)
    ensures
        position_of(steps, i, j, steps) == position_of(steps, i, j + 1, 0),
{
    assert((i * steps + j) * steps + steps == (i * steps + (j + 1)) * steps) by (nonlinear_arith);
}

/// After the last row of a plane comes the first of the next plane.
proof fn lemma_next_plane(steps: nat, i: nat)
    ensures
        position_of(steps, i, steps, 0) == position_of(steps, i + 1, 0, 0),
{
    assert((i * steps + steps) * steps == ((i + 1) * steps + 0) * steps) by (nonlinear_arith);
}

/// After the last plane the grid is complete.
proof fn lemma_all_planes(steps: nat)
    ensures
        position_of(steps, steps, 0, 0) == site_count(steps),
{
    assert((steps * steps + 0) * steps + 0 == steps * steps * steps) by (nonlinear_arith);
}

} // verus!
