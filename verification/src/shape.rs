//! The outlines to which a lattice can be cut.
use vstd::prelude::*;
use crate::error::DseError;

verus! {

/// The outline of a crystal.
#[derive(Clone, Copy, Debug, PartialEq, Eq, Structural)]
pub enum Shape {
    /// Every site of the cubic grid.
    Cube,
    /// The sites of the cubic grid that lie within the inscribed ball.
    Sphere,
}

/// The shape that a name stands for, if any. Names are matched exactly.
pub open spec fn shape_named(name: Seq<char>) -> Option<Shape> {
    if name == "cube"@ {
        Some(Shape::Cube)
    } else if name == "sphere"@ {
        Some(Shape::Sphere)
    } else {
        None
    }
}

/// Reads a shape name. Any name but `cube` and `sphere` is rejected, and the
/// error carries the name as it was given.
pub fn parse_shape(name: &str) -> (r: Result<Shape, DseError>)
    ensures
        match shape_named(name@) {
            Some(shape) => r == Ok::<Shape, DseError>(shape),
            None => r matches Err(DseError::InvalidShape(given)) && given@ == name@,
        },
{
    let given = name.to_owned();
    let cube = "cube".to_owned();
    let sphere = "sphere".to_owned();
    if given == cube {
        Ok(Shape::Cube)
    } else if given == sphere {
        Ok(Shape::Sphere)
    } else {
        Err(DseError::InvalidShape(given))
    }
}

} // verus!
