//! The reasons for which a request is rejected.
use vstd::prelude::*;
use vstd::string::StringExecFns;

verus! {

/// Why a lattice or a curve could not be produced.
#[derive(Debug, PartialEq, Eq)]
pub enum DseError {
    /// The shape name is neither `cube` nor `sphere`; holds the name as given.
    InvalidShape(String),
    /// The lattice spacing or the edge length is not greater than zero.
    InvalidParameter,
    /// The step in `q` is not greater than zero, or the upper end of the
    /// range does not lie above the lower end.
    InvalidRange,
}

/// The text that reports an unknown shape name.
pub open spec fn invalid_shape_text(name: Seq<char>) -> Seq<char> {
    "Unknown shape: '"@ + name + "'. Supported shapes: 'cube', 'sphere'"@
}

impl DseError {
    /// The text of the message that `message` returns.
    pub open spec fn text(&self) -> Seq<char> {
        match self {
            DseError::InvalidShape(name) => invalid_shape_text(name@),
            DseError::InvalidParameter => "Invalid parameter: lattice_param and length must be greater than zero"@,
            DseError::InvalidRange => "Invalid range: q_step must be greater than zero and max_q greater than min_q"@,
        }
    }

    /// A message for the caller; for an unknown shape it names the offending
    /// value and the supported set.
    pub fn message(&self) -> (text: String)
        ensures
            text@ == self.text(),
    {
        match self {
            DseError::InvalidShape(name) => {
                let mut text = String::from_str("Unknown shape: '");
                text.append(name.as_str());
                text.append("'. Supported shapes: 'cube', 'sphere'");
                text
            },
            DseError::InvalidParameter => String::from_str(
                "Invalid parameter: lattice_param and length must be greater than zero",
            ),
            DseError::InvalidRange => String::from_str(
                "Invalid range: q_step must be greater than zero and max_q greater than min_q",
            ),
        }
    }
}

} // verus!
