use debye_scattering::error::DseError;

#[test]
fn invalid_shape_message_names_the_value_and_the_supported_set() {
    let message = DseError::InvalidShape("torus".to_string()).message();
    assert_eq!(message, "Unknown shape: 'torus'. Supported shapes: 'cube', 'sphere'");
}

#[test]
fn invalid_shape_message_of_an_empty_name() {
    let message = DseError::InvalidShape(String::new()).message();
    assert_eq!(message, "Unknown shape: ''. Supported shapes: 'cube', 'sphere'");
}

#[test]
fn invalid_parameter_message() {
    assert_eq!(
        DseError::InvalidParameter.message(),
        "Invalid parameter: lattice_param and length must be greater than zero"
    );
}

#[test]
fn invalid_range_message() {
    assert_eq!(
        DseError::InvalidRange.message(),
        "Invalid range: q_step must be greater than zero and max_q greater than min_q"
    );
}
