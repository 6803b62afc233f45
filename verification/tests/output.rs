use eyetrack::output::{ModelOutput, ModelOutputResult, Scalar};

fn scalar(x: f32) -> Scalar {
    Scalar { bits: x.to_bits() }
}

fn ten() -> Vec<Scalar> {
    (1..=10).map(|i| scalar(i as f32)).collect()
}

#[test]
fn values_are_named_in_order() {
    let output = ModelOutput::from_values(&ten());
    assert_eq!(output.pitch_l, scalar(1.0));
    assert_eq!(output.yaw_l, scalar(2.0));
    assert_eq!(output.blink_l, scalar(3.0));
    assert_eq!(output.eyebrow_l, scalar(4.0));
    assert_eq!(output.eyewide_l, scalar(5.0));
    assert_eq!(output.pitch_r, scalar(6.0));
    assert_eq!(output.yaw_r, scalar(7.0));
    assert_eq!(output.blink_r, scalar(8.0));
    assert_eq!(output.eyebrow_r, scalar(9.0));
    assert_eq!(output.eyewide_r, scalar(10.0));
}

#[test]
fn values_behind_the_tenth_are_not_read() {
    let mut longer = ten();
    longer.push(scalar(11.0));
    assert_eq!(ModelOutput::from_values(&longer), ModelOutput::from_values(&ten()));
}

#[test]
fn default_output_is_zero() {
    let zeros = vec![scalar(0.0); 10];
    assert_eq!(ModelOutput::default(), ModelOutput::from_values(&zeros));
    assert_eq!(f32::from_bits(ModelOutput::default().blink_r.bits), 0.0);
}

#[test]
fn an_error_gives_back_its_message_only() {
    let result = ModelOutputResult::from_error("no such file".to_string());
    assert!(result.is_error());
    assert_eq!(result.get_error_message(), Some("no such file".to_string()));
    assert_eq!(result.get_model_output(), None);
}

#[test]
fn an_empty_message_is_still_an_error() {
    let result = ModelOutputResult::from_error(String::new());
    assert!(result.is_error());
    assert_eq!(result.get_error_message(), Some(String::new()));
}

#[test]
fn an_output_gives_back_its_values_only() {
    let output = ModelOutput::from_values(&ten());
    let result = ModelOutputResult::from_output(output);
    assert!(!result.is_error());
    assert_eq!(result.get_model_output(), Some(output));
    assert_eq!(result.get_error_message(), None);
}
