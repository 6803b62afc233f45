use eyetrack::equalize::equalize_histogram;
use eyetrack::frames::EyeFrames;
use eyetrack::inference::{InferenceSession, WindowedFrame};
use eyetrack::output::{ModelOutput, Scalar};

/// A camera image that differs from the others in one dark column.
fn shot(column: usize) -> [u8; 16384] {
    let mut data = [200u8; 16384];
    for row in 0..128 {
        data[row * 128 + column] = 10;
        data[row * 128 + (column + 1) % 128] = (row / 2) as u8;
    }
    data
}

fn equalized(column: usize) -> Vec<u8> {
    equalize_histogram(&shot(column)).pixels
}

fn black() -> Vec<u8> {
    vec![0; 16384]
}

fn left_pixels(frame: &WindowedFrame) -> Vec<Vec<u8>> {
    frame.left_eye.iter().map(|image| image.pixels.clone()).collect()
}

fn right_pixels(frame: &WindowedFrame) -> Vec<Vec<u8>> {
    frame.right_eye.iter().map(|image| image.pixels.clone()).collect()
}

fn values(first: f32) -> Vec<Scalar> {
    (0..10).map(|i| Scalar { bits: (first + i as f32).to_bits() }).collect()
}

#[test]
fn a_window_fills_from_the_front() {
    let mut frames = EyeFrames::new();
    assert!(frames.window().iter().all(|image| image.pixels == black()));
    frames.push(&shot(1));
    frames.push(&shot(2));
    let window = frames.window();
    assert_eq!(window[0].pixels, equalized(1));
    assert_eq!(window[1].pixels, equalized(2));
    assert_eq!(window[2].pixels, black());
    assert_eq!(window[3].pixels, black());
}

#[test]
fn a_full_window_forgets_the_oldest() {
    let mut frames = EyeFrames::new();
    for column in 1..=6 {
        frames.push(&shot(column));
    }
    let window = frames.window();
    for i in 0..4 {
        assert_eq!(window[i].pixels, equalized(3 + i));
        assert_eq!((window[i].width, window[i].height), (128, 128));
    }
}

#[test]
fn without_a_model_every_inference_is_refused() {
    let mut session: InferenceSession<u8> = InferenceSession::new();
    let message = "Model is not yet initialised".to_string();
    assert_eq!(session.error_message(), Some(message.clone()));
    let refused = session.run_inference(&shot(1), &shot(2), |_, _| panic!("no model to run"));
    assert_eq!(refused, Err(message.clone()));
    let result = session.infer(&shot(1), &shot(2), |_, _| panic!("no model to run"));
    assert!(result.is_error());
    assert_eq!(result.get_error_message(), Some(message));
}

#[test]
fn a_loaded_model_sees_the_window_and_answers() {
    let mut session: InferenceSession<u8> = InferenceSession::new();
    assert_eq!(session.load_model(Ok(9)), Ok(()));
    assert_eq!(session.error_message(), None);
    let output = session.run_inference(&shot(1), &shot(2), |model: &u8, frame: &WindowedFrame| {
        assert_eq!(*model, 9);
        assert_eq!(frame.timestamp, 0);
        assert_eq!(left_pixels(frame), vec![equalized(1), black(), black(), black()]);
        assert_eq!(right_pixels(frame), vec![equalized(2), black(), black(), black()]);
        values(1.0)
    });
    assert_eq!(output, Ok(ModelOutput::from_values(&values(1.0))));
}

#[test]
fn inferences_share_the_last_four_frames() {
    let mut session: InferenceSession<u8> = InferenceSession::new();
    session.load(Ok(0));
    for i in 0..6 {
        let result = session.infer(&shot(i), &shot(i + 50), |_: &u8, frame: &WindowedFrame| {
            let first = if i < 4 { 0 } else { i - 3 };
            for k in 0..4 {
                if first + k <= i {
                    assert_eq!(frame.left_eye[k].pixels, equalized(first + k));
                    assert_eq!(frame.right_eye[k].pixels, equalized(first + k + 50));
                } else {
                    assert_eq!(frame.left_eye[k].pixels, black());
                    assert_eq!(frame.right_eye[k].pixels, black());
                }
            }
            values(i as f32)
        });
        assert_eq!(result.get_model_output(), Some(ModelOutput::from_values(&values(i as f32))));
    }
}

#[test]
fn a_load_that_succeeds_carries_zeros() {
    let mut session: InferenceSession<u8> = InferenceSession::new();
    let result = session.load(Ok(1));
    assert!(!result.is_error());
    assert_eq!(result.get_model_output(), Some(ModelOutput::default()));
}

#[test]
fn a_load_that_fails_takes_the_model_away() {
    let mut session: InferenceSession<u8> = InferenceSession::new();
    assert_eq!(session.load_model(Ok(1)), Ok(()));
    let message = "Failed to load trained model: bad data".to_string();
    let result = session.load(Err(message.clone()));
    assert_eq!(result.get_error_message(), Some(message.clone()));
    let refused = session.observe(&shot(1), &shot(2));
    assert_eq!(refused.err(), Some(message.clone()));
    assert_eq!(session.load_model(Err("other".to_string())), Err("other".to_string()));
    assert_eq!(session.error_message(), Some("other".to_string()));
}

#[test]
fn loads_and_refusals_leave_the_frames_alone() {
    let mut session: InferenceSession<u8> = InferenceSession::new();
    session.load(Ok(1));
    assert!(session.observe(&shot(1), &shot(2)).is_ok());
    session.load(Err("gone".to_string()));
    assert!(session.observe(&shot(3), &shot(4)).is_err());
    session.load(Ok(2));
    let frame = session.observe(&shot(5), &shot(6)).ok().unwrap();
    assert_eq!(left_pixels(&frame), vec![equalized(1), equalized(5), black(), black()]);
    assert_eq!(right_pixels(&frame), vec![equalized(2), equalized(6), black(), black()]);
}

#[test]
fn only_the_last_four_frames_matter() {
    let mut one: InferenceSession<u8> = InferenceSession::new();
    let mut other: InferenceSession<u8> = InferenceSession::new();
    one.load(Ok(1));
    other.load(Ok(1));
    for i in 0..3 {
        assert!(one.observe(&shot(i), &shot(i + 1)).is_ok());
    }
    let mut last = None;
    for i in 10..14 {
        let a = one.observe(&shot(i), &shot(i + 50)).ok().unwrap();
        let b = other.observe(&shot(i), &shot(i + 50)).ok().unwrap();
        last = Some((a, b));
    }
    let (a, b) = last.unwrap();
    assert_eq!(left_pixels(&a), left_pixels(&b));
    assert_eq!(right_pixels(&a), right_pixels(&b));
}

#[test]
fn exchanged_cameras_exchange_the_windows() {
    let mut one: InferenceSession<u8> = InferenceSession::new();
    let mut other: InferenceSession<u8> = InferenceSession::new();
    one.load(Ok(1));
    other.load(Ok(1));
    for i in 0..5 {
        let a = one.observe(&shot(i), &shot(i + 50)).ok().unwrap();
        let b = other.observe(&shot(i + 50), &shot(i)).ok().unwrap();
        assert_eq!(left_pixels(&a), right_pixels(&b));
        assert_eq!(right_pixels(&a), left_pixels(&b));
    }
}

#[test]
fn only_the_loaded_model_has_to_run() {
    let forward = |model: &u8, _: &WindowedFrame| -> Vec<Scalar> {
        assert_eq!(*model, 3);
        values(2.0)
    };
    let mut session: InferenceSession<u8> = InferenceSession::new();
    assert!(session.run_inference(&shot(1), &shot(2), forward).is_err());
    session.load(Ok(3));
    let output = session.run_inference(&shot(1), &shot(2), forward);
    assert_eq!(output, Ok(ModelOutput::from_values(&values(2.0))));
}
