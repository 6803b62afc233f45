use eyetrack::output::Scalar;
use eyetrack::training::{
    CallbackType, TrainingDataCallback, TrainingEvent, TrainingPhase, TrainingRun,
};

fn loss(x: f32) -> Scalar {
    Scalar { bits: x.to_bits() }
}

fn report(callback_type: CallbackType, low: i32, high: i32, x: f32) -> TrainingDataCallback {
    TrainingDataCallback { callback_type, low, high, loss: loss(x) }
}

fn read(train_size: usize, test_size: usize) -> TrainingEvent {
    TrainingEvent::CaptureRead { train_size, test_size }
}

fn batch(x: f32) -> TrainingEvent {
    TrainingEvent::Batch { loss: loss(x) }
}

fn reports(run: &mut TrainingRun, events: &[TrainingEvent]) -> Vec<TrainingDataCallback> {
    events.iter().filter_map(|event| run.step(*event).callback).collect()
}

#[test]
fn codes_of_the_reports() {
    assert_eq!(CallbackType::Batch.code(), 0);
    assert_eq!(CallbackType::Epoch.code(), 1);
    assert_eq!(CallbackType::Finished.code(), 2);
}

#[test]
fn a_whole_run() {
    let mut run = TrainingRun::new(2, 32);
    let mut events = vec![read(80, 20)];
    for _ in 0..2 {
        events.extend([batch(3.0), batch(2.0), batch(1.0), TrainingEvent::EndOfBatches]);
        events.extend([batch(0.5), TrainingEvent::EndOfBatches]);
    }
    events.push(TrainingEvent::ModelSaved);
    let mut expected = Vec::new();
    for epoch in 1..=2 {
        expected.push(report(CallbackType::Epoch, epoch, 2, 0.0));
        expected.push(report(CallbackType::Batch, 0, 100, 3.0));
        expected.push(report(CallbackType::Batch, 32, 100, 2.0));
        expected.push(report(CallbackType::Batch, 64, 100, 1.0));
        expected.push(report(CallbackType::Batch, 80, 100, 0.5));
    }
    expected.push(report(CallbackType::Finished, 0, 0, 0.0));
    assert_eq!(reports(&mut run, &events), expected);
    assert_eq!(run.phase, TrainingPhase::Finished);
}

#[test]
fn only_training_batches_teach() {
    let mut run = TrainingRun::new(1, 4);
    assert!(!run.step(read(8, 2)).update_model);
    assert!(run.step(batch(1.0)).update_model);
    assert!(!run.step(TrainingEvent::EndOfBatches).update_model);
    assert!(!run.step(batch(1.0)).update_model);
    assert!(!run.step(TrainingEvent::EndOfBatches).update_model);
    assert_eq!(run.phase, TrainingPhase::Saving);
}

#[test]
fn a_run_without_epochs_is_saved_at_once() {
    let mut run = TrainingRun::new(0, 4);
    assert_eq!(reports(&mut run, &[read(8, 2)]), vec![]);
    assert_eq!(run.phase, TrainingPhase::Saving);
    assert_eq!(
        reports(&mut run, &[TrainingEvent::ModelSaved]),
        vec![report(CallbackType::Finished, 0, 0, 0.0)]
    );
}

#[test]
fn a_run_without_windows_reports_its_epochs() {
    let mut run = TrainingRun::new(2, 4);
    let end = TrainingEvent::EndOfBatches;
    let events = [read(0, 0), end, end, end, end, TrainingEvent::ModelSaved];
    assert_eq!(
        reports(&mut run, &events),
        vec![
            report(CallbackType::Epoch, 1, 2, 0.0),
            report(CallbackType::Epoch, 2, 2, 0.0),
            report(CallbackType::Finished, 0, 0, 0.0),
        ]
    );
}

#[test]
fn a_capture_that_cannot_be_read_ends_in_silence() {
    let mut run = TrainingRun::new(3, 4);
    let events = [
        TrainingEvent::CaptureFailed,
        read(8, 2),
        batch(1.0),
        TrainingEvent::EndOfBatches,
        TrainingEvent::ModelSaved,
    ];
    assert_eq!(reports(&mut run, &events), vec![]);
    assert_eq!(run.phase, TrainingPhase::Failed);
}

#[test]
fn nothing_follows_the_last_report() {
    let mut run = TrainingRun::new(0, 4);
    reports(&mut run, &[read(8, 2), TrainingEvent::ModelSaved]);
    let late = [batch(1.0), TrainingEvent::EndOfBatches, read(1, 1), TrainingEvent::ModelSaved];
    assert_eq!(reports(&mut run, &late), vec![]);
}

#[test]
fn progress_is_cut_to_32_bits() {
    let mut run = TrainingRun::new(1, 2_147_483_648);
    let events = [read(3_000_000_000, 2_000_000_000), batch(0.0), batch(0.0), batch(0.0)];
    let low: Vec<i32> = reports(&mut run, &events).iter().map(|report| report.low).collect();
    assert_eq!(low, vec![1, 0, -2_147_483_648, 0]);
    let high = run.step(batch(0.0)).callback.unwrap().high;
    assert_eq!(high, 705_032_704);
}

#[test]
fn batches_are_counted_as_far_as_the_machine_can() {
    let mut run = TrainingRun::new(1, usize::MAX);
    run.step(read(8, 2));
    assert!(run.can_count_batch());
    run.step(batch(1.0));
    assert!(run.can_count_batch());
    run.step(batch(1.0));
    assert!(!run.can_count_batch());
    run.step(TrainingEvent::EndOfBatches);
    assert!(run.can_count_batch());
    run.step(batch(1.0));
    assert!(!run.can_count_batch());
}

#[test]
fn reports_depend_on_counts() {
    let kinds = |first: f32| -> Vec<(CallbackType, i32, i32)> {
        let mut run = TrainingRun::new(1, 4);
        let events = [
            read(8, 2),
            batch(first),
            batch(first + 1.0),
            TrainingEvent::EndOfBatches,
            batch(first + 2.0),
            TrainingEvent::EndOfBatches,
            TrainingEvent::ModelSaved,
        ];
        reports(&mut run, &events).iter().map(|r| (r.callback_type, r.low, r.high)).collect()
    };
    assert_eq!(kinds(1.0), kinds(7.0));
    assert_eq!(kinds(1.0).len(), 5);
}
