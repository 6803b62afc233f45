//! The course of a training run, and what it reports on the way.
use vstd::prelude::*;

use crate::output::Scalar;
use crate::split::{is_split, law_split_sizes};

verus! {

/// What a callback reports.
#[derive(Debug, Clone, Copy, PartialEq, Eq, Structural)]
pub enum CallbackType {
    /// A batch was passed through the model.
    Batch,
    /// An epoch begins.
    Epoch,
    /// The training is over.
    Finished,
}

impl CallbackType {
    /// The number that stands for the kind of report.
    pub fn code(self) -> (r: u8)
        ensures
            r == (match self {
                CallbackType::Batch => 0u8,
                CallbackType::Epoch => 1u8,
                CallbackType::Finished => 2u8,
            }),
    {
        match self {
            CallbackType::Batch => 0,
            CallbackType::Epoch => 1,
            CallbackType::Finished => 2,
        }
    }
}

/// One report: how far the training has come, and the loss of a batch.
#[derive(Debug, Clone, Copy, PartialEq, Eq, Structural)]
pub struct TrainingDataCallback {
    pub callback_type: CallbackType,
    pub low: i32,
    pub high: i32,
    pub loss: Scalar,
}

/// `x` in 32 bits with a sign: what is too large wraps around.
pub open spec fn wrap_i32(x: int) -> i32 {
    let m = x % 0x1_0000_0000;
    if m < 0x8000_0000 {
        m as i32
    } else {
        (m - 0x1_0000_0000) as i32
    }
}

/// Keeps the low 32 bits of `x`.
fn to_i32(x: usize) -> (r: i32)
    ensures
        r == wrap_i32(x as int),
{
    let wide: u64 = x as u64;
    assert(wide % 0x1_0000_0000 < 0x8000_0000 ==> (wide as i32) == wide % 0x1_0000_0000)
        by (bit_vector);
    assert(wide % 0x1_0000_0000 >= 0x8000_0000 ==> (wide as i32) == wide % 0x1_0000_0000
        - 0x1_0000_0000) by (bit_vector);
    #[verifier::truncate]
    let r: i32 = wide as i32;
    r
}

/// What a training run is doing.
#[derive(Debug, Clone, Copy, PartialEq, Eq, Structural)]
pub enum TrainingPhase {
    /// Reading the captured frames.
    Reading,
    /// Passing the batches of the training share through the model.
    Training,
    /// Passing the batches of the testing share through the model.
    Validating,
    /// Writing the model down.
    Saving,
    /// Done.
    Finished,
    /// Given up, since there was nothing to read.
    Failed,
}

/// What happens to a training run.
#[derive(Debug, Clone, Copy, PartialEq, Eq, Structural)]
pub enum TrainingEvent {
    /// The frames were read and split into so many windows to train on and to
    /// test on.
    CaptureRead { train_size: usize, test_size: usize },
    /// The frames could not be read.
    CaptureFailed,
    /// A batch was passed through the model, with this loss.
    Batch { loss: Scalar },
    /// There is no further batch in this pass.
    EndOfBatches,
    /// The model was written down.
    ModelSaved,
}

/// What follows from an event.
#[derive(Debug, Clone, Copy, PartialEq, Eq, Structural)]
pub struct TrainingStep {
    /// The report to send, if any.
    pub callback: Option<TrainingDataCallback>,
    /// Whether the model has to learn from the batch, after the report.
    pub update_model: bool,
}

/// A training run between two events.
#[derive(Debug, Clone, Copy, PartialEq, Eq, Structural)]
pub struct TrainingRun {
    /// How often the training share is gone through.
    pub num_epochs: usize,
    /// How many windows make a batch.
    pub batch_size: usize,
    /// How many windows there are to train on.
    pub train_size: usize,
    /// How many windows there are to test on.
    pub test_size: usize,
    pub phase: TrainingPhase,
    /// The epoch that has begun last, from 1; 0 before the first.
    pub epoch: usize,
    /// How many batches of this pass are through.
    pub iteration: usize,
}

/// The report that epoch `epoch` of `num_epochs` begins.
pub open spec fn epoch_callback(epoch: int, num_epochs: int) -> TrainingDataCallback {
    TrainingDataCallback {
        callback_type: CallbackType::Epoch,
        low: wrap_i32(epoch),
        high: wrap_i32(num_epochs),
        loss: Scalar { bits: 0 },
    }
}

/// The report on a batch in front of which `done` of `total` windows were gone
/// through.
pub open spec fn batch_callback(done: int, total: int, loss: Scalar) -> TrainingDataCallback {
    TrainingDataCallback {
        callback_type: CallbackType::Batch,
        low: wrap_i32(done),
        high: wrap_i32(total),
        loss,
    }
}

/// The report that the training is over.
pub open spec fn finished_callback() -> TrainingDataCallback {
    TrainingDataCallback {
        callback_type: CallbackType::Finished,
        low: 0,
        high: 0,
        loss: Scalar { bits: 0 },
    }
}

impl TrainingRun {
    /// The counters are within their bounds.
    pub open spec fn well_formed(self) -> bool {
        &&& self.epoch <= self.num_epochs < usize::MAX
        &&& self.train_size + self.test_size <= usize::MAX
    }

    /// How many windows of this epoch are gone through, if all batches are
    /// full: those of the training share come first.
    pub open spec fn done(self) -> int {
        if self.phase == TrainingPhase::Validating {
            self.train_size + self.iteration * self.batch_size
        } else {
            self.iteration * self.batch_size
        }
    }

    /// The machine can count what the event brings.
    pub open spec fn can_count(self, event: TrainingEvent) -> bool {
        match event {
            TrainingEvent::CaptureRead { train_size, test_size } => self.phase
                == TrainingPhase::Reading ==> train_size + test_size <= usize::MAX,
            TrainingEvent::Batch { loss } => self.done() <= usize::MAX && self.iteration
                < usize::MAX,
            _ => true,
        }
    }

    /// The run when the next epoch begins, or when there is none left.
    pub open spec fn next_epoch(self) -> TrainingRun {
        if self.epoch < self.num_epochs {
            TrainingRun {
                phase: TrainingPhase::Training,
                epoch: (self.epoch + 1) as usize,
                iteration: 0,
                ..self
            }
        } else {
            TrainingRun { phase: TrainingPhase::Saving, iteration: 0, ..self }
        }
    }

    /// The report on the next epoch, if there is one.
    pub open spec fn next_epoch_callback(self) -> Option<TrainingDataCallback> {
        if self.epoch < self.num_epochs {
            Some(epoch_callback(self.epoch + 1, self.num_epochs as int))
        } else {
            None
        }
    }

    /// The run after an event. One that does not belong to the phase changes
    /// nothing.
    pub open spec fn after(self, event: TrainingEvent) -> TrainingRun {
        match (self.phase, event) {
            (
                TrainingPhase::Reading,
                TrainingEvent::CaptureRead { train_size, test_size },
            ) => TrainingRun { train_size, test_size, ..self }.next_epoch(),
            (TrainingPhase::Reading, TrainingEvent::CaptureFailed) => TrainingRun {
                phase: TrainingPhase::Failed,
                ..self
            },
            (TrainingPhase::Training, TrainingEvent::Batch { loss }) => TrainingRun {
                iteration: (self.iteration + 1) as usize,
                ..self
            },
            (TrainingPhase::Training, TrainingEvent::EndOfBatches) => TrainingRun {
                phase: TrainingPhase::Validating,
                iteration: 0,
                ..self
            },
            (TrainingPhase::Validating, TrainingEvent::Batch { loss }) => TrainingRun {
                iteration: (self.iteration + 1) as usize,
                ..self
            },
            (TrainingPhase::Validating, TrainingEvent::EndOfBatches) => self.next_epoch(),
            (TrainingPhase::Saving, TrainingEvent::ModelSaved) => TrainingRun {
                phase: TrainingPhase::Finished,
                ..self
            },
            _ => self,
        }
    }

    /// What is reported on an event.
    pub open spec fn callback(self, event: TrainingEvent) -> Option<TrainingDataCallback> {
        match (self.phase, event) {
            (
                TrainingPhase::Reading,
                TrainingEvent::CaptureRead { train_size, test_size },
            ) => self.next_epoch_callback(),
            (TrainingPhase::Training, TrainingEvent::Batch { loss }) => Some(
                batch_callback(self.done(), self.train_size + self.test_size, loss),
            ),
            (TrainingPhase::Validating, TrainingEvent::Batch { loss }) => Some(
                batch_callback(self.done(), self.train_size + self.test_size, loss),
            ),
            (TrainingPhase::Validating, TrainingEvent::EndOfBatches) => self.next_epoch_callback(),
            (TrainingPhase::Saving, TrainingEvent::ModelSaved) => Some(finished_callback()),
            _ => None,
        }
    }

    /// A run of `num_epochs` epochs, before anything has happened.
    pub fn new(num_epochs: usize, batch_size: usize) -> (r: TrainingRun)
        requires
            num_epochs < usize::MAX,
        ensures
            r == initial_run(num_epochs, batch_size),
            r.num_epochs == num_epochs,
            r.batch_size == batch_size,
            r.well_formed(),
    {
        TrainingRun {
            num_epochs,
            batch_size,
            train_size: 0,
            test_size: 0,
            phase: TrainingPhase::Reading,
            epoch: 0,
            iteration: 0,
        }
    }

    /// Whether the machine can count one more batch of this pass.
    pub fn can_count_batch(&self) -> (r: bool)
        ensures
            forall|loss: Scalar| #[trigger]
                self.can_count(TrainingEvent::Batch { loss }) == r,
    {
        let offset: usize = match self.phase {
            TrainingPhase::Validating => self.train_size,
            _ => 0,
        };
        assert(self.iteration * self.batch_size >= 0) by (nonlinear_arith)
            requires
                self.iteration >= 0,
                self.batch_size >= 0,
        ;
        match self.iteration.checked_mul(self.batch_size) {
            Some(passed) => match passed.checked_add(offset) {
                Some(_) => self.iteration < usize::MAX,
                None => false,
            },
            None => false,
        }
    }

    /// Begins the next epoch, or has the model written down.
    fn begin_epoch(&mut self) -> (r: Option<TrainingDataCallback>)
        requires
            old(self).well_formed(),
        ensures
            *final(self) == old(self).next_epoch(),
            final(self).well_formed(),
            r == old(self).next_epoch_callback(),
    {
        self.iteration = 0;
        if self.epoch < self.num_epochs {
            self.phase = TrainingPhase::Training;
            self.epoch = self.epoch + 1;
            Some(
                TrainingDataCallback {
                    callback_type: CallbackType::Epoch,
                    low: to_i32(self.epoch),
                    high: to_i32(self.num_epochs),
                    loss: Scalar::zero(),
                },
            )
        } else {
            self.phase = TrainingPhase::Saving;
            None
        }
    }

    /// Counts a batch, of the pass in front of which `offset` windows lie.
    fn count_batch(&mut self, offset: usize, loss: Scalar) -> (r: TrainingDataCallback)
        requires
            old(self).well_formed(),
            offset + old(self).iteration * old(self).batch_size <= usize::MAX,
            old(self).iteration < usize::MAX,
        ensures
            *final(self) == (TrainingRun {
                iteration: (old(self).iteration + 1) as usize,
                ..*old(self)
            }),
            r == batch_callback(
                offset + old(self).iteration * old(self).batch_size,
                old(self).train_size + old(self).test_size,
                loss,
            ),
            r.loss == loss,
    {
        assert(self.iteration * self.batch_size >= 0) by (nonlinear_arith)
            requires
                self.iteration >= 0,
                self.batch_size >= 0,
        ;
        let r: TrainingDataCallback = TrainingDataCallback {
            callback_type: CallbackType::Batch,
            low: to_i32(offset + self.iteration * self.batch_size),
            high: to_i32(self.train_size + self.test_size),
            loss,
        };
        self.iteration = self.iteration + 1;
        r
    }

    /// Goes on with an event: says what to report and whether the model has to
    /// learn from the batch.
    pub fn step(&mut self, event: TrainingEvent) -> (r: TrainingStep)
        requires
            old(self).well_formed(),
            old(self).can_count(event),
        ensures
            final(self).well_formed(),
            *final(self) == old(self).after(event),
            r.callback == old(self).callback(event),
            r.update_model == (old(self).phase == TrainingPhase::Training && event is Batch),
            event is Batch && (old(self).phase == TrainingPhase::Training || old(self).phase
                == TrainingPhase::Validating) ==> r.callback is Some && r.callback->0.loss
                == event->loss,
    {
        match (self.phase, event) {
            (TrainingPhase::Reading, TrainingEvent::CaptureRead { train_size, test_size }) => {
                self.train_size = train_size;
                self.test_size = test_size;
                TrainingStep { callback: self.begin_epoch(), update_model: false }
            },
            (TrainingPhase::Reading, TrainingEvent::CaptureFailed) => {
                self.phase = TrainingPhase::Failed;
                TrainingStep { callback: None, update_model: false }
            },
            (TrainingPhase::Training, TrainingEvent::Batch { loss }) => {
                TrainingStep { callback: Some(self.count_batch(0, loss)), update_model: true }
            },
            (TrainingPhase::Training, TrainingEvent::EndOfBatches) => {
                self.phase = TrainingPhase::Validating;
                self.iteration = 0;
                TrainingStep { callback: None, update_model: false }
            },
            (TrainingPhase::Validating, TrainingEvent::Batch { loss }) => {
                let offset: usize = self.train_size;
                TrainingStep { callback: Some(self.count_batch(offset, loss)), update_model: false }
            },
            (TrainingPhase::Validating, TrainingEvent::EndOfBatches) => {
                TrainingStep { callback: self.begin_epoch(), update_model: false }
            },
            (TrainingPhase::Saving, TrainingEvent::ModelSaved) => {
                self.phase = TrainingPhase::Finished;
                TrainingStep {
                    callback: Some(
                        TrainingDataCallback {
                            callback_type: CallbackType::Finished,
                            low: 0,
                            high: 0,
                            loss: Scalar::zero(),
                        },
                    ),
                    update_model: false,
                }
            },
            _ => TrainingStep { callback: None, update_model: false },
        }
    }
}

/// A run before anything has happened.
pub open spec fn initial_run(num_epochs: usize, batch_size: usize) -> TrainingRun {
    TrainingRun {
        num_epochs,
        batch_size,
        train_size: 0,
        test_size: 0,
        phase: TrainingPhase::Reading,
        epoch: 0,
        iteration: 0,
    }
}

/// The run after several events.
pub open spec fn run_after(run: TrainingRun, events: Seq<TrainingEvent>) -> TrainingRun
    decreases events.len(),
{
    if events.len() == 0 {
        run
    } else {
        run_after(run.after(events[0]), events.skip(1))
    }
}

/// All that is reported on several events, in order.
pub open spec fn reports(run: TrainingRun, events: Seq<TrainingEvent>) -> Seq<TrainingDataCallback>
    decreases events.len(),
{
    if events.len() == 0 {
        Seq::empty()
    } else {
        let rest = reports(run.after(events[0]), events.skip(1));
        match run.callback(events[0]) {
            Some(callback) => seq![callback] + rest,
            None => rest,
        }
    }
}

/// The losses of the batches of one epoch.
pub ghost struct EpochLosses {
    pub train: Seq<Scalar>,
    pub test: Seq<Scalar>,
}

impl EpochLosses {
    /// The batches of both passes can be counted.
    pub open spec fn can_count(self) -> bool {
        self.train.len() <= usize::MAX && self.test.len() <= usize::MAX
    }
}

/// The events of batches with the losses `losses`.
pub open spec fn batch_events(losses: Seq<Scalar>) -> Seq<TrainingEvent> {
    Seq::new(losses.len(), |i: int| TrainingEvent::Batch { loss: losses[i] })
}

/// The events of one epoch: the batches to train on, then those to test on.
pub open spec fn epoch_events(losses: EpochLosses) -> Seq<TrainingEvent> {
    batch_events(losses.train) + seq![TrainingEvent::EndOfBatches] + batch_events(losses.test)
        + seq![TrainingEvent::EndOfBatches]
}

/// The events of several epochs.
pub open spec fn all_epoch_events(epochs: Seq<EpochLosses>) -> Seq<TrainingEvent>
    decreases epochs.len(),
{
    if epochs.len() == 0 {
        Seq::empty()
    } else {
        epoch_events(epochs[0]) + all_epoch_events(epochs.skip(1))
    }
}

/// The events of a run that is not disturbed.
pub open spec fn run_events(
    train_size: usize,
    test_size: usize,
    epochs: Seq<EpochLosses>,
) -> Seq<TrainingEvent> {
    seq![TrainingEvent::CaptureRead { train_size, test_size }] + all_epoch_events(epochs)
        + seq![TrainingEvent::ModelSaved]
}

/// The reports on batches with the losses `losses`, in front of the first of
/// which `offset` windows lie: `low` grows by a batch from each to the next.
pub open spec fn batch_reports(
    offset: int,
    batch_size: int,
    total: int,
    losses: Seq<Scalar>,
) -> Seq<TrainingDataCallback> {
    Seq::new(losses.len(), |i: int| batch_callback(offset + i * batch_size, total, losses[i]))
}

/// The reports on one epoch behind the one that it begins.
pub open spec fn pass_reports(run: TrainingRun, losses: EpochLosses) -> Seq<TrainingDataCallback> {
    let total = run.train_size + run.test_size;
    batch_reports(0, run.batch_size as int, total, losses.train) + batch_reports(
        run.train_size as int,
        run.batch_size as int,
        total,
        losses.test,
    )
}

/// The reports on the epochs from `first` on, each with the one that it begins.
pub open spec fn epoch_reports(
    run: TrainingRun,
    first: int,
    epochs: Seq<EpochLosses>,
) -> Seq<TrainingDataCallback>
    decreases epochs.len(),
{
    if epochs.len() == 0 {
        Seq::empty()
    } else {
        seq![epoch_callback(first, run.num_epochs as int)] + pass_reports(run, epochs[0])
            + epoch_reports(run, first + 1, epochs.skip(1))
    }
}

proof fn lemma_reports_split(run: TrainingRun, a: Seq<TrainingEvent>, b: Seq<TrainingEvent>)
    ensures
        run_after(run, a + b) == run_after(run_after(run, a), b),
        reports(run, a + b) == reports(run, a) + reports(run_after(run, a), b),
    decreases a.len(),
{
    if a.len() == 0 {
        assert(a + b =~= b);
        assert(reports(run, a + b) =~= reports(run, a) + reports(run_after(run, a), b));
    } else {
        assert((a + b).skip(1) =~= a.skip(1) + b);
        lemma_reports_split(run.after(a[0]), a.skip(1), b);
        assert(reports(run, a + b) =~= reports(run, a) + reports(run_after(run, a), b));
    }
}

proof fn lemma_one_event(run: TrainingRun, event: TrainingEvent)
    ensures
        run_after(run, seq![event]) == run.after(event),
        reports(run, seq![event]) == (match run.callback(event) {
            Some(callback) => seq![callback],
            None => Seq::empty(),
        }),
{
    let none = seq![event].skip(1);
    assert(none.len() == 0);
    reveal_with_fuel(run_after, 2);
    reveal_with_fuel(reports, 2);
    assert(reports(run, seq![event]) =~= (match run.callback(event) {
        Some(callback) => seq![callback],
        None => Seq::empty(),
    }));
}

proof fn lemma_batches(run: TrainingRun, losses: Seq<Scalar>)
    requires
        run.phase == TrainingPhase::Training || run.phase == TrainingPhase::Validating,
        run.iteration + losses.len() <= usize::MAX,
    ensures
        run_after(run, batch_events(losses)) == (TrainingRun {
            iteration: (run.iteration + losses.len()) as usize,
            ..run
        }),
        reports(run, batch_events(losses)) == batch_reports(
            run.done(),
            run.batch_size as int,
            run.train_size + run.test_size,
            losses,
        ),
    decreases losses.len(),
{
    let events = batch_events(losses);
    let total = run.train_size + run.test_size;
    let size = run.batch_size as int;
    if losses.len() > 0 {
        assert(events.skip(1) =~= batch_events(losses.skip(1)));
        let next = run.after(events[0]);
        lemma_batches(next, losses.skip(1));
        assert(next.done() == run.done() + size) by (nonlinear_arith)
            requires
                next.iteration == run.iteration + 1,
                next.batch_size == run.batch_size,
                next.train_size == run.train_size,
                next.phase == run.phase,
                size == run.batch_size,
        ;
        let whole = batch_reports(run.done(), size, total, losses);
        let rest = batch_reports(next.done(), size, total, losses.skip(1));
        assert forall|i: int| 0 <= i < rest.len() implies rest[i] == whole[i + 1] by {
            assert(next.done() + i * size == run.done() + (i + 1) * size) by (nonlinear_arith)
                requires
                    next.done() == run.done() + size,
            ;
        }
        assert(whole[0] == run.callback(events[0])->0) by {
            assert(run.done() + 0 * size == run.done()) by (nonlinear_arith);
        }
        assert(reports(run, events) =~= whole);
    } else {
        assert(reports(run, events) =~= batch_reports(run.done(), size, total, losses));
    }
}

proof fn lemma_epoch(run: TrainingRun, losses: EpochLosses)
    requires
        run.well_formed(),
        run.phase == TrainingPhase::Training,
        run.iteration == 0,
        losses.can_count(),
    ensures
        run_after(run, epoch_events(losses)) == run.next_epoch(),
        reports(run, epoch_events(losses)) == pass_reports(run, losses) + (
        match run.next_epoch_callback() {
            Some(callback) => seq![callback],
            None => Seq::empty(),
        }),
{
    let end = seq![TrainingEvent::EndOfBatches];
    let train = batch_events(losses.train);
    let test = batch_events(losses.test);
    assert(run.done() == 0) by {
        assert(0 * run.batch_size == 0) by (nonlinear_arith);
    }
    lemma_batches(run, losses.train);
    let trained = run_after(run, train);
    lemma_one_event(trained, TrainingEvent::EndOfBatches);
    let validating = trained.after(TrainingEvent::EndOfBatches);
    assert(validating.done() == run.train_size) by {
        assert(0 * run.batch_size == 0) by (nonlinear_arith);
    }
    lemma_batches(validating, losses.test);
    let tested = run_after(validating, test);
    lemma_one_event(tested, TrainingEvent::EndOfBatches);
    lemma_reports_split(run, train, end);
    lemma_reports_split(run, train + end, test);
    lemma_reports_split(run, train + end + test, end);
    assert(tested.next_epoch() == run.next_epoch());
    assert(reports(run, epoch_events(losses)) =~= pass_reports(run, losses) + (
    match run.next_epoch_callback() {
        Some(callback) => seq![callback],
        None => Seq::empty(),
    }));
}

proof fn lemma_epochs(run: TrainingRun, epochs: Seq<EpochLosses>)
    requires
        run.well_formed(),
        run.phase == TrainingPhase::Training,
        run.iteration == 0,
        epochs.len() > 0,
        run.epoch + epochs.len() == run.num_epochs + 1,
        forall|i: int| 0 <= i < epochs.len() ==> (#[trigger] epochs[i]).can_count(),
    ensures
        run_after(run, all_epoch_events(epochs)) == (TrainingRun {
            phase: TrainingPhase::Saving,
            epoch: run.num_epochs,
            iteration: 0,
            ..run
        }),
        seq![epoch_callback(run.epoch as int, run.num_epochs as int)] + reports(
            run,
            all_epoch_events(epochs),
        ) == epoch_reports(run, run.epoch as int, epochs),
    decreases epochs.len(),
{
    let rest = epochs.skip(1);
    lemma_epoch(run, epochs[0]);
    lemma_reports_split(run, epoch_events(epochs[0]), all_epoch_events(rest));
    let next = run.next_epoch();
    let head = seq![epoch_callback(run.epoch as int, run.num_epochs as int)];
    if rest.len() > 0 {
        assert forall|i: int| 0 <= i < rest.len() implies (#[trigger] rest[i]).can_count() by {
            assert(epochs[i + 1].can_count());
        }
        lemma_epochs(next, rest);
        lemma_same_sizes(run, next, next.epoch as int, rest);
        assert(head + reports(run, all_epoch_events(epochs)) =~= epoch_reports(
            run,
            run.epoch as int,
            epochs,
        ));
    } else {
        assert(all_epoch_events(rest).len() == 0);
        assert(reports(next, all_epoch_events(rest)).len() == 0);
        assert(epoch_reports(run, run.epoch + 1, rest).len() == 0);
        assert(head + reports(run, all_epoch_events(epochs)) =~= epoch_reports(
            run,
            run.epoch as int,
            epochs,
        ));
    }
}

proof fn lemma_same_sizes(a: TrainingRun, b: TrainingRun, first: int, epochs: Seq<EpochLosses>)
    requires
        a.num_epochs == b.num_epochs,
        a.batch_size == b.batch_size,
        a.train_size == b.train_size,
        a.test_size == b.test_size,
    ensures
        epoch_reports(a, first, epochs) == epoch_reports(b, first, epochs),
    decreases epochs.len(),
{
    if epochs.len() > 0 {
        lemma_same_sizes(a, b, first + 1, epochs.skip(1));
    }
}

/// A run that is not disturbed ends, and reports: for each epoch its beginning,
/// with its number; then every batch, those to train on first, with the windows
/// gone through so far; and at last, once, that it is over.
pub proof fn law_undisturbed_run(
    num_epochs: usize,
    batch_size: usize,
    train_size: usize,
    test_size: usize,
    epochs: Seq<EpochLosses>,
)
    requires
        num_epochs < usize::MAX,
        train_size + test_size <= usize::MAX,
        epochs.len() == num_epochs,
        forall|i: int| 0 <= i < epochs.len() ==> (#[trigger] epochs[i]).can_count(),
    ensures
        ({
            let events = run_events(train_size, test_size, epochs);
            let begin = initial_run(num_epochs, batch_size);
            let sized = TrainingRun { train_size, test_size, ..begin };
            &&& run_after(begin, events).phase == TrainingPhase::Finished
            &&& reports(begin, events) == epoch_reports(sized, 1, epochs)
                + seq![finished_callback()]
        }),
{
    let read = TrainingEvent::CaptureRead { train_size, test_size };
    let begin = initial_run(num_epochs, batch_size);
    let sized = TrainingRun { train_size, test_size, ..begin };
    let first = begin.after(read);
    let middle = all_epoch_events(epochs);
    lemma_one_event(begin, read);
    lemma_reports_split(begin, seq![read], middle);
    if epochs.len() > 0 {
        lemma_epochs(first, epochs);
        lemma_same_sizes(first, sized, 1, epochs);
    } else {
        assert(middle =~= Seq::empty());
    }
    let saving = run_after(begin, seq![read] + middle);
    assert(saving.phase == TrainingPhase::Saving);
    assert(reports(begin, seq![read] + middle) =~= epoch_reports(sized, 1, epochs));
    lemma_one_event(saving, TrainingEvent::ModelSaved);
    lemma_reports_split(begin, seq![read] + middle, seq![TrainingEvent::ModelSaved]);
}

/// The two lists of reports differ in losses at most.
pub open spec fn same_but_losses(
    reports: Seq<TrainingDataCallback>,
    other: Seq<TrainingDataCallback>,
) -> bool {
    &&& reports.len() == other.len()
    &&& forall|i: int|
        0 <= i < reports.len() ==> {
            &&& (#[trigger] reports[i]).callback_type == other[i].callback_type
            &&& reports[i].low == other[i].low
            &&& reports[i].high == other[i].high
        }
}

/// The epochs have as many batches, in each pass.
pub open spec fn same_batch_counts(epochs: Seq<EpochLosses>, other: Seq<EpochLosses>) -> bool {
    &&& epochs.len() == other.len()
    &&& forall|i: int|
        0 <= i < epochs.len() ==> {
            &&& (#[trigger] epochs[i]).train.len() == other[i].train.len()
            &&& epochs[i].test.len() == other[i].test.len()
        }
}

proof fn lemma_same_but_losses(
    run: TrainingRun,
    first: int,
    epochs: Seq<EpochLosses>,
    other: Seq<EpochLosses>,
)
    requires
        same_batch_counts(epochs, other),
    ensures
        same_but_losses(epoch_reports(run, first, epochs), epoch_reports(run, first, other)),
    decreases epochs.len(),
{
    if epochs.len() > 0 {
        let rest = epochs.skip(1);
        let other_rest = other.skip(1);
        assert forall|i: int| 0 <= i < rest.len() implies {
            &&& (#[trigger] rest[i]).train.len() == other_rest[i].train.len()
            &&& rest[i].test.len() == other_rest[i].test.len()
        } by {
            assert(epochs[i + 1].train.len() == other[i + 1].train.len());
        }
        lemma_same_but_losses(run, first + 1, rest, other_rest);
        assert(epochs[0].train.len() == other[0].train.len());
        let head = pass_reports(run, epochs[0]);
        let other_head = pass_reports(run, other[0]);
        assert(same_but_losses(head, other_head));
        let all = epoch_reports(run, first, epochs);
        let other_all = epoch_reports(run, first, other);
        let tail = epoch_reports(run, first + 1, rest);
        let other_tail = epoch_reports(run, first + 1, other_rest);
        assert forall|i: int| 0 <= i < all.len() implies {
            &&& (#[trigger] all[i]).callback_type == other_all[i].callback_type
            &&& all[i].low == other_all[i].low
            &&& all[i].high == other_all[i].high
        } by {
            if 1 <= i < 1 + head.len() {
                assert(all[i] == head[i - 1]);
                assert(other_all[i] == other_head[i - 1]);
            } else if i >= 1 + head.len() {
                assert(all[i] == tail[i - 1 - head.len()]);
                assert(other_all[i] == other_tail[i - 1 - head.len()]);
            }
        }
    }
}

/// What is reported depends only on numbers: two runs over as many frames, with
/// as many epochs, batches of one size and as many batches in each pass, report
/// the same but for the losses, whatever the frames show and however they are
/// shuffled.
pub proof fn law_reports_depend_on_counts(
    num_epochs: usize,
    batch_size: usize,
    count: usize,
    order: Seq<nat>,
    train: Seq<Seq<usize>>,
    test: Seq<Seq<usize>>,
    epochs: Seq<EpochLosses>,
    other_order: Seq<nat>,
    other_train: Seq<Seq<usize>>,
    other_test: Seq<Seq<usize>>,
    other_epochs: Seq<EpochLosses>,
)
    requires
        num_epochs < usize::MAX,
        is_split(count as nat, order, train, test),
        is_split(count as nat, other_order, other_train, other_test),
        epochs.len() == num_epochs,
        forall|i: int| 0 <= i < epochs.len() ==> (#[trigger] epochs[i]).can_count(),
        same_batch_counts(epochs, other_epochs),
    ensures
        same_but_losses(
            reports(
                initial_run(num_epochs, batch_size),
                run_events(train.len() as usize, test.len() as usize, epochs),
            ),
            reports(
                initial_run(num_epochs, batch_size),
                run_events(other_train.len() as usize, other_test.len() as usize, other_epochs),
            ),
        ),
{
    law_split_sizes(count as nat, order, train, test);
    law_split_sizes(count as nat, other_order, other_train, other_test);
    let train_size = train.len() as usize;
    let test_size = test.len() as usize;
    assert forall|i: int| 0 <= i < other_epochs.len() implies (
    #[trigger] other_epochs[i]).can_count() by {
        assert(epochs[i].can_count());
    }
    law_undisturbed_run(num_epochs, batch_size, train_size, test_size, epochs);
    law_undisturbed_run(num_epochs, batch_size, train_size, test_size, other_epochs);
    let sized = TrainingRun { train_size, test_size, ..initial_run(num_epochs, batch_size) };
    lemma_same_but_losses(sized, 1, epochs, other_epochs);
}

/// How many batches of `batch_size` there are in `size` windows; the last may be
/// smaller.
pub open spec fn batch_count(size: int, batch_size: int) -> int {
    (size + batch_size - 1) / batch_size
}

/// In every epoch each pass goes through its whole share, in full batches but
/// for the last.
pub open spec fn are_full_passes(
    epochs: Seq<EpochLosses>,
    batch_size: usize,
    train_size: nat,
    test_size: nat,
) -> bool {
    forall|i: int|
        0 <= i < epochs.len() ==> {
            &&& (#[trigger] epochs[i]).train.len() == batch_count(
                train_size as int,
                batch_size as int,
            )
            &&& epochs[i].test.len() == batch_count(test_size as int, batch_size as int)
        }
}

/// There are no more batches than windows.
proof fn lemma_batch_count(size: int, batch_size: int)
    requires
        size >= 0,
        batch_size > 0,
    ensures
        0 <= batch_count(size, batch_size) <= size,
{
    assert(0 <= (size + batch_size - 1) / batch_size <= size) by (nonlinear_arith)
        requires
            size >= 0,
            batch_size > 0,
    ;
}

/// Two runs over as many frames, with as many epochs and batches of one size,
/// each of which goes through its shares in full batches but for the last,
/// report the same but for the losses. What the frames show, how they are
/// shuffled and what is learned has no influence.
pub proof fn law_reports_depend_on_sizes(
    num_epochs: usize,
    batch_size: usize,
    count: usize,
    order: Seq<nat>,
    train: Seq<Seq<usize>>,
    test: Seq<Seq<usize>>,
    epochs: Seq<EpochLosses>,
    other_order: Seq<nat>,
    other_train: Seq<Seq<usize>>,
    other_test: Seq<Seq<usize>>,
    other_epochs: Seq<EpochLosses>,
)
    requires
        num_epochs < usize::MAX,
        batch_size > 0,
        is_split(count as nat, order, train, test),
        is_split(count as nat, other_order, other_train, other_test),
        epochs.len() == num_epochs,
        other_epochs.len() == num_epochs,
        are_full_passes(epochs, batch_size, train.len(), test.len()),
        are_full_passes(other_epochs, batch_size, other_train.len(), other_test.len()),
    ensures
        same_but_losses(
            reports(
                initial_run(num_epochs, batch_size),
                run_events(train.len() as usize, test.len() as usize, epochs),
            ),
            reports(
                initial_run(num_epochs, batch_size),
                run_events(other_train.len() as usize, other_test.len() as usize, other_epochs),
            ),
        ),
{
    law_split_sizes(count as nat, order, train, test);
    law_split_sizes(count as nat, other_order, other_train, other_test);
    lemma_batch_count(train.len() as int, batch_size as int);
    lemma_batch_count(test.len() as int, batch_size as int);
    assert forall|i: int| 0 <= i < epochs.len() implies {
        &&& (#[trigger] epochs[i]).train.len() == other_epochs[i].train.len()
        &&& epochs[i].test.len() == other_epochs[i].test.len()
    } by {
        assert(other_epochs[i].train.len() == batch_count(train.len() as int, batch_size as int));
    }
    law_reports_depend_on_counts(
        num_epochs,
        batch_size,
        count,
        order,
        train,
        test,
        epochs,
        other_order,
        other_train,
        other_test,
        other_epochs,
    );
}

proof fn lemma_end_is_silent(run: TrainingRun, events: Seq<TrainingEvent>)
    requires
        run.phase == TrainingPhase::Finished || run.phase == TrainingPhase::Failed,
    ensures
        run_after(run, events) == run,
        reports(run, events) == Seq::<TrainingDataCallback>::empty(),
    decreases events.len(),
{
    if events.len() > 0 {
        lemma_end_is_silent(run.after(events[0]), events.skip(1));
    }
}

/// Where the frames cannot be read, nothing is ever reported, whatever happens
/// afterwards.
pub proof fn law_failed_capture_is_silent(
    num_epochs: usize,
    batch_size: usize,
    events: Seq<TrainingEvent>,
)
    ensures
        reports(
            initial_run(num_epochs, batch_size),
            seq![TrainingEvent::CaptureFailed] + events,
        ) == Seq::<TrainingDataCallback>::empty(),
{
    let begin = initial_run(num_epochs, batch_size);
    lemma_one_event(begin, TrainingEvent::CaptureFailed);
    lemma_reports_split(begin, seq![TrainingEvent::CaptureFailed], events);
    lemma_end_is_silent(begin.after(TrainingEvent::CaptureFailed), events);
}

/// Whatever happens, the report that the training is over is the last one.
pub proof fn law_nothing_follows_finished(run: TrainingRun, events: Seq<TrainingEvent>, i: int)
    requires
        0 <= i < reports(run, events).len(),
        reports(run, events)[i].callback_type == CallbackType::Finished,
    ensures
        i == reports(run, events).len() - 1,
        run_after(run, events).phase == TrainingPhase::Finished,
    decreases events.len(),
{
    let rest = events.skip(1);
    let next = run.after(events[0]);
    match run.callback(events[0]) {
        Some(callback) => {
            if callback.callback_type == CallbackType::Finished {
                lemma_end_is_silent(next, rest);
            } else {
                assert(reports(run, events)[i] == reports(next, rest)[i - 1]);
                law_nothing_follows_finished(next, rest, i - 1);
            }
        },
        None => {
            law_nothing_follows_finished(next, rest, i);
        },
    }
}

/// While the windows can be counted in 31 bits, a batch that begins inside its
/// share is reported with a position between 0 and the number of all windows.
pub proof fn law_progress_is_in_range(run: TrainingRun, loss: Scalar)
    requires
        run.train_size + run.test_size <= i32::MAX,
        run.phase == TrainingPhase::Training ==> run.done() < run.train_size,
        run.phase == TrainingPhase::Validating ==> run.done() < run.train_size + run.test_size,
        run.phase == TrainingPhase::Training || run.phase == TrainingPhase::Validating,
    ensures
        run.callback(TrainingEvent::Batch { loss }) matches Some(callback) && callback.low
            == run.done() && callback.high == run.train_size + run.test_size && 0 <= callback.low
            < callback.high,
{
    assert(run.iteration * run.batch_size >= 0) by (nonlinear_arith)
        requires
            run.iteration >= 0,
            run.batch_size >= 0,
    ;
}

/// A number is reported by its low 32 bits, with a sign: as itself where it fits,
/// and otherwise off by a multiple of 2 to the power 32.
pub proof fn law_wrapped_number(x: int)
    ensures
        (x - wrap_i32(x)) % 0x1_0000_0000 == 0,
        -0x8000_0000 <= x <= 0x7fff_ffff ==> wrap_i32(x) == x,
{
}

/// The report on a batch carries exactly the loss of that batch, in both passes.
pub proof fn law_batch_report_carries_loss(run: TrainingRun, loss: Scalar)
    requires
        run.phase == TrainingPhase::Training || run.phase == TrainingPhase::Validating,
    ensures
        run.callback(TrainingEvent::Batch { loss }) matches Some(callback) && callback.loss == loss
            && callback.callback_type == CallbackType::Batch,
{
}

/// Two batches are reported alike only if their losses are the same.
pub proof fn law_batch_reports_tell_losses_apart(run: TrainingRun, loss: Scalar, other: Scalar)
    requires
        run.phase == TrainingPhase::Training || run.phase == TrainingPhase::Validating,
        run.callback(TrainingEvent::Batch { loss }) == run.callback(
            TrainingEvent::Batch { loss: other },
        ),
    ensures
        loss == other,
{
    law_batch_report_carries_loss(run, loss);
    law_batch_report_carries_loss(run, other);
}

/// The report on a batch to train on has the number of windows in the batches in
/// front of it; that on a batch to test on has all windows to train on besides. Both
/// have the number of all windows. Each is cut to 32 bits.
pub proof fn law_batch_report_in_numbers(run: TrainingRun, loss: Scalar)
    ensures
        run.phase == TrainingPhase::Training ==> (run.callback(
            TrainingEvent::Batch { loss },
        ) matches Some(callback) && (run.iteration * run.batch_size - callback.low) % 0x1_0000_0000
            == 0 && (run.train_size + run.test_size - callback.high) % 0x1_0000_0000 == 0),
        run.phase == TrainingPhase::Validating ==> (run.callback(
            TrainingEvent::Batch { loss },
        ) matches Some(callback) && (run.train_size + run.iteration * run.batch_size - callback.low)
            % 0x1_0000_0000 == 0 && (run.train_size + run.test_size - callback.high)
            % 0x1_0000_0000 == 0),
{
    law_wrapped_number(run.iteration * run.batch_size);
    law_wrapped_number(run.train_size + run.iteration * run.batch_size);
    law_wrapped_number(run.train_size + run.test_size);
}

/// As `law_batch_report_in_numbers`, where the numbers fit: they are reported as they
/// are.
pub proof fn law_batch_report_that_fits(run: TrainingRun, loss: Scalar)
    requires
        run.train_size + run.test_size <= 0x7fff_ffff,
        run.train_size + run.iteration * run.batch_size <= 0x7fff_ffff,
    ensures
        run.phase == TrainingPhase::Training ==> (run.callback(
            TrainingEvent::Batch { loss },
        ) matches Some(callback) && callback.low == run.iteration * run.batch_size && callback.high
            == run.train_size + run.test_size),
        run.phase == TrainingPhase::Validating ==> (run.callback(
            TrainingEvent::Batch { loss },
        ) matches Some(callback) && callback.low == run.train_size + run.iteration * run.batch_size
            && callback.high == run.train_size + run.test_size),
{
    assert(run.iteration * run.batch_size >= 0) by (nonlinear_arith)
        requires
            run.iteration >= 0,
            run.batch_size >= 0,
    ;
    law_wrapped_number(run.iteration * run.batch_size);
    law_wrapped_number(run.train_size + run.iteration * run.batch_size);
    law_wrapped_number(run.train_size + run.test_size);
}

/// A batch counts as one, in both passes, and changes nothing else.
pub proof fn law_batch_counts_as_one(run: TrainingRun, loss: Scalar)
    requires
        run.phase == TrainingPhase::Training || run.phase == TrainingPhase::Validating,
        run.iteration < usize::MAX,
    ensures
        ({
            let after = run.after(TrainingEvent::Batch { loss });
            &&& after.iteration == run.iteration + 1
            &&& after.phase == run.phase
            &&& after.epoch == run.epoch
            &&& after.num_epochs == run.num_epochs
            &&& after.batch_size == run.batch_size
            &&& after.train_size == run.train_size
            &&& after.test_size == run.test_size
        }),
{
}

/// Once the frames are read, and again after each validation, the next epoch begins
/// where one is left: it is reported by its number, from 1, and by the number of all
/// epochs, with no loss; its first pass is to train. Where none is left nothing is
/// reported, and the model is written down.
pub proof fn law_next_epoch(run: TrainingRun, event: TrainingEvent)
    requires
        run.well_formed(),
        (run.phase == TrainingPhase::Reading && event is CaptureRead) || (run.phase
            == TrainingPhase::Validating && event is EndOfBatches),
    ensures
        ({
            let after = run.after(event);
            let callback = run.callback(event);
            &&& after.num_epochs == run.num_epochs
            &&& after.batch_size == run.batch_size
            &&& after.iteration == 0
            &&& run.phase == TrainingPhase::Reading ==> after.train_size
                == event->train_size && after.test_size == event->test_size
            &&& run.phase == TrainingPhase::Validating ==> after.train_size == run.train_size
                && after.test_size == run.test_size
            &&& run.epoch < run.num_epochs ==> {
                &&& after.phase == TrainingPhase::Training
                &&& after.epoch == run.epoch + 1
                &&& callback is Some
                &&& callback->0.callback_type == CallbackType::Epoch
                &&& (run.epoch + 1 - callback->0.low) % 0x1_0000_0000 == 0
                &&& (run.num_epochs - callback->0.high) % 0x1_0000_0000 == 0
                &&& run.num_epochs <= 0x7fff_ffff ==> callback->0.low == run.epoch + 1
                    && callback->0.high == run.num_epochs
                &&& callback->0.loss.bits == 0
            }
            &&& run.epoch >= run.num_epochs ==> {
                &&& after.phase == TrainingPhase::Saving
                &&& after.epoch == run.epoch
                &&& callback is None
            }
        }),
{
    law_wrapped_number(run.epoch + 1);
    law_wrapped_number(run.num_epochs as int);
}

/// After the pass to train comes the pass to test, in the same epoch and from its
/// first batch on; nothing is reported.
pub proof fn law_validation_follows_training(run: TrainingRun)
    requires
        run.phase == TrainingPhase::Training,
    ensures
        ({
            let after = run.after(TrainingEvent::EndOfBatches);
            &&& after.phase == TrainingPhase::Validating
            &&& after.iteration == 0
            &&& after.epoch == run.epoch
            &&& after.num_epochs == run.num_epochs
            &&& after.batch_size == run.batch_size
            &&& after.train_size == run.train_size
            &&& after.test_size == run.test_size
            &&& run.callback(TrainingEvent::EndOfBatches) is None
        }),
{
}

/// A model that was written down ends the run, which is reported without numbers.
/// Frames that cannot be read end it without a report.
pub proof fn law_ends(run: TrainingRun)
    ensures
        run.phase == TrainingPhase::Saving ==> {
            let callback = run.callback(TrainingEvent::ModelSaved);
            &&& run.after(TrainingEvent::ModelSaved).phase == TrainingPhase::Finished
            &&& callback is Some
            &&& callback->0.callback_type == CallbackType::Finished
            &&& callback->0.low == 0
            &&& callback->0.high == 0
            &&& callback->0.loss.bits == 0
        },
        run.phase == TrainingPhase::Reading ==> {
            &&& run.after(TrainingEvent::CaptureFailed).phase == TrainingPhase::Failed
            &&& run.callback(TrainingEvent::CaptureFailed) is None
        },
{
}

/// An event that does not belong to the phase changes nothing and is not reported.
pub proof fn law_stray_events_do_nothing(run: TrainingRun, event: TrainingEvent)
    requires
        !(run.phase == TrainingPhase::Reading && (event is CaptureRead || event is CaptureFailed)),
        !((run.phase == TrainingPhase::Training || run.phase == TrainingPhase::Validating) && (
        event is Batch || event is EndOfBatches)),
        !(run.phase == TrainingPhase::Saving && event is ModelSaved),
    ensures
        run.after(event) == run,
        run.callback(event) is None,
{
}

/// A run begins by reading, with nothing counted.
pub proof fn law_run_begins_empty(num_epochs: usize, batch_size: usize)
    ensures
        ({
            let run = initial_run(num_epochs, batch_size);
            &&& run.phase == TrainingPhase::Reading
            &&& run.num_epochs == num_epochs
            &&& run.batch_size == batch_size
            &&& run.train_size == 0
            &&& run.test_size == 0
            &&& run.epoch == 0
            &&& run.iteration == 0
        }),
{
}

/// Only the machine's limit keeps a batch from being counted, and only the same limit
/// keeps sizes from being taken in or a run from being one.
pub proof fn law_countable_up_to_the_limit(
    run: TrainingRun,
    loss: Scalar,
    train_size: usize,
    test_size: usize,
)
    ensures
        run.can_count(TrainingEvent::Batch { loss }) <==> run.iteration < usize::MAX && (if run.phase
            == TrainingPhase::Validating {
            run.train_size + run.iteration * run.batch_size
        } else {
            run.iteration * run.batch_size
        }) <= usize::MAX,
        train_size + test_size <= usize::MAX ==> run.can_count(
            TrainingEvent::CaptureRead { train_size, test_size },
        ),
        run.can_count(TrainingEvent::CaptureFailed),
        run.can_count(TrainingEvent::EndOfBatches),
        run.can_count(TrainingEvent::ModelSaved),
        run.well_formed() <==> run.epoch <= run.num_epochs && run.num_epochs < usize::MAX
            && run.train_size + run.test_size <= usize::MAX,
{
}


} // verus!
