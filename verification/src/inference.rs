//! From camera frames to the values of the model, and the state in between.
use vstd::prelude::*;

use crate::equalize::{equalized, ImageData};
use crate::frames::{
    frames_well_formed, last_frames, law_pushed_in_numbers, lemma_pushed_last_frames, pushed, shows,
    EyeFrames, WINDOW,
};
use crate::output::{
    is_c_text, law_each_value_has_its_field, law_values_determine_output, outcome_view, text_view, zero_output, ModelOutput,
    ModelOutputResult, Scalar, OUTPUTS,
};

verus! {

/// The input of one inference: the last frames of both cameras.
pub struct WindowedFrame {
    pub left_eye: [ImageData; 4],
    pub right_eye: [ImageData; 4],
    pub timestamp: u64,
}

impl WindowedFrame {
    /// The window holds images of the cameras' size, at no particular time.
    pub open spec fn well_formed(self) -> bool {
        &&& forall|i: int| 0 <= i < WINDOW ==> (#[trigger] self.left_eye@[i]).is_eye_image()
        &&& forall|i: int| 0 <= i < WINDOW ==> (#[trigger] self.right_eye@[i]).is_eye_image()
        &&& self.timestamp == 0
    }

    /// The two windows show the same pictures.
    pub open spec fn same_as(self, other: WindowedFrame) -> bool {
        &&& forall|i: int|
            0 <= i < WINDOW ==> (#[trigger] self.left_eye@[i]).same_as(other.left_eye@[i])
        &&& forall|i: int|
            0 <= i < WINDOW ==> (#[trigger] self.right_eye@[i]).same_as(other.right_eye@[i])
        &&& self.timestamp == other.timestamp
    }

    /// `other` is the window with the two cameras exchanged.
    pub open spec fn exchanged_as(self, other: WindowedFrame) -> bool {
        &&& forall|i: int|
            0 <= i < WINDOW ==> (#[trigger] self.left_eye@[i]).same_as(other.right_eye@[i])
        &&& forall|i: int|
            0 <= i < WINDOW ==> (#[trigger] self.right_eye@[i]).same_as(other.left_eye@[i])
        &&& self.timestamp == other.timestamp
    }

    /// The window shows the frames `left` and `right`, at no particular time.
    pub open spec fn shows(self, left: Seq<ImageData>, right: Seq<ImageData>) -> bool {
        &&& self.well_formed()
        &&& forall|i: int| 0 <= i < WINDOW ==> shows(left, i, #[trigger] self.left_eye@[i])
        &&& forall|i: int| 0 <= i < WINDOW ==> shows(right, i, #[trigger] self.right_eye@[i])
    }
}

/// `output` names values that `forward` gave for `model` and a window which
/// shows the frames `left` and `right`.
pub open spec fn gives<M, F: FnOnce(&M, &WindowedFrame) -> Vec<Scalar>>(
    forward: F,
    model: M,
    left: Seq<ImageData>,
    right: Seq<ImageData>,
    output: ModelOutput,
) -> bool {
    exists|frame: WindowedFrame, values: Vec<Scalar>| #[trigger]
        call_ensures(forward, (&model, &frame), values) && frame.shows(left, right)
            && output.values() == values@.take(OUTPUTS as int)
}

/// `forward` can run `model` on every window that a session puts together, and
/// gives `OUTPUTS` values or more.
pub open spec fn runs<M, F: FnOnce(&M, &WindowedFrame) -> Vec<Scalar>>(
    forward: F,
    model: M,
) -> bool {
    &&& forall|frame: &WindowedFrame|
        frame.well_formed() ==> #[trigger] call_requires(forward, (&model, frame))
    &&& forall|frame: &WindowedFrame, values: Vec<Scalar>|
        frame.well_formed() && #[trigger] call_ensures(forward, (&model, frame), values)
            ==> values@.len() >= OUTPUTS
}

/// What happens to an inference session.
pub ghost enum SessionEvent<M> {
    /// A load came out like this.
    Load(Result<M, String>),
    /// An inference on these camera images was asked for.
    Infer { left: Seq<u8>, right: Seq<u8> },
}

/// What an inference session remembers.
pub ghost struct SessionView<M> {
    /// The loaded model, or why there is none.
    pub model: Result<M, Seq<char>>,
    /// The last frames of the left camera.
    pub left: Seq<ImageData>,
    /// The last frames of the right camera.
    pub right: Seq<ImageData>,
}

impl<M> SessionView<M> {
    /// The frames are few enough and of the right size.
    pub open spec fn well_formed(self) -> bool {
        &&& frames_well_formed(self.left)
        &&& frames_well_formed(self.right)
    }

    /// The session before the first load.
    pub open spec fn initial() -> SessionView<M> {
        SessionView {
            model: Err("Model is not yet initialised"@),
            left: Seq::empty(),
            right: Seq::empty(),
        }
    }

    /// The session after a load that came out as `outcome`: a failed load
    /// takes the former model away, and no load touches the frames.
    pub open spec fn loaded(self, outcome: Result<M, String>) -> SessionView<M> {
        SessionView {
            model: outcome_view(outcome),
            left: self.left,
            right: self.right,
        }
    }

    /// `after` is the session after it took in a frame of each camera: `left`
    /// and `right`, both equalized.
    pub open spec fn observes(
        self,
        left: Seq<u8>,
        right: Seq<u8>,
        after: SessionView<M>,
    ) -> bool {
        &&& after.model == self.model
        &&& exists|image: ImageData| #[trigger]
            equalized(left, image) && after.left == pushed(self.left, image)
        &&& exists|image: ImageData| #[trigger]
            equalized(right, image) && after.right == pushed(self.right, image)
    }

    /// `after` is the session after an event. Without a model no frame is taken
    /// in.
    pub open spec fn steps(self, event: SessionEvent<M>, after: SessionView<M>) -> bool {
        match event {
            SessionEvent::Load(outcome) => after == self.loaded(outcome),
            SessionEvent::Infer { left, right } => {
                if self.model is Ok {
                    self.observes(left, right, after)
                } else {
                    after == self
                }
            },
        }
    }

    /// `after` and `r` are what an inference on the camera images `left` and
    /// `right` leaves and returns, where `forward` runs the model.
    pub open spec fn infers<F: FnOnce(&M, &WindowedFrame) -> Vec<Scalar>>(
        self,
        left: Seq<u8>,
        right: Seq<u8>,
        forward: F,
        after: SessionView<M>,
        r: Result<ModelOutput, Seq<char>>,
    ) -> bool {
        &&& self.steps(SessionEvent::Infer { left, right }, after)
        &&& match self.model {
            Ok(model) => r matches Ok(output) && gives(
                forward,
                model,
                after.left,
                after.right,
                output,
            ),
            Err(message) => r == Err::<ModelOutput, Seq<char>>(message),
        }
    }
}

/// A model, or why there is none, and the last frames of both cameras.
pub struct InferenceSession<M> {
    state: Result<M, String>,
    left: EyeFrames,
    right: EyeFrames,
}

impl<M> View for InferenceSession<M> {
    type V = SessionView<M>;

    closed spec fn view(&self) -> SessionView<M> {
        SessionView {
            model: outcome_view(self.state),
            left: self.left@,
            right: self.right@,
        }
    }
}

impl<M> InferenceSession<M> {
    /// No model and no frames yet.
    pub fn new() -> (r: InferenceSession<M>)
        ensures
            r@ == SessionView::<M>::initial(),
            r@.well_formed(),
    {
        InferenceSession {
            state: Err("Model is not yet initialised".to_owned()),
            left: EyeFrames::new(),
            right: EyeFrames::new(),
        }
    }

    /// Why there is no model, where there is none.
    pub fn error_message(&self) -> (r: Option<String>)
        ensures
            text_view(r) == (match self@.model {
                Ok(_) => None,
                Err(message) => Some(message),
            }),
    {
        match &self.state {
            Ok(_) => None,
            Err(message) => Some(message.clone()),
        }
    }

    /// Puts the outcome of a load in the place of the former one, and returns
    /// the error if it is one.
    pub fn load_model(&mut self, outcome: Result<M, String>) -> (r: Result<(), String>)
        ensures
            final(self)@ == old(self)@.loaded(outcome),
            outcome_view(r) == (match outcome {
                Ok(_) => Ok::<(), Seq<char>>(()),
                Err(message) => Err(message@),
            }),
    {
        match outcome {
            Ok(model) => {
                self.state = Ok(model);
                Ok(())
            },
            Err(message) => {
                self.state = Err(message.clone());
                Err(message)
            },
        }
    }

    /// As `load_model`, with the outcome in the form in which it is handed over:
    /// a success carries zeros. An error that holds a NUL cannot be.
    pub fn load(&mut self, outcome: Result<M, String>) -> (r: ModelOutputResult)
        requires
            outcome matches Err(message) ==> is_c_text(message@),
        ensures
            final(self)@ == old(self)@.loaded(outcome),
            r@ == (match outcome {
                Ok(_) => Ok::<ModelOutput, Seq<char>>(zero_output()),
                Err(message) => Err(message@),
            }),
    {
        match self.load_model(outcome) {
            Ok(_) => ModelOutputResult::from_output(ModelOutput::default()),
            Err(message) => ModelOutputResult::from_error(message),
        }
    }

    /// Takes in a frame of each camera and returns what the model is to look
    /// at. Without a model the frames are not taken in, and the error is why
    /// there is none.
    pub fn observe(&mut self, left: &[u8; 16384], right: &[u8; 16384]) -> (r: Result<
        WindowedFrame,
        String,
    >)
        requires
            old(self)@.well_formed(),
        ensures
            final(self)@.well_formed(),
            match old(self)@.model {
                Ok(_) => {
                    &&& r is Ok
                    &&& old(self)@.observes(left@, right@, final(self)@)
                    &&& r->Ok_0.shows(final(self)@.left, final(self)@.right)
                },
                Err(message) => {
                    &&& r is Err
                    &&& r->Err_0@ == message
                    &&& final(self)@ == old(self)@
                },
            },
    {
        if let Err(message) = &self.state {
            return Err(message.clone());
        }
        self.left.push(left);
        self.right.push(right);
        Ok(
            WindowedFrame {
                left_eye: self.left.window(),
                right_eye: self.right.window(),
                timestamp: 0,
            },
        )
    }

    /// Takes in a frame of each camera and gives the model's values for the
    /// frames that are then the last ones; `forward` runs the model, and gives
    /// `OUTPUTS` values or more. Without a model nothing is run or taken in.
    pub fn run_inference<F: FnOnce(&M, &WindowedFrame) -> Vec<Scalar>>(
        &mut self,
        left: &[u8; 16384],
        right: &[u8; 16384],
        forward: F,
    ) -> (r: Result<ModelOutput, String>)
        requires
            old(self)@.well_formed(),
            old(self)@.model matches Ok(model) ==> runs(forward, model),
        ensures
            final(self)@.well_formed(),
            old(self)@.infers(left@, right@, forward, final(self)@, outcome_view(r)),
    {
        let frame: WindowedFrame = match self.observe(left, right) {
            Ok(frame) => frame,
            Err(message) => {
                return Err(message);
            },
        };
        match &self.state {
            Ok(model) => {
                let values: Vec<Scalar> = forward(model, &frame);
                let output: ModelOutput = ModelOutput::from_values(&values);
                assert(call_ensures(forward, (model, &frame), values));
                assert(gives(forward, *model, self@.left, self@.right, output));
                Ok(output)
            },
            Err(message) => Err(message.clone()),
        }
    }

    /// As `run_inference`, with the outcome in the form in which it is handed
    /// over. An error that holds a NUL cannot be.
    pub fn infer<F: FnOnce(&M, &WindowedFrame) -> Vec<Scalar>>(
        &mut self,
        left: &[u8; 16384],
        right: &[u8; 16384],
        forward: F,
    ) -> (r: ModelOutputResult)
        requires
            old(self)@.well_formed(),
            old(self)@.model matches Err(message) ==> is_c_text(message),
            old(self)@.model matches Ok(model) ==> runs(forward, model),
        ensures
            final(self)@.well_formed(),
            old(self)@.infers(left@, right@, forward, final(self)@, r@),
    {
        match self.run_inference(left, right, forward) {
            Ok(output) => ModelOutputResult::from_output(output),
            Err(message) => ModelOutputResult::from_error(message),
        }
    }
}

/// A load never touches the frames: what the cameras showed before it is still
/// part of the windows after it.
pub proof fn law_load_keeps_frames<M>(before: SessionView<M>, outcome: Result<M, String>)
    ensures
        before.loaded(outcome).left == before.left,
        before.loaded(outcome).right == before.right,
        before.well_formed() ==> before.loaded(outcome).well_formed(),
{
}

/// Only the last load counts.
pub proof fn law_last_load_counts<M>(
    before: SessionView<M>,
    first: Result<M, String>,
    second: Result<M, String>,
)
    ensures
        before.loaded(first).loaded(second) == before.loaded(second),
{
}

/// After a failed load every inference is refused with the message of that
/// load, whatever was loaded before, and leaves the session as it is.
pub proof fn law_failed_load_refuses<M, F: FnOnce(&M, &WindowedFrame) -> Vec<Scalar>>(
    before: SessionView<M>,
    message: String,
    left: Seq<u8>,
    right: Seq<u8>,
    forward: F,
    after: SessionView<M>,
    r: Result<ModelOutput, Seq<char>>,
)
    requires
        before.loaded(Err(message)).infers(left, right, forward, after, r),
    ensures
        r == Err::<ModelOutput, Seq<char>>(message@),
        after == before.loaded(Err(message)),
{
}

/// Before the first load every inference is refused with the same message.
pub proof fn law_unloaded_refuses<M, F: FnOnce(&M, &WindowedFrame) -> Vec<Scalar>>(
    left: Seq<u8>,
    right: Seq<u8>,
    forward: F,
    after: SessionView<M>,
    r: Result<ModelOutput, Seq<char>>,
)
    requires
        SessionView::<M>::initial().infers(left, right, forward, after, r),
    ensures
        r == Err::<ModelOutput, Seq<char>>("Model is not yet initialised"@),
        after == SessionView::<M>::initial(),
{
}

/// An inference succeeds exactly if a model is loaded, and never unloads it.
pub proof fn law_loaded_model_answers<M, F: FnOnce(&M, &WindowedFrame) -> Vec<Scalar>>(
    before: SessionView<M>,
    left: Seq<u8>,
    right: Seq<u8>,
    forward: F,
    after: SessionView<M>,
    r: Result<ModelOutput, Seq<char>>,
)
    requires
        before.infers(left, right, forward, after, r),
    ensures
        r is Ok <==> before.model is Ok,
        after.model == before.model,
{
}

/// `images` are equalizations of the camera images `shots`, one for one.
pub open spec fn all_equalized(shots: Seq<Seq<u8>>, images: Seq<ImageData>) -> bool {
    &&& images.len() == shots.len()
    &&& forall|i: int| 0 <= i < images.len() ==> equalized(shots[i], #[trigger] images[i])
}

/// `frames` are the last `WINDOW` of equalizations of the camera images `shots`,
/// in their order.
pub open spec fn holds_last(shots: Seq<Seq<u8>>, frames: Seq<ImageData>) -> bool {
    exists|images: Seq<ImageData>| #[trigger]
        all_equalized(shots, images) && frames == last_frames(images)
}

proof fn lemma_holds_next(
    shots: Seq<Seq<u8>>,
    shot: Seq<u8>,
    frames: Seq<ImageData>,
    image: ImageData,
)
    requires
        holds_last(shots, frames),
        equalized(shot, image),
    ensures
        holds_last(shots.push(shot), pushed(frames, image)),
{
    let images = choose|images: Seq<ImageData>| #[trigger]
        all_equalized(shots, images) && frames == last_frames(images);
    lemma_pushed_last_frames(images, image);
    assert(all_equalized(shots.push(shot), images.push(image)));
}

/// `trace` is a course of a session, from its beginning through all of
/// `events`: the session in front of each, and at last the one behind them.
pub open spec fn is_course<M>(trace: Seq<SessionView<M>>, events: Seq<SessionEvent<M>>) -> bool {
    &&& trace.len() == events.len() + 1
    &&& trace[0] == SessionView::<M>::initial()
    &&& forall|i: int|
        0 <= i < events.len() ==> (#[trigger] trace[i]).steps(events[i], trace[i + 1])
}

/// What lies in front of the last event of a course is a course.
proof fn lemma_course_front<M>(trace: Seq<SessionView<M>>, events: Seq<SessionEvent<M>>)
    requires
        is_course(trace, events),
        events.len() > 0,
    ensures
        is_course(trace.drop_last(), events.drop_last()),
        trace.drop_last().last() == trace[events.len() - 1],
        trace[events.len() - 1].steps(events.last(), trace.last()),
{
    let before = trace.drop_last();
    let fewer = events.drop_last();
    assert forall|i: int| 0 <= i < fewer.len() implies (#[trigger] before[i]).steps(
        fewer[i],
        before[i + 1],
    ) by {
        assert(trace[i].steps(events[i], trace[i + 1]));
    }
    assert(trace[events.len() - 1].steps(events[events.len() - 1], trace[events.len() as int]));
}

/// The camera images of all inferences of a course that a model was there for:
/// those of the left camera, and those of the right one.
pub open spec fn shots<M>(trace: Seq<SessionView<M>>, events: Seq<SessionEvent<M>>) -> (
    Seq<Seq<u8>>,
    Seq<Seq<u8>>,
)
    decreases events.len(),
{
    if events.len() == 0 {
        (Seq::empty(), Seq::empty())
    } else {
        let (lefts, rights) = shots(trace.drop_last(), events.drop_last());
        match events.last() {
            SessionEvent::Infer { left, right } if trace[events.len() - 1].model is Ok => (
                lefts.push(left),
                rights.push(right),
            ),
            _ => (lefts, rights),
        }
    }
}

/// After any loads and inferences, in any order, a session holds for each
/// camera the last `WINDOW` of the images that were looked at, equalized and in
/// the order in which they were taken. What was refused is not among them, and
/// no load puts an end to it.
pub proof fn law_session_holds_last_frames<M>(
    trace: Seq<SessionView<M>>,
    events: Seq<SessionEvent<M>>,
)
    requires
        is_course(trace, events),
    ensures
        holds_last(shots(trace, events).0, trace.last().left),
        holds_last(shots(trace, events).1, trace.last().right),
    decreases events.len(),
{
    if events.len() == 0 {
        let none = Seq::<ImageData>::empty();
        assert(all_equalized(shots(trace, events).0, none) && none == last_frames(none));
        assert(all_equalized(shots(trace, events).1, none) && none == last_frames(none));
    } else {
        let n = events.len() - 1;
        let before = trace.drop_last();
        lemma_course_front(trace, events);
        law_session_holds_last_frames(before, events.drop_last());
        match events[n] {
            SessionEvent::Infer { left, right } if trace[n].model is Ok => {
                let (lefts, rights) = shots(before, events.drop_last());
                let l = choose|image: ImageData| #[trigger]
                    equalized(left, image) && trace[n + 1].left == pushed(trace[n].left, image);
                lemma_holds_next(lefts, left, trace[n].left, l);
                let r = choose|image: ImageData| #[trigger]
                    equalized(right, image) && trace[n + 1].right == pushed(trace[n].right, image);
                lemma_holds_next(rights, right, trace[n].right, r);
            },
            _ => {},
        }
    }
}

/// In a course, a camera image is equalized to the pixels that `machine` gives for
/// it: on one machine, these depend on the image alone.
pub open spec fn is_on_machine<M>(
    machine: spec_fn(Seq<u8>) -> Seq<u8>,
    trace: Seq<SessionView<M>>,
    events: Seq<SessionEvent<M>>,
) -> bool {
    forall|i: int|
        0 <= i < events.len() && (#[trigger] trace[i]).model is Ok ==> match events[i] {
            SessionEvent::Infer { left, right } => {
                &&& trace[i + 1].left.last().pixels@ == machine(left)
                &&& trace[i + 1].right.last().pixels@ == machine(right)
            },
            SessionEvent::Load(_) => true,
        }
}

/// `frames` are the last of the camera images `shots`, as `machine` equalizes
/// them.
pub open spec fn pictured(
    machine: spec_fn(Seq<u8>) -> Seq<u8>,
    shots: Seq<Seq<u8>>,
    frames: Seq<ImageData>,
) -> bool {
    &&& frames.len() == last_frames(shots).len()
    &&& forall|i: int|
        0 <= i < frames.len() ==> {
            &&& (#[trigger] frames[i]).is_eye_image()
            &&& frames[i].pixels@ == machine(last_frames(shots)[i])
        }
}

proof fn lemma_pictured_next(
    machine: spec_fn(Seq<u8>) -> Seq<u8>,
    shots: Seq<Seq<u8>>,
    shot: Seq<u8>,
    frames: Seq<ImageData>,
    image: ImageData,
)
    requires
        pictured(machine, shots, frames),
        image.is_eye_image(),
        image.pixels@ == machine(shot),
    ensures
        pictured(machine, shots.push(shot), pushed(frames, image)),
{
    let after = pushed(frames, image);
    let last = last_frames(shots.push(shot));
    assert(last =~= (if shots.len() >= WINDOW {
        last_frames(shots).drop_first().push(shot)
    } else {
        last_frames(shots).push(shot)
    }));
    assert forall|i: int| 0 <= i < after.len() implies {
        &&& (#[trigger] after[i]).is_eye_image()
        &&& after[i].pixels@ == machine(last[i])
    } by {
        if i < after.len() - 1 {
            let k = if frames.len() >= WINDOW { i + 1 } else { i };
            assert(after[i] == frames[k]);
            assert(last[i] == last_frames(shots)[k]);
        }
    }
}

/// On one machine, the frames that a session holds are determined by the images
/// that were looked at.
pub proof fn law_frames_are_pictures<M>(
    machine: spec_fn(Seq<u8>) -> Seq<u8>,
    trace: Seq<SessionView<M>>,
    events: Seq<SessionEvent<M>>,
)
    requires
        is_course(trace, events),
        is_on_machine(machine, trace, events),
    ensures
        pictured(machine, shots(trace, events).0, trace.last().left),
        pictured(machine, shots(trace, events).1, trace.last().right),
    decreases events.len(),
{
    if events.len() > 0 {
        let n = events.len() - 1;
        let before = trace.drop_last();
        let fewer = events.drop_last();
        lemma_course_front(trace, events);
        assert(is_on_machine(machine, before, fewer)) by {
            assert forall|i: int|
                0 <= i < fewer.len() && (#[trigger] before[i]).model is Ok implies match fewer[i] {
                SessionEvent::Infer { left, right } => {
                    &&& before[i + 1].left.last().pixels@ == machine(left)
                    &&& before[i + 1].right.last().pixels@ == machine(right)
                },
                SessionEvent::Load(_) => true,
            } by {
                assert(trace[i].model is Ok);
            }
        }
        law_frames_are_pictures(machine, before, fewer);
        match events[n] {
            SessionEvent::Infer { left, right } if trace[n].model is Ok => {
                let (lefts, rights) = shots(before, fewer);
                let l = choose|image: ImageData| #[trigger]
                    equalized(left, image) && trace[n + 1].left == pushed(trace[n].left, image);
                assert(trace[n + 1].left.last() == l);
                lemma_pictured_next(machine, lefts, left, trace[n].left, l);
                let r = choose|image: ImageData| #[trigger]
                    equalized(right, image) && trace[n + 1].right == pushed(trace[n].right, image);
                assert(trace[n + 1].right.last() == r);
                lemma_pictured_next(machine, rights, right, trace[n].right, r);
            },
            _ => {},
        }
    }
}

proof fn lemma_same_shots_same_windows(
    machine: spec_fn(Seq<u8>) -> Seq<u8>,
    shots: Seq<Seq<u8>>,
    other_shots: Seq<Seq<u8>>,
    frames: Seq<ImageData>,
    other_frames: Seq<ImageData>,
    index: int,
    image: ImageData,
    other_image: ImageData,
)
    requires
        pictured(machine, shots, frames),
        pictured(machine, other_shots, other_frames),
        last_frames(shots) == last_frames(other_shots),
        0 <= index < WINDOW,
        shows(frames, index, image),
        shows(other_frames, index, other_image),
    ensures
        image.same_as(other_image),
{
    if index < frames.len() {
        assert(frames[index].is_eye_image());
        assert(other_frames[index].is_eye_image());
    }
}

/// Only the last `WINDOW` images of each camera have an influence: after any two
/// courses in which these are the same, on one machine, the model is given the
/// same pictures.
pub proof fn law_only_last_frames_matter<M>(
    machine: spec_fn(Seq<u8>) -> Seq<u8>,
    trace: Seq<SessionView<M>>,
    events: Seq<SessionEvent<M>>,
    other_trace: Seq<SessionView<M>>,
    other_events: Seq<SessionEvent<M>>,
    frame: WindowedFrame,
    other_frame: WindowedFrame,
)
    requires
        is_course(trace, events),
        is_on_machine(machine, trace, events),
        is_course(other_trace, other_events),
        is_on_machine(machine, other_trace, other_events),
        last_frames(shots(trace, events).0) == last_frames(shots(other_trace, other_events).0),
        last_frames(shots(trace, events).1) == last_frames(shots(other_trace, other_events).1),
        frame.shows(trace.last().left, trace.last().right),
        other_frame.shows(other_trace.last().left, other_trace.last().right),
    ensures
        frame.same_as(other_frame),
{
    law_frames_are_pictures(machine, trace, events);
    law_frames_are_pictures(machine, other_trace, other_events);
    let (lefts, rights) = shots(trace, events);
    let (other_lefts, other_rights) = shots(other_trace, other_events);
    let a = trace.last();
    let b = other_trace.last();
    assert forall|i: int| 0 <= i < WINDOW implies (#[trigger] frame.left_eye@[i]).same_as(
        other_frame.left_eye@[i],
    ) by {
        lemma_same_shots_same_windows(
            machine,
            lefts,
            other_lefts,
            a.left,
            b.left,
            i,
            frame.left_eye@[i],
            other_frame.left_eye@[i],
        );
    }
    assert forall|i: int| 0 <= i < WINDOW implies (#[trigger] frame.right_eye@[i]).same_as(
        other_frame.right_eye@[i],
    ) by {
        lemma_same_shots_same_windows(
            machine,
            rights,
            other_rights,
            a.right,
            b.right,
            i,
            frame.right_eye@[i],
            other_frame.right_eye@[i],
        );
    }
}

/// `forward` gives the same values for the same model and the same pictures.
pub open spec fn is_deterministic<M, F: FnOnce(&M, &WindowedFrame) -> Vec<Scalar>>(
    forward: F,
) -> bool {
    forall|
        model: &M,
        frame: &WindowedFrame,
        other_frame: &WindowedFrame,
        values: Vec<Scalar>,
        other_values: Vec<Scalar>,
    |
        #[trigger] call_ensures(forward, (model, frame), values) && #[trigger] call_ensures(
            forward,
            (model, other_frame),
            other_values,
        ) && frame.same_as(*other_frame) ==> values@ == other_values@
}

/// A model that gives the same values for the same pictures answers alike after
/// any two courses in which the last `WINDOW` images of each camera are the same.
pub proof fn law_last_frames_decide_output<M, F: FnOnce(&M, &WindowedFrame) -> Vec<Scalar>>(
    machine: spec_fn(Seq<u8>) -> Seq<u8>,
    trace: Seq<SessionView<M>>,
    events: Seq<SessionEvent<M>>,
    other_trace: Seq<SessionView<M>>,
    other_events: Seq<SessionEvent<M>>,
    forward: F,
    model: M,
    output: ModelOutput,
    other_output: ModelOutput,
)
    requires
        is_course(trace, events),
        is_on_machine(machine, trace, events),
        is_course(other_trace, other_events),
        is_on_machine(machine, other_trace, other_events),
        last_frames(shots(trace, events).0) == last_frames(shots(other_trace, other_events).0),
        last_frames(shots(trace, events).1) == last_frames(shots(other_trace, other_events).1),
        is_deterministic::<M, F>(forward),
        gives(forward, model, trace.last().left, trace.last().right, output),
        gives(forward, model, other_trace.last().left, other_trace.last().right, other_output),
    ensures
        output == other_output,
{
    let a = trace.last();
    let b = other_trace.last();
    let (frame, values) = choose|frame: WindowedFrame, values: Vec<Scalar>| #[trigger]
        call_ensures(forward, (&model, &frame), values) && frame.shows(a.left, a.right)
            && output.values() == values@.take(OUTPUTS as int);
    let (other_frame, other_values) = choose|frame: WindowedFrame, values: Vec<Scalar>| #[trigger]
        call_ensures(forward, (&model, &frame), values) && frame.shows(b.left, b.right)
            && other_output.values() == values@.take(OUTPUTS as int);
    law_only_last_frames_matter(
        machine,
        trace,
        events,
        other_trace,
        other_events,
        frame,
        other_frame,
    );
    assert(values@ == other_values@);
    law_values_determine_output(output, other_output);
}

/// `other` is `events` with the two cameras exchanged in every inference.
pub open spec fn is_exchanged<M>(
    events: Seq<SessionEvent<M>>,
    other: Seq<SessionEvent<M>>,
) -> bool {
    &&& other.len() == events.len()
    &&& forall|i: int|
        0 <= i < events.len() ==> #[trigger] other[i] == (match events[i] {
            SessionEvent::Load(outcome) => SessionEvent::Load(outcome),
            SessionEvent::Infer { left, right } => SessionEvent::Infer {
                left: right,
                right: left,
            },
        })
}

proof fn lemma_exchanged_shots<M>(
    trace: Seq<SessionView<M>>,
    events: Seq<SessionEvent<M>>,
    other_trace: Seq<SessionView<M>>,
    other_events: Seq<SessionEvent<M>>,
)
    requires
        is_course(trace, events),
        is_course(other_trace, other_events),
        is_exchanged(events, other_events),
    ensures
        other_trace.last().model == trace.last().model,
        shots(other_trace, other_events).0 == shots(trace, events).1,
        shots(other_trace, other_events).1 == shots(trace, events).0,
    decreases events.len(),
{
    if events.len() > 0 {
        let before = trace.drop_last();
        let other_before = other_trace.drop_last();
        let fewer = events.drop_last();
        let other_fewer = other_events.drop_last();
        lemma_course_front(trace, events);
        lemma_course_front(other_trace, other_events);
        assert forall|i: int| 0 <= i < fewer.len() implies #[trigger] other_fewer[i] == (
        match fewer[i] {
            SessionEvent::Load(outcome) => SessionEvent::Load(outcome),
            SessionEvent::Infer { left, right } => SessionEvent::Infer {
                left: right,
                right: left,
            },
        }) by {
            assert(other_fewer[i] == other_events[i]);
        }
        lemma_exchanged_shots(before, fewer, other_before, other_fewer);
    }
}

/// Exchanging the cameras in every inference exchanges the two sides of what the
/// model is given, on one machine, and nothing else.
pub proof fn law_cameras_are_apart<M>(
    machine: spec_fn(Seq<u8>) -> Seq<u8>,
    trace: Seq<SessionView<M>>,
    events: Seq<SessionEvent<M>>,
    other_trace: Seq<SessionView<M>>,
    other_events: Seq<SessionEvent<M>>,
    frame: WindowedFrame,
    other_frame: WindowedFrame,
)
    requires
        is_course(trace, events),
        is_on_machine(machine, trace, events),
        is_course(other_trace, other_events),
        is_on_machine(machine, other_trace, other_events),
        is_exchanged(events, other_events),
        frame.shows(trace.last().left, trace.last().right),
        other_frame.shows(other_trace.last().left, other_trace.last().right),
    ensures
        other_trace.last().model == trace.last().model,
        frame.exchanged_as(other_frame),
{
    lemma_exchanged_shots(trace, events, other_trace, other_events);
    law_frames_are_pictures(machine, trace, events);
    law_frames_are_pictures(machine, other_trace, other_events);
    let (lefts, rights) = shots(trace, events);
    let (other_lefts, other_rights) = shots(other_trace, other_events);
    let a = trace.last();
    let b = other_trace.last();
    assert forall|i: int| 0 <= i < WINDOW implies (#[trigger] frame.left_eye@[i]).same_as(
        other_frame.right_eye@[i],
    ) by {
        lemma_same_shots_same_windows(
            machine,
            lefts,
            other_rights,
            a.left,
            b.right,
            i,
            frame.left_eye@[i],
            other_frame.right_eye@[i],
        );
    }
    assert forall|i: int| 0 <= i < WINDOW implies (#[trigger] frame.right_eye@[i]).same_as(
        other_frame.left_eye@[i],
    ) by {
        lemma_same_shots_same_windows(
            machine,
            rights,
            other_lefts,
            a.right,
            b.left,
            i,
            frame.right_eye@[i],
            other_frame.left_eye@[i],
        );
    }
}

/// What the model is given are the last four frames of each camera, oldest first,
/// each camera's on its own side, and black where there is none; at time zero.
pub proof fn law_window_in_pixels(
    frame: WindowedFrame,
    left: Seq<ImageData>,
    right: Seq<ImageData>,
    i: int,
)
    requires
        frame.shows(left, right),
        0 <= i < 4,
    ensures
        frame.timestamp == 0,
        frame.left_eye@[i].width == 128 && frame.left_eye@[i].height == 128,
        frame.right_eye@[i].width == 128 && frame.right_eye@[i].height == 128,
        frame.left_eye@[i].pixels@.len() == 16384,
        frame.right_eye@[i].pixels@.len() == 16384,
        i < left.len() ==> frame.left_eye@[i].pixels@ == left[i].pixels@,
        i < right.len() ==> frame.right_eye@[i].pixels@ == right[i].pixels@,
        i >= left.len() ==> forall|k: int|
            0 <= k < 16384 ==> #[trigger] frame.left_eye@[i].pixels@[k] == 0,
        i >= right.len() ==> forall|k: int|
            0 <= k < 16384 ==> #[trigger] frame.right_eye@[i].pixels@[k] == 0,
{
    assert(shows(left, i, frame.left_eye@[i]));
    assert(shows(right, i, frame.right_eye@[i]));
    assert(frame.left_eye@[i].is_eye_image());
    assert(frame.right_eye@[i].is_eye_image());
}

/// A session begins without frames, and with the message that there is no model.
pub proof fn law_session_begins_empty<M>()
    ensures
        SessionView::<M>::initial().left.len() == 0,
        SessionView::<M>::initial().right.len() == 0,
        SessionView::<M>::initial().model == Err::<M, Seq<char>>("Model is not yet initialised"@),
{
}

/// What was loaded last is the model, and what the last error said is the message.
pub proof fn law_load_replaces_model<M>(before: SessionView<M>, model: M, message: String)
    ensures
        before.loaded(Ok(model)).model == Ok::<M, Seq<char>>(model),
        before.loaded(Err(message)).model == Err::<M, Seq<char>>(message@),
{
}

/// Where a pair of camera images is taken in, each is the last frame of its own
/// camera, equalized, and in front of it stay the up to three frames that were
/// that camera's last before.
pub proof fn law_observed_frames<M>(
    before: SessionView<M>,
    left: Seq<u8>,
    right: Seq<u8>,
    after: SessionView<M>,
)
    requires
        before.well_formed(),
        before.observes(left, right, after),
    ensures
        after.model == before.model,
        equalized(left, after.left.last()),
        equalized(right, after.right.last()),
        after.left.len() == (if before.left.len() < 4 {
            before.left.len() + 1
        } else {
            4
        }),
        after.right.len() == (if before.right.len() < 4 {
            before.right.len() + 1
        } else {
            4
        }),
        forall|back: int|
            #![trigger before.left[before.left.len() - back]]
            1 <= back <= 3 && back <= before.left.len() ==> after.left[after.left.len() - 1 - back]
                == before.left[before.left.len() - back],
        forall|back: int|
            #![trigger before.right[before.right.len() - back]]
            1 <= back <= 3 && back <= before.right.len() ==> after.right[after.right.len() - 1
                - back] == before.right[before.right.len() - back],
{
    let l = choose|image: ImageData| #[trigger]
        equalized(left, image) && after.left == pushed(before.left, image);
    law_pushed_in_numbers(before.left, l);
    let r = choose|image: ImageData| #[trigger]
        equalized(right, image) && after.right == pushed(before.right, image);
    law_pushed_in_numbers(before.right, r);
}

/// A loaded model is run on a window of the frames that are the last ones once
/// both camera images were taken in, the left camera's on the left side and the
/// right camera's on the right; of what it gives, each of the first ten values is
/// in the field of its own.
pub proof fn law_inference_names_what_the_model_gave<
    M,
    F: FnOnce(&M, &WindowedFrame) -> Vec<Scalar>,
>(
    before: SessionView<M>,
    model: M,
    left: Seq<u8>,
    right: Seq<u8>,
    forward: F,
    after: SessionView<M>,
    r: Result<ModelOutput, Seq<char>>,
)
    requires
        before.well_formed(),
        before.model == Ok::<M, Seq<char>>(model),
        before.infers(left, right, forward, after, r),
        runs(forward, model),
    ensures
        r is Ok,
        equalized(left, after.left.last()),
        equalized(right, after.right.last()),
        exists|frame: WindowedFrame, values: Vec<Scalar>|
            {
                &&& #[trigger] call_ensures(forward, (&model, &frame), values)
                &&& frame.timestamp == 0
                &&& forall|i: int|
                    0 <= i < 4 && i < after.left.len() ==> (#[trigger] frame.left_eye@[i]).pixels@
                        == after.left[i].pixels@
                &&& forall|i: int|
                    0 <= i < 4 && i < after.right.len() ==> (#[trigger] frame.right_eye@[i]).pixels@
                        == after.right[i].pixels@
                &&& forall|i: int, k: int|
                    #![trigger frame.left_eye@[i].pixels@[k]]
                    after.left.len() <= i < 4 && 0 <= k < 16384 ==> frame.left_eye@[i].pixels@[k]
                        == 0
                &&& forall|i: int, k: int|
                    #![trigger frame.right_eye@[i].pixels@[k]]
                    after.right.len() <= i < 4 && 0 <= k < 16384 ==> frame.right_eye@[i].pixels@[k]
                        == 0
                &&& values@.len() >= 10
                &&& r->Ok_0.pitch_l == values@[0]
                &&& r->Ok_0.yaw_l == values@[1]
                &&& r->Ok_0.blink_l == values@[2]
                &&& r->Ok_0.eyebrow_l == values@[3]
                &&& r->Ok_0.eyewide_l == values@[4]
                &&& r->Ok_0.pitch_r == values@[5]
                &&& r->Ok_0.yaw_r == values@[6]
                &&& r->Ok_0.blink_r == values@[7]
                &&& r->Ok_0.eyebrow_r == values@[8]
                &&& r->Ok_0.eyewide_r == values@[9]
            },
{
    law_observed_frames(before, left, right, after);
    let output = r->Ok_0;
    let (frame, values) = choose|frame: WindowedFrame, values: Vec<Scalar>| #[trigger]
        call_ensures(forward, (&model, &frame), values) && frame.shows(after.left, after.right)
            && output.values() == values@.take(OUTPUTS as int);
    assert(call_ensures(forward, (&model, &frame), values));
    law_each_value_has_its_field(output, values@);
    assert forall|i: int, k: int|
        #![trigger frame.left_eye@[i].pixels@[k]]
        after.left.len() <= i < 4 && 0 <= k < 16384 implies frame.left_eye@[i].pixels@[k] == 0 by {
        law_window_in_pixels(frame, after.left, after.right, i);
    }
    assert forall|i: int, k: int|
        #![trigger frame.right_eye@[i].pixels@[k]]
        after.right.len() <= i < 4 && 0 <= k < 16384 implies frame.right_eye@[i].pixels@[k] == 0 by {
        law_window_in_pixels(frame, after.left, after.right, i);
    }
    assert forall|i: int| 0 <= i < 4 && i < after.left.len() implies (
    #[trigger] frame.left_eye@[i]).pixels@ == after.left[i].pixels@ by {
        law_window_in_pixels(frame, after.left, after.right, i);
    }
    assert forall|i: int| 0 <= i < 4 && i < after.right.len() implies (
    #[trigger] frame.right_eye@[i]).pixels@ == after.right[i].pixels@ by {
        law_window_in_pixels(frame, after.left, after.right, i);
    }
}

/// Without a model an inference changes nothing and says why.
pub proof fn law_refusal_changes_nothing<M, F: FnOnce(&M, &WindowedFrame) -> Vec<Scalar>>(
    before: SessionView<M>,
    message: Seq<char>,
    left: Seq<u8>,
    right: Seq<u8>,
    forward: F,
    after: SessionView<M>,
    r: Result<ModelOutput, Seq<char>>,
)
    requires
        before.model == Err::<M, Seq<char>>(message),
        before.infers(left, right, forward, after, r),
    ensures
        r == Err::<ModelOutput, Seq<char>>(message),
        after.model == before.model,
        after.left == before.left,
        after.right == before.right,
{
}


/// Every session that the operations lead to is well-formed: from the beginning, after
/// a load, and after a pair of camera images.
pub proof fn law_sessions_stay_well_formed<M>(
    before: SessionView<M>,
    event: SessionEvent<M>,
    after: SessionView<M>,
)
    requires
        before.well_formed(),
        before.steps(event, after),
    ensures
        SessionView::<M>::initial().well_formed(),
        after.well_formed(),
        after.left.len() <= 4 && after.right.len() <= 4,
{
}


} // verus!
