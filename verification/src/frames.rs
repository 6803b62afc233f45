//! The last frames of one camera.
use circular_buffer::CircularBuffer;
use vstd::prelude::*;

use crate::equalize::{equalized, equalize_histogram, black, ImageData, EYE_PIXELS, EYE_SIDE};

verus! {

/// `circular_buffer::CircularBuffer`, whose contents only its own functions see.
#[verifier::external_type_specification]
#[verifier::external_body]
#[verifier::reject_recursive_types(T)]
pub struct ExCircularBuffer<const N: usize, T>(CircularBuffer<N, T>);

/// What a buffer holds, front first.
pub uninterp spec fn frames_in(buffer: CircularBuffer<4, ImageData>) -> Seq<ImageData>;

/// How many frames of a camera one inference looks at.
pub const WINDOW: usize = 4;

/// The frames of a buffer of four after `frame` was appended to `frames`: a
/// full buffer loses its front.
pub open spec fn pushed(frames: Seq<ImageData>, frame: ImageData) -> Seq<ImageData> {
    if frames.len() >= 4 {
        frames.drop_first().push(frame)
    } else {
        frames.push(frame)
    }
}

/// Calls `CircularBuffer::new`: the buffer is empty.
#[verifier::external_body]
fn buffer_new() -> (r: CircularBuffer<4, ImageData>)
    ensures
        frames_in(r) == Seq::<ImageData>::empty(),
{
    CircularBuffer::new()
}

/// Calls `CircularBuffer::push_back`: the item goes to the back, and a full
/// buffer gives up its front.
#[verifier::external_body]
fn buffer_push_back(buffer: &mut CircularBuffer<4, ImageData>, frame: ImageData) -> (r: Option<
    ImageData,
>)
    ensures
        frames_in(*final(buffer)) == pushed(frames_in(*old(buffer)), frame),
        r == (if frames_in(*old(buffer)).len() >= 4 {
            Some(frames_in(*old(buffer))[0])
        } else {
            None
        }),
{
    buffer.push_back(frame)
}

/// Calls `CircularBuffer::get`: the item at `index`, counted from the front.
#[verifier::external_body]
fn buffer_get(buffer: &CircularBuffer<4, ImageData>, index: usize) -> (r: Option<&ImageData>)
    ensures
        r == (if index < frames_in(*buffer).len() {
            Some(&frames_in(*buffer)[index as int])
        } else {
            None
        }),
{
    buffer.get(index)
}

/// `image` is what a window shows at place `index` while the camera's last
/// frames are `frames`: the frame at that place, or black where there is none.
pub open spec fn shows(frames: Seq<ImageData>, index: int, image: ImageData) -> bool {
    if index < frames.len() {
        image.same_as(frames[index])
    } else {
        &&& image.width == EYE_SIDE
        &&& image.height == EYE_SIDE
        &&& image.pixels@ == black(EYE_PIXELS as nat)
    }
}

/// The last frames of one camera, at most `WINDOW`, oldest first.
pub struct EyeFrames {
    buffer: CircularBuffer<4, ImageData>,
}

impl View for EyeFrames {
    type V = Seq<ImageData>;

    closed spec fn view(&self) -> Seq<ImageData> {
        frames_in(self.buffer)
    }
}

/// What a camera's last frames are at any time: few enough, and all of the
/// camera's size.
pub open spec fn frames_well_formed(frames: Seq<ImageData>) -> bool {
    &&& frames.len() <= WINDOW
    &&& forall|i: int| 0 <= i < frames.len() ==> (#[trigger] frames[i]).is_eye_image()
}

impl EyeFrames {
    /// No frame yet.
    pub fn new() -> (r: EyeFrames)
        ensures
            r@ == Seq::<ImageData>::empty(),
            frames_well_formed(r@),
    {
        EyeFrames { buffer: buffer_new() }
    }

    /// Takes in a frame, equalized; of more than `WINDOW` frames the oldest is
    /// forgotten.
    pub fn push(&mut self, data: &[u8; 16384])
        requires
            frames_well_formed(old(self)@),
        ensures
            frames_well_formed(final(self)@),
            exists|image: ImageData| #[trigger]
                equalized(data@, image) && final(self)@ == pushed(old(self)@, image),
            final(self)@.len() == (if old(self)@.len() < 4 {
                old(self)@.len() + 1
            } else {
                4
            }),
            equalized(data@, final(self)@.last()),
            forall|i: int|
                #![trigger final(self)@[i]]
                0 <= i < final(self)@.len() - 1 ==> final(self)@[i] == old(self)@[if old(
                    self,
                )@.len() < 4 {
                    i
                } else {
                    i + 1
                }],
    {
        let image: ImageData = equalize_histogram(data);
        let ghost frame = image;
        let _ = buffer_push_back(&mut self.buffer, image);
        assert(equalized(data@, frame) && self@ == pushed(old(self)@, frame));
    }

    /// The frame at `index`, or a black image.
    fn frame(&self, index: usize) -> (r: ImageData)
        requires
            frames_well_formed(self@),
        ensures
            r.is_eye_image(),
            shows(self@, index as int, r),
            index < self@.len() ==> r.pixels@ == self@[index as int].pixels@,
            index >= self@.len() ==> r.pixels@.len() == 16384 && forall|i: int|
                0 <= i < 16384 ==> #[trigger] r.pixels@[i] == 0,
    {
        match buffer_get(&self.buffer, index) {
            Some(frame) => frame.clone(),
            None => ImageData::new(EYE_SIDE, EYE_SIDE),
        }
    }

    /// The frames as one inference sees them: those there are, oldest first,
    /// then black images.
    pub fn window(&self) -> (r: [ImageData; 4])
        requires
            frames_well_formed(self@),
        ensures
            forall|i: int| 0 <= i < WINDOW ==> (#[trigger] r@[i]).is_eye_image(),
            forall|i: int| 0 <= i < WINDOW ==> shows(self@, i, #[trigger] r@[i]),
            forall|i: int|
                0 <= i < 4 && i < self@.len() ==> (#[trigger] r@[i]).pixels@ == self@[i].pixels@,
            forall|i: int, k: int|
                #![trigger r@[i].pixels@[k]]
                self@.len() <= i < 4 && 0 <= k < 16384 ==> r@[i].pixels@.len() == 16384
                    && r@[i].pixels@[k] == 0,
    {
        [self.frame(0), self.frame(1), self.frame(2), self.frame(3)]
    }
}

/// The frames after all of `images` were appended, one after the other.
pub open spec fn pushed_all(frames: Seq<ImageData>, images: Seq<ImageData>) -> Seq<ImageData>
    decreases images.len(),
{
    if images.len() == 0 {
        frames
    } else {
        pushed(pushed_all(frames, images.drop_last()), images.last())
    }
}

/// The last `WINDOW` of `images`, or all of them while they are fewer.
pub open spec fn last_frames<T>(images: Seq<T>) -> Seq<T> {
    if images.len() <= WINDOW {
        images
    } else {
        images.skip(images.len() - WINDOW)
    }
}

/// One more image makes the last frames of what came before into the last
/// frames of all.
pub proof fn lemma_pushed_last_frames(images: Seq<ImageData>, image: ImageData)
    ensures
        pushed(last_frames(images), image) == last_frames(images.push(image)),
{
    assert(pushed(last_frames(images), image) =~= last_frames(images.push(image)));
}

/// Whatever came in, a camera's frames are the last `WINDOW` of it, in the
/// order in which they came; all of it while it is shorter.
pub proof fn law_last_frames(images: Seq<ImageData>)
    ensures
        pushed_all(Seq::empty(), images) == last_frames(images),
    decreases images.len(),
{
    if images.len() > 0 {
        law_last_frames(images.drop_last());
        lemma_pushed_last_frames(images.drop_last(), images.last());
        assert(images.drop_last().push(images.last()) =~= images);
    } else {
        assert(images =~= Seq::empty());
    }
}

/// A frame that comes in is the last one. Up to three frames are all kept in front
/// of it; of four the first one goes, and the others move up by one.
pub proof fn law_pushed_in_numbers(frames: Seq<ImageData>, frame: ImageData)
    requires
        frames.len() <= 4,
    ensures
        pushed(frames, frame).last() == frame,
        frames.len() < 4 ==> pushed(frames, frame).len() == frames.len() + 1,
        frames.len() == 4 ==> pushed(frames, frame).len() == 4,
        forall|i: int|
            0 <= i < frames.len() && frames.len() < 4 ==> #[trigger] pushed(frames, frame)[i]
                == frames[i],
        forall|i: int|
            0 <= i < 3 && frames.len() == 4 ==> #[trigger] pushed(frames, frame)[i] == frames[i
                + 1],
{
}

/// After `n` images a camera's frames are the last four of them, or all `n`: the
/// last frame is the last image, and so on backwards.
pub proof fn law_last_frames_in_numbers(images: Seq<ImageData>)
    ensures
        pushed_all(Seq::empty(), images).len() == (if images.len() < 4 {
            images.len()
        } else {
            4
        }),
        forall|back: int|
            #![trigger images[images.len() - back]]
            1 <= back <= 4 && back <= images.len() ==> pushed_all(
                Seq::empty(),
                images,
            )[pushed_all(Seq::empty(), images).len() - back] == images[images.len() - back],
{
    law_last_frames(images);
}

/// What a window shows at a place is the frame there, pixel by pixel, or 128 by
/// 128 zeros where there is none.
pub proof fn law_window_shows_frame_or_black(frames: Seq<ImageData>, index: int, image: ImageData)
    requires
        0 <= index < 4,
    ensures
        shows(frames, index, image) <==> if index < frames.len() {
            &&& image.width == frames[index].width
            &&& image.height == frames[index].height
            &&& image.pixels@ == frames[index].pixels@
        } else {
            &&& image.width == 128
            &&& image.height == 128
            &&& image.pixels@.len() == 16384
            &&& forall|i: int| 0 <= i < 16384 ==> #[trigger] image.pixels@[i] == 0
        },
{
    if index >= frames.len() && image.pixels@.len() == 16384 && (forall|i: int|
        0 <= i < 16384 ==> #[trigger] image.pixels@[i] == 0) {
        assert(image.pixels@ =~= black(16384));
    }
}

/// A camera's frames are at most four, each of 128 by 128 pixels.
pub proof fn law_frames_in_numbers(frames: Seq<ImageData>)
    ensures
        frames_well_formed(frames) <==> {
            &&& frames.len() <= 4
            &&& forall|i: int|
                0 <= i < frames.len() ==> {
                    &&& (#[trigger] frames[i]).width == 128
                    &&& frames[i].height == 128
                    &&& frames[i].pixels@.len() == 16384
                }
        },
{
}


} // verus!
