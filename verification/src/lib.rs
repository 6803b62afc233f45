//! Eye tracking: the frames of two eye cameras go in, gaze and lid values come out.
pub mod equalize;
pub mod frames;
pub mod inference;
pub mod output;
pub mod path;
pub mod places;
pub mod setup;
pub mod sort;
pub mod split;
pub mod training;
