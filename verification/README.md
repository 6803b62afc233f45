# eyetrack

The frames of two eye cameras go in; gaze, lid and brow values of both eyes come
out. The crate holds the logic around the network, verified with Verus.

- `equalize`: camera images and the equalization of their brightness
- `frames`: the last frames of one camera
- `output`: the network's values, and the result handed to a caller
- `inference`: loaded model, frames of both cameras, one inference
- `path`: from a path handed over to the path a model is loaded from
- `places`: a lemma on lists of places
- `setup`: the steps of a load
- `sort`: captured frames by timestamp
- `split`: which windows are for training and which for testing
- `training`: the course of a training run and its reports

Numbers of single precision are carried by their bit patterns.

What the crate believes without proof stands in functions marked
`#[verifier::external_body]`, each with a doc comment that names the outside
function it calls.

`app/` is the C interface, the files and the tensors. It is not verified. The
network itself is an impl of `program::Program`.
