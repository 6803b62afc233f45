//! What an inference or a load hands to the caller.
use vstd::prelude::*;

verus! {

/// A `Result` by what its error says.
pub open spec fn outcome_view<T>(r: Result<T, String>) -> Result<T, Seq<char>> {
    match r {
        Ok(value) => Ok(value),
        Err(message) => Err(message@),
    }
}

/// An optional text by what it says.
pub open spec fn text_view(r: Option<String>) -> Option<Seq<char>> {
    match r {
        Some(text) => Some(text@),
        None => None,
    }
}

/// A single precision number, by its bit pattern.
#[derive(Debug, Clone, Copy, PartialEq, Eq, Structural)]
pub struct Scalar {
    pub bits: u32,
}

impl Scalar {
    /// `0.0`, whose bits are all zero.
    pub fn zero() -> (r: Scalar)
        ensures
            r == (Scalar { bits: 0 }),
    {
        Scalar { bits: 0 }
    }
}

/// Number of values that the model gives for one pair of windows.
pub const OUTPUTS: usize = 10;

/// Gaze, lid and brow values of both eyes.
#[derive(Debug, Clone, Copy, PartialEq, Eq, Structural)]
pub struct ModelOutput {
    pub pitch_l: Scalar,
    pub yaw_l: Scalar,
    pub blink_l: Scalar,
    pub eyebrow_l: Scalar,
    pub eyewide_l: Scalar,
    pub pitch_r: Scalar,
    pub yaw_r: Scalar,
    pub blink_r: Scalar,
    pub eyebrow_r: Scalar,
    pub eyewide_r: Scalar,
}

impl ModelOutput {
    /// The values in the order in which the model gives them: the left eye's,
    /// then the right eye's.
    pub open spec fn values(self) -> Seq<Scalar> {
        seq![
            self.pitch_l,
            self.yaw_l,
            self.blink_l,
            self.eyebrow_l,
            self.eyewide_l,
            self.pitch_r,
            self.yaw_r,
            self.blink_r,
            self.eyebrow_r,
            self.eyewide_r,
        ]
    }

    /// Names the first `OUTPUTS` values that the model gave. Those behind them
    /// are not read.
    pub fn from_values(output: &Vec<Scalar>) -> (r: ModelOutput)
        requires
            output@.len() >= OUTPUTS,
        ensures
            r.values() == output@.take(OUTPUTS as int),
            r.pitch_l == output@[0],
            r.yaw_l == output@[1],
            r.blink_l == output@[2],
            r.eyebrow_l == output@[3],
            r.eyewide_l == output@[4],
            r.pitch_r == output@[5],
            r.yaw_r == output@[6],
            r.blink_r == output@[7],
            r.eyebrow_r == output@[8],
            r.eyewide_r == output@[9],
    {
        let r: ModelOutput = ModelOutput {
            pitch_l: output[0],
            yaw_l: output[1],
            blink_l: output[2],
            eyebrow_l: output[3],
            eyewide_l: output[4],
            pitch_r: output[5],
            yaw_r: output[6],
            blink_r: output[7],
            eyebrow_r: output[8],
            eyewide_r: output[9],
        };
        assert(r.values() =~= output@.take(OUTPUTS as int));
        r
    }
}

/// All values zero.
pub open spec fn zero_output() -> ModelOutput {
    let zero = Scalar { bits: 0 };
    ModelOutput {
        pitch_l: zero,
        yaw_l: zero,
        blink_l: zero,
        eyebrow_l: zero,
        eyewide_l: zero,
        pitch_r: zero,
        yaw_r: zero,
        blink_r: zero,
        eyebrow_r: zero,
        eyewide_r: zero,
    }
}

impl Default for ModelOutput {
    fn default() -> (r: ModelOutput)
        ensures
            r == zero_output(),
            r.pitch_l == (Scalar { bits: 0 }),
            r.yaw_l == (Scalar { bits: 0 }),
            r.blink_l == (Scalar { bits: 0 }),
            r.eyebrow_l == (Scalar { bits: 0 }),
            r.eyewide_l == (Scalar { bits: 0 }),
            r.pitch_r == (Scalar { bits: 0 }),
            r.yaw_r == (Scalar { bits: 0 }),
            r.blink_r == (Scalar { bits: 0 }),
            r.eyebrow_r == (Scalar { bits: 0 }),
            r.eyewide_r == (Scalar { bits: 0 }),
    {
        let zero: Scalar = Scalar::zero();
        ModelOutput {
            pitch_l: zero,
            yaw_l: zero,
            blink_l: zero,
            eyebrow_l: zero,
            eyewide_l: zero,
            pitch_r: zero,
            yaw_r: zero,
            blink_r: zero,
            eyebrow_r: zero,
            eyewide_r: zero,
        }
    }
}

/// What a result carries: values, or the text of an error.
enum ModelOutputValue {
    Output(ModelOutput),
    ErrorMessage(String),
}

/// The result of a load or an inference, with a flag that says which of the two
/// values it carries.
pub struct ModelOutputResult {
    is_error: bool,
    value: ModelOutputValue,
}

impl View for ModelOutputResult {
    type V = Result<ModelOutput, Seq<char>>;

    closed spec fn view(&self) -> Result<ModelOutput, Seq<char>> {
        match self.value {
            ModelOutputValue::Output(output) => Ok(output),
            ModelOutputValue::ErrorMessage(message) => Err(message@),
        }
    }
}

/// The message of an outcome that is an error.
pub open spec fn error_message_of(r: Result<ModelOutput, Seq<char>>) -> Option<Seq<char>> {
    match r {
        Ok(_) => None,
        Err(message) => Some(message),
    }
}

/// The values of an outcome that is a success.
pub open spec fn model_output_of(r: Result<ModelOutput, Seq<char>>) -> Option<ModelOutput> {
    match r {
        Ok(output) => Some(output),
        Err(_) => None,
    }
}

/// The text can be handed over as a string that ends at its first NUL.
pub open spec fn is_c_text(text: Seq<char>) -> bool {
    !text.contains('\0')
}

impl ModelOutputResult {
    #[verifier::type_invariant]
    spec fn flag_tells_value(self) -> bool {
        &&& self.is_error == (self.value is ErrorMessage)
        &&& self.value matches ModelOutputValue::ErrorMessage(message) ==> is_c_text(message@)
    }

    /// An error. A message that holds a NUL cannot be handed over.
    pub fn from_error(message: String) -> (r: ModelOutputResult)
        requires
            is_c_text(message@),
        ensures
            r@ == Err::<ModelOutput, Seq<char>>(message@),
    {
        ModelOutputResult { is_error: true, value: ModelOutputValue::ErrorMessage(message) }
    }

    /// A success.
    pub fn from_output(output: ModelOutput) -> (r: ModelOutputResult)
        ensures
            r@ == Ok::<ModelOutput, Seq<char>>(output),
    {
        ModelOutputResult { is_error: false, value: ModelOutputValue::Output(output) }
    }

    /// Whether this is an error.
    pub fn is_error(&self) -> (r: bool)
        ensures
            r == (self@ is Err),
            r == !(self@ is Ok),
    {
        proof {
            use_type_invariant(self);
        }
        self.is_error
    }

    /// The message of an error.
    pub fn get_error_message(&self) -> (r: Option<String>)
        ensures
            text_view(r) == error_message_of(self@),
            r matches Some(message) ==> is_c_text(message@),
            match (self@, r) {
                (Err(said), Some(message)) => message@ == said,
                (Ok(_), None) => true,
                _ => false,
            },
    {
        proof {
            use_type_invariant(self);
        }
        match &self.value {
            ModelOutputValue::ErrorMessage(message) => Some(message.clone()),
            ModelOutputValue::Output(_) => None,
        }
    }

    /// The values of a success.
    pub fn get_model_output(&self) -> (r: Option<ModelOutput>)
        ensures
            r == model_output_of(self@),
            match (self@, r) {
                (Ok(given), Some(output)) => output == given,
                (Err(_), None) => true,
                _ => false,
            },
    {
        match &self.value {
            ModelOutputValue::ErrorMessage(_) => None,
            ModelOutputValue::Output(output) => Some(*output),
        }
    }
}

/// A result gives back what it was made from, and nothing else: the message of
/// an error, or the values of a success.
pub proof fn law_result_gives_back(message: Seq<char>, output: ModelOutput)
    ensures
        error_message_of(Err(message)) == Some(message),
        model_output_of(Err(message)) is None,
        model_output_of(Ok(output)) == Some(output),
        error_message_of(Ok(output)) is None,
{
}

/// Of the message and the values of a result there is always exactly one.
pub proof fn law_result_has_one_value(r: Result<ModelOutput, Seq<char>>)
    ensures
        error_message_of(r) is Some <==> model_output_of(r) is None,
{
}

/// The ten values determine the output, each at its place.
pub proof fn law_values_determine_output(a: ModelOutput, b: ModelOutput)
    requires
        a.values() == b.values(),
    ensures
        a == b,
{
    assert(a.values()[0] == b.values()[0]);
    assert(a.values()[1] == b.values()[1]);
    assert(a.values()[2] == b.values()[2]);
    assert(a.values()[3] == b.values()[3]);
    assert(a.values()[4] == b.values()[4]);
    assert(a.values()[5] == b.values()[5]);
    assert(a.values()[6] == b.values()[6]);
    assert(a.values()[7] == b.values()[7]);
    assert(a.values()[8] == b.values()[8]);
    assert(a.values()[9] == b.values()[9]);
}

/// The values of an output are its ten fields: pitch, yaw, blink, eyebrow and
/// eyewide of the left eye, then the same of the right eye.
pub proof fn law_values_are_the_fields(output: ModelOutput)
    ensures
        output.values().len() == 10,
        output.values()[0] == output.pitch_l,
        output.values()[1] == output.yaw_l,
        output.values()[2] == output.blink_l,
        output.values()[3] == output.eyebrow_l,
        output.values()[4] == output.eyewide_l,
        output.values()[5] == output.pitch_r,
        output.values()[6] == output.yaw_r,
        output.values()[7] == output.blink_r,
        output.values()[8] == output.eyebrow_r,
        output.values()[9] == output.eyewide_r,
{
}

/// An output that is named from a list of values has each of the first ten in the
/// field of its own: the first five are the left eye's, the next five the right
/// eye's.
pub proof fn law_each_value_has_its_field(output: ModelOutput, values: Seq<Scalar>)
    requires
        values.len() >= 10,
        output.values() == values.take(10),
    ensures
        output.pitch_l == values[0],
        output.yaw_l == values[1],
        output.blink_l == values[2],
        output.eyebrow_l == values[3],
        output.eyewide_l == values[4],
        output.pitch_r == values[5],
        output.yaw_r == values[6],
        output.blink_r == values[7],
        output.eyebrow_r == values[8],
        output.eyewide_r == values[9],
{
    assert(output.values()[0] == values[0]);
    assert(output.values()[1] == values[1]);
    assert(output.values()[2] == values[2]);
    assert(output.values()[3] == values[3]);
    assert(output.values()[4] == values[4]);
    assert(output.values()[5] == values[5]);
    assert(output.values()[6] == values[6]);
    assert(output.values()[7] == values[7]);
    assert(output.values()[8] == values[8]);
    assert(output.values()[9] == values[9]);
}

/// A zero output has the bits of zero in each of its ten fields.
pub proof fn law_zero_output_is_zero()
    ensures
        zero_output().pitch_l.bits == 0,
        zero_output().yaw_l.bits == 0,
        zero_output().blink_l.bits == 0,
        zero_output().eyebrow_l.bits == 0,
        zero_output().eyewide_l.bits == 0,
        zero_output().pitch_r.bits == 0,
        zero_output().yaw_r.bits == 0,
        zero_output().blink_r.bits == 0,
        zero_output().eyebrow_r.bits == 0,
        zero_output().eyewide_r.bits == 0,
{
}

/// An outcome is known by its value or by what its error says, and an optional
/// text by what it says; nothing is lost or added.
pub proof fn law_views_say_it_all<T>(value: T, text: String)
    ensures
        outcome_view(Ok::<T, String>(value)) == Ok::<T, Seq<char>>(value),
        outcome_view(Err::<T, String>(text)) == Err::<T, Seq<char>>(text@),
        text_view(Some(text)) == Some(text@),
        text_view(None) == None::<Seq<char>>,
{
}

/// Exactly the texts without a NUL can be handed over.
pub proof fn law_c_text_has_no_nul(text: Seq<char>)
    ensures
        is_c_text(text) <==> forall|i: int| 0 <= i < text.len() ==> #[trigger] text[i] != '\0',
{
    if is_c_text(text) {
        assert forall|i: int| 0 <= i < text.len() implies #[trigger] text[i] != '\0' by {
            assert(text.contains(text[i]));
        }
    }
}


} // verus!
