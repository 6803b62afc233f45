//! The steps by which a model is loaded.
use vstd::prelude::*;
use vstd::string::StringExecFns;

use crate::output::outcome_view;
use crate::path::{
    final_name, folder_is_plain, is_portable, law_extensions_are_dropped, model_path_by,
};

verus! {

/// What has to be done next to load a model.
pub enum SetupAction {
    /// Read the training configuration from this file.
    LoadConfig(String),
    /// Read the trained weights from this path.
    LoadRecord(String),
    /// Build the model from both.
    Build,
    /// Nothing: the load failed, for this reason.
    Fail(String),
}

/// An action by what it says.
pub ghost enum SetupRequest {
    LoadConfig(Seq<char>),
    LoadRecord(Seq<char>),
    Build,
    Fail(Seq<char>),
}

impl View for SetupAction {
    type V = SetupRequest;

    open spec fn view(&self) -> SetupRequest {
        match *self {
            SetupAction::LoadConfig(file) => SetupRequest::LoadConfig(file@),
            SetupAction::LoadRecord(path) => SetupRequest::LoadRecord(path@),
            SetupAction::Build => SetupRequest::Build,
            SetupAction::Fail(message) => SetupRequest::Fail(message@),
        }
    }
}

/// How far a load has come.
pub ghost enum SetupStage {
    Config,
    Record,
    Ready,
    Failed(Seq<char>),
}

impl SetupStage {
    /// The stage after the step of this stage came out as `outcome`. A load
    /// that is over stays as it is.
    pub open spec fn after(self, outcome: Result<(), Seq<char>>) -> SetupStage {
        match (self, outcome) {
            (SetupStage::Config, Ok(_)) => SetupStage::Record,
            (SetupStage::Config, Err(error)) => SetupStage::Failed(
                "Failed to load training config for model: "@ + error,
            ),
            (SetupStage::Record, Ok(_)) => SetupStage::Ready,
            (SetupStage::Record, Err(error)) => SetupStage::Failed(
                "Failed to load trained model: "@ + error,
            ),
            _ => self,
        }
    }

    /// What this stage of a load from `path` asks for.
    pub open spec fn request(self, path: Seq<char>) -> SetupRequest {
        match self {
            SetupStage::Config => SetupRequest::LoadConfig(config_file(path)),
            SetupStage::Record => SetupRequest::LoadRecord(record_path(path)),
            SetupStage::Ready => SetupRequest::Build,
            SetupStage::Failed(error) => SetupRequest::Fail(error),
        }
    }
}

/// The file that holds the training configuration of the model at `model_path`.
pub open spec fn config_file(model_path: Seq<char>) -> Seq<char> {
    model_path + "_config.json"@
}

/// The file that training writes the configuration of the model at
/// `model_path` to, and that loading reads it from.
pub fn config_file_of(model_path: &str) -> (r: String)
    ensures
        r@ == config_file(model_path@),
        r@ == model_path@ + "_config.json"@,
{
    model_path.to_owned().concat("_config.json")
}

/// The path that holds the trained weights of the model at `model_path`: the
/// same. The recorder appends its own extension.
pub open spec fn record_path(model_path: Seq<char>) -> Seq<char> {
    model_path
}

/// The path that training writes the weights of the model at `model_path` to,
/// and that loading reads them from.
pub fn record_path_of(model_path: &str) -> (r: String)
    ensures
        r@ == record_path(model_path@),
        r@ == model_path@,
{
    model_path.to_owned()
}

enum Stage {
    Config,
    Record,
    Ready,
    Failed(String),
}

/// A load in progress.
pub struct ModelSetup {
    model_path: String,
    stage: Stage,
}

impl ModelSetup {
    /// The path that the model is loaded from.
    pub closed spec fn path(self) -> Seq<char> {
        self.model_path@
    }

    /// How far the load has come.
    pub closed spec fn stage(self) -> SetupStage {
        match self.stage {
            Stage::Config => SetupStage::Config,
            Stage::Record => SetupStage::Record,
            Stage::Ready => SetupStage::Ready,
            Stage::Failed(error) => SetupStage::Failed(error@),
        }
    }

    /// A load of the model at `model_path`, with nothing done yet.
    pub fn new(model_path: &str) -> (r: ModelSetup)
        ensures
            r.path() == model_path@,
            r.stage() == SetupStage::Config,
    {
        ModelSetup { model_path: model_path.to_owned(), stage: Stage::Config }
    }

    /// What has to be done next.
    pub fn action(&self) -> (r: SetupAction)
        ensures
            r@ == self.stage().request(self.path()),
            match (self.stage(), r) {
                (SetupStage::Config, SetupAction::LoadConfig(file)) => file@ == self.path()
                    + "_config.json"@,
                (SetupStage::Record, SetupAction::LoadRecord(path)) => path@ == self.path(),
                (SetupStage::Ready, SetupAction::Build) => true,
                (SetupStage::Failed(error), SetupAction::Fail(message)) => message@ == error,
                _ => false,
            },
    {
        match &self.stage {
            Stage::Config => SetupAction::LoadConfig(config_file_of(self.model_path.as_str())),
            Stage::Record => SetupAction::LoadRecord(record_path_of(self.model_path.as_str())),
            Stage::Ready => SetupAction::Build,
            Stage::Failed(error) => SetupAction::Fail(error.clone()),
        }
    }

    /// Goes on with how the last action came out.
    pub fn advance(&mut self, outcome: Result<(), String>)
        ensures
            final(self).path() == old(self).path(),
            final(self).stage() == old(self).stage().after(outcome_view(outcome)),
    {
        match &self.stage {
            Stage::Config => match outcome {
                Ok(_) => {
                    self.stage = Stage::Record;
                },
                Err(error) => {
                    self.stage = Stage::Failed(
                        "Failed to load training config for model: ".to_owned().concat(
                            error.as_str(),
                        ),
                    );
                },
            },
            Stage::Record => match outcome {
                Ok(_) => {
                    self.stage = Stage::Ready;
                },
                Err(error) => {
                    self.stage = Stage::Failed(
                        "Failed to load trained model: ".to_owned().concat(error.as_str()),
                    );
                },
            },
            Stage::Ready => {},
            Stage::Failed(_) => {},
        }
    }
}

/// A load succeeds exactly if both of its steps do. A failed configuration
/// decides alone; the weights are reported only where the configuration was
/// read.
pub proof fn law_setup_outcome(config: Result<(), Seq<char>>, record: Result<(), Seq<char>>)
    ensures
        SetupStage::Config.after(config).after(record) == (match (config, record) {
            (Ok(_), Ok(_)) => SetupStage::Ready,
            (Err(error), _) => SetupStage::Failed(
                "Failed to load training config for model: "@ + error,
            ),
            (Ok(_), Err(error)) => SetupStage::Failed("Failed to load trained model: "@ + error),
        }),
{
}

/// A load that is over stays as it is.
pub proof fn law_setup_end_is_final(stage: SetupStage, outcome: Result<(), Seq<char>>)
    requires
        stage is Ready || stage is Failed,
    ensures
        stage.after(outcome) == stage,
{
}

/// What training under `name` writes: its configuration and its weights, by the
/// requests that read them.
pub open spec fn training_writes(name: Seq<char>, request: SetupRequest) -> bool {
    ||| request == SetupRequest::LoadConfig(config_file(name))
    ||| request == SetupRequest::LoadRecord(record_path(name))
}

/// The end of a load from `path` whose requests are answered by `answer`.
pub open spec fn load_end(
    path: Seq<char>,
    answer: spec_fn(SetupRequest) -> Result<(), Seq<char>>,
) -> SetupStage {
    let first = SetupStage::Config;
    let second = first.after(answer(first.request(path)));
    second.after(answer(second.request(path)))
}

/// A load from `name` asks for the configuration that training under `name`
/// writes, then for the weights, and for nothing else: it succeeds where both
/// can be read.
pub proof fn law_load_reads_what_training_writes(
    name: Seq<char>,
    answer: spec_fn(SetupRequest) -> Result<(), Seq<char>>,
)
    requires
        forall|request: SetupRequest| #[trigger]
            training_writes(name, request) ==> answer(request) is Ok,
    ensures
        SetupStage::Config.request(name) == SetupRequest::LoadConfig(config_file(name)),
        SetupStage::Record.request(name) == SetupRequest::LoadRecord(record_path(name)),
        training_writes(name, SetupStage::Config.request(name)),
        training_writes(name, SetupStage::Record.request(name)),
        load_end(name, answer) == SetupStage::Ready,
{
    assert(training_writes(name, SetupStage::Config.request(name)));
    assert(training_writes(name, SetupStage::Record.request(name)));
}

/// A load of the file `name.extensions` succeeds where what training under
/// `name` wrote can be read. The name is put together anew on the way: it stays
/// as it is where its folder is plain and the separator a slash.
pub proof fn law_load_of_file_reads_what_training_writes(
    name: Seq<char>,
    extensions: Seq<char>,
    separator: char,
    answer: spec_fn(SetupRequest) -> Result<(), Seq<char>>,
)
    requires
        is_portable(name),
        final_name(name).len() > 0,
        !final_name(name).contains('.'),
        !extensions.contains('/'),
        !extensions.contains('\\'),
        forall|request: SetupRequest| #[trigger]
            training_writes(model_path_by(name, separator), request) ==> answer(request) is Ok,
    ensures
        load_end(model_path_by(name + seq!['.'] + extensions, separator), answer)
            == SetupStage::Ready,
        separator == '/' && folder_is_plain(name) ==> model_path_by(name, separator) == name,
{
    law_extensions_are_dropped(name, extensions, separator);
    law_load_reads_what_training_writes(model_path_by(name, separator), answer);
}

/// The configuration of a model lies beside it, under its name with `_config.json`
/// behind; its weights lie under its name itself. Models under different names have
/// different files.
pub proof fn law_files_of_a_model(name: Seq<char>, other: Seq<char>)
    ensures
        config_file(name) == name + "_config.json"@,
        record_path(name) == name,
        config_file(name) == config_file(other) ==> name == other,
        record_path(name) == record_path(other) ==> name == other,
{
    if config_file(name) == config_file(other) {
        let tail = "_config.json"@;
        assert(config_file(name).len() == name.len() + tail.len());
        assert(config_file(other).len() == other.len() + tail.len());
        assert forall|i: int| 0 <= i < name.len() implies name[i] == other[i] by {
            assert(config_file(name)[i] == name[i]);
            assert(config_file(other)[i] == other[i]);
        }
        assert(name =~= other);
    }
}

/// A load asks for the configuration first, then for the weights, then for nothing
/// but to be built; one that failed only says why.
pub proof fn law_requests_of_a_load(path: Seq<char>, error: Seq<char>)
    ensures
        SetupStage::Config.request(path) == SetupRequest::LoadConfig(path + "_config.json"@),
        SetupStage::Config.after(Ok(())).request(path) == SetupRequest::LoadRecord(path),
        SetupStage::Config.after(Ok(())).after(Ok(())).request(path) == SetupRequest::Build,
        SetupStage::Config.after(Err(error)).request(path) == SetupRequest::Fail(
            "Failed to load training config for model: "@ + error,
        ),
        SetupStage::Config.after(Ok(())).after(Err(error)).request(path) == SetupRequest::Fail(
            "Failed to load trained model: "@ + error,
        ),
{
}


} // verus!
