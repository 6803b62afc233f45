use eyetrack::path::handed_model_path;
use eyetrack::setup::{config_file_of, record_path_of, ModelSetup, SetupAction};

#[test]
fn config_and_record_are_read_in_turn() {
    let mut setup = ModelSetup::new("/models/eye");
    assert!(matches!(setup.action(), SetupAction::LoadConfig(file) if file == "/models/eye_config.json"));
    setup.advance(Ok(()));
    assert!(matches!(setup.action(), SetupAction::LoadRecord(path) if path == "/models/eye"));
    setup.advance(Ok(()));
    assert!(matches!(setup.action(), SetupAction::Build));
}

#[test]
fn a_config_that_fails_ends_the_load() {
    let mut setup = ModelSetup::new("eye");
    setup.advance(Err("file not found".to_string()));
    let expected = "Failed to load training config for model: file not found";
    assert!(matches!(setup.action(), SetupAction::Fail(message) if message == expected));
    setup.advance(Ok(()));
    assert!(matches!(setup.action(), SetupAction::Fail(message) if message == expected));
}

#[test]
fn a_record_that_fails_ends_the_load() {
    let mut setup = ModelSetup::new("eye");
    setup.advance(Ok(()));
    setup.advance(Err("bad data".to_string()));
    let expected = "Failed to load trained model: bad data";
    assert!(matches!(setup.action(), SetupAction::Fail(message) if message == expected));
}

#[test]
fn a_finished_load_stays_finished() {
    let mut setup = ModelSetup::new("eye");
    setup.advance(Ok(()));
    setup.advance(Ok(()));
    setup.advance(Err("late".to_string()));
    assert!(matches!(setup.action(), SetupAction::Build));
}

#[test]
fn training_writes_the_file_that_loading_reads() {
    let mut setup = ModelSetup::new("out/eye");
    assert!(matches!(setup.action(), SetupAction::LoadConfig(file) if file == config_file_of("out/eye")));
    assert_eq!(config_file_of("out/eye"), "out/eye_config.json");
    setup.advance(Ok(()));
    assert!(matches!(setup.action(), SetupAction::LoadRecord(path) if path == record_path_of("out/eye")));
    assert_eq!(record_path_of("out/eye"), "out/eye");
    let path = handed_model_path(b"out/eye.v2.mpk").unwrap();
    assert_eq!(config_file_of(&path), config_file_of("out/eye"));
}
