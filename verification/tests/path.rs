use eyetrack::path::{file_stem, handed_model_path, model_path, PathError};

fn handed(path: &str) -> String {
    handed_model_path(path.as_bytes()).unwrap()
}

#[test]
fn the_stem_ends_at_the_first_dot() {
    assert_eq!(file_stem("eye.mpk"), "eye");
    assert_eq!(file_stem("eye.v2.mpk"), "eye");
    assert_eq!(file_stem("eye"), "eye");
    assert_eq!(file_stem(".hidden"), "");
    assert_eq!(file_stem(""), "");
    assert_eq!(file_stem("\u{e9}t\u{e9}.mpk"), "\u{e9}t\u{e9}");
}

#[test]
fn the_stem_of_a_stem_is_itself() {
    let once = file_stem("a.b.c");
    assert_eq!(file_stem(&once), once);
}

#[test]
fn extensions_are_dropped() {
    assert_eq!(model_path("/models/eye.mpk"), "/models/eye");
    assert_eq!(model_path("/models/eye.v2.mpk"), "/models/eye");
    assert_eq!(model_path("models.d/eye.mpk"), "models.d/eye");
    assert_eq!(model_path("eye.mpk"), "eye");
    assert_eq!(model_path("/eye.mpk"), "/eye");
    assert_eq!(model_path("C:/models/eye.mpk"), "C:/models/eye");
    assert_eq!(model_path("C:/eye.mpk"), "C:/eye");
    assert_eq!(model_path("./eye.mpk"), "./eye");
    assert_eq!(model_path("../eye.mpk"), "../eye");
}

#[test]
fn a_colon_in_a_name_says_nothing() {
    assert_eq!(model_path("models/eye.a:b"), "models/eye");
    assert_eq!(model_path("models/left:eye.mpk"), "models/left:eye");
    assert_eq!(model_path("models/1:eye.mpk"), "models/1:eye");
    assert_eq!(model_path("a.b:c"), "a");
}

#[test]
fn doubled_slashes_and_lone_dots_in_front_of_a_name_go() {
    assert_eq!(model_path("models//eye.mpk"), "models/eye");
    assert_eq!(model_path("models/./eye.mpk"), "models/eye");
    assert_eq!(model_path("models/.//./eye.mpk"), "models/eye");
    assert_eq!(model_path("a//b/eye.mpk"), "a//b/eye");
    assert_eq!(model_path("/./eye.mpk"), "/eye");
    assert_eq!(model_path(".//eye.mpk"), "./eye");
    assert_eq!(model_path("././eye.mpk"), "./eye");
    assert_eq!(model_path("C:/./eye.mpk"), "C:/eye");
    assert_eq!(model_path("C:.//eye.mpk"), "C:./eye");
}

#[test]
fn slashes_and_lone_dots_behind_a_name_go() {
    assert_eq!(model_path("models/eye.mpk/"), "models/eye");
    assert_eq!(model_path("models/eye.mpk//."), "models/eye");
    assert_eq!(model_path("eye.mpk/./"), "eye");
}

#[test]
fn a_path_without_a_file_is_appended_to() {
    assert_eq!(model_path("/"), "/");
    assert_eq!(model_path("/."), "/./");
    assert_eq!(model_path("."), "./");
    assert_eq!(model_path("./"), "./");
    assert_eq!(model_path(".."), "../");
    assert_eq!(model_path("models/.."), "models/../");
    assert_eq!(model_path("models/../"), "models/../");
}

#[test]
fn files_that_differ_in_extensions_are_one_model() {
    for path in ["/models/eye", "models/eye", "eye", "C:/models/eye", "./eye"] {
        assert_eq!(handed(path), path);
        assert_eq!(handed(&format!("{path}.mpk")), path);
        assert_eq!(handed(&format!("{path}.a:b.c")), path);
        assert_eq!(handed(&format!("{path}.")), path);
    }
}

#[test]
fn a_path_without_extension_stays() {
    assert_eq!(model_path("/models/eye"), "/models/eye");
    assert_eq!(model_path(&model_path("/models/eye.mpk")), "/models/eye");
}

#[test]
fn a_hidden_file_leaves_its_folder() {
    assert_eq!(model_path("models/.hidden"), "models/");
}

#[test]
fn an_empty_path_stays_empty() {
    assert_eq!(model_path(""), "");
}

#[test]
fn percent_escapes_are_replaced() {
    assert_eq!(handed("/my%20models/eye.mpk"), "/my models/eye");
    assert_eq!(handed("/%41%6d/e%C3%A9.mpk"), "/Am/e\u{e9}");
    assert_eq!(handed("/a%2Fb/eye%2Empk"), "/a/b/eye");
}

#[test]
fn a_path_without_escapes_is_literal() {
    assert_eq!(handed("/a+b/c d/eye.mpk"), "/a+b/c d/eye");
}

#[test]
fn broken_escapes_stand_for_themselves() {
    assert_eq!(handed("/100%/eye.mpk"), "/100%/eye");
    assert_eq!(handed("/%zz/eye.mpk"), "/%zz/eye");
    assert_eq!(handed("/%4z/eye.mpk"), "/%4z/eye");
    assert_eq!(handed("/%%41/eye.mpk"), "/%A/eye");
    assert_eq!(handed("/models/eye%4"), "/models/eye%4");
}

#[test]
fn escapes_that_are_not_utf8_are_an_error() {
    assert_eq!(handed_model_path(b"/%FF/eye.mpk"), Err(PathError::NotUtf8));
    assert_eq!(handed_model_path(b"/%C3/eye.mpk"), Err(PathError::NotUtf8));
}

#[test]
fn bytes_that_are_not_utf8_count_as_nothing() {
    assert_eq!(handed_model_path(&[0x2f, 0xff, 0x61]), Ok(String::new()));
}

#[test]
fn no_escape_reaches_across_a_slash_or_a_dot() {
    assert_eq!(handed("/my%20models/eye"), "/my models/eye");
    assert_eq!(handed("/my%20models/eye.mpk"), "/my models/eye");
    assert_eq!(handed("/my%20models/eye.%61%2E"), "/my models/eye");
    assert_eq!(handed("/a%4/1/eye.mpk"), "/a%4/1/eye");
    assert_eq!(handed("/models/e%79e%4.1"), "/models/eye%4");
    assert_eq!(handed("/models/eye%.41"), "/models/eye%");
}
