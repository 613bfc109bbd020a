use protoc_rust::config::{CodeGeneratorRequest, Config};
use protoc_rust::response::{CodeGeneratorResponse, File};
use protoc_rust::{generate_response, modularize_response};

fn file(name: &str, content: &str) -> File {
    File { name: Some(name.to_string()), insertion_point: None, content: Some(content.to_string()) }
}

fn config(parameter: &str) -> Config {
    let request = CodeGeneratorRequest { parameter: Some(parameter.to_string()) };
    assert!(Config::accepts(&request));
    Config::from_request(&request)
}

fn generated() -> CodeGeneratorResponse {
    CodeGeneratorResponse {
        error: None,
        file: vec![
            file("foo.bar.rs", "struct Bar;\n"),
            File { name: None, insertion_point: Some("here".to_string()), content: None },
            file("foo.rs", "struct Foo;\n"),
            file("foo.bar.rs", "struct Baz;\n"),
        ],
    }
}

#[test]
fn flat_modules_leave_the_response_as_it_is() {
    assert_eq!(generate_response(&Config::default(), generated()), generated());
    assert_eq!(generate_response(&config("grpc"), generated()), generated());
}

#[test]
fn flat_modules_twice_give_the_same_response() {
    let once = generate_response(&Config::default(), generated());
    let twice = generate_response(&Config::default(), once.clone());
    assert_eq!(once, twice);
    assert_eq!(generate_response(&Config::default(), generated()), once);
}

#[test]
fn flat_modules_leave_a_failed_response_as_it_is() {
    let failed =
        CodeGeneratorResponse { error: Some("failed".to_string()), file: generated().file };
    assert_eq!(generate_response(&Config::default(), failed.clone()), failed);
}

#[test]
fn without_flat_modules_the_files_follow_the_hierarchy() {
    let response = generate_response(&config("no-flat-modules"), generated());
    assert_eq!(
        response,
        CodeGeneratorResponse {
            error: None,
            file: vec![
                file("foo/bar.rs", "struct Baz;\n"),
                file("foo.rs", "pub mod bar;\n\nstruct Foo;\n"),
            ],
        }
    );
}

#[test]
fn without_flat_modules_no_files_stay_no_files() {
    let empty = CodeGeneratorResponse { error: None, file: vec![] };
    assert_eq!(generate_response(&config("no-flat-modules"), empty.clone()), empty);
}

#[test]
fn without_flat_modules_a_failure_is_handed_on() {
    let failed =
        CodeGeneratorResponse { error: Some("failed".to_string()), file: generated().file };
    assert_eq!(generate_response(&config("no-flat-modules"), failed.clone()), failed);
}

#[test]
fn modularize_response_lays_out_the_modules() {
    let response = CodeGeneratorResponse {
        error: None,
        file: vec![file("a.b.c.rs", "X"), file("a.b.d.rs", "Y")],
    };
    assert_eq!(
        modularize_response(response),
        CodeGeneratorResponse {
            error: None,
            file: vec![
                file("a/b/c.rs", "X"),
                file("a/b/d.rs", "Y"),
                file("a/b.rs", "pub mod c;\npub mod d;\n"),
                file("a.rs", "pub mod b;\n"),
            ],
        }
    );
}

#[test]
fn modularize_response_keeps_a_failure() {
    let failed =
        CodeGeneratorResponse { error: Some(String::new()), file: vec![file("a.b.rs", "X")] };
    assert_eq!(modularize_response(failed.clone()), failed);
}

#[test]
fn modularizing_twice_flattens_nothing() {
    let response = CodeGeneratorResponse { error: None, file: vec![file("a.b.rs", "X")] };
    let once = modularize_response(response);
    let twice = modularize_response(once);
    assert_eq!(
        twice,
        CodeGeneratorResponse {
            error: None,
            file: vec![file("a/b.rs", "X"), file("a.rs", "pub mod b;\n")],
        }
    );
}
