use protoc_rust::config::{CodeGeneratorRequest, Config};

fn request(parameter: &str) -> CodeGeneratorRequest {
    CodeGeneratorRequest { parameter: Some(parameter.to_string()) }
}

fn parsed(parameter: &str) -> Config {
    let request = request(parameter);
    assert!(Config::accepts(&request));
    Config::from_request(&request)
}

fn pair(proto: &str, rust: &str) -> (String, String) {
    (proto.to_string(), rust.to_string())
}

#[test]
fn default_config_is_flat_without_services() {
    let config = Config::default();
    assert!(!config.gen_grpc_client);
    assert!(!config.gen_grpc_server);
    assert!(config.extern_paths.is_empty());
    assert!(config.flat_modules);
}

#[test]
fn no_parameter_gives_the_default() {
    let request = CodeGeneratorRequest { parameter: None };
    assert!(Config::accepts(&request));
    assert_eq!(Config::from_request(&request), Config::default());
}

#[test]
fn empty_parameter_gives_the_default() {
    assert_eq!(parsed(""), Config::default());
}

#[test]
fn grpc_enables_client_and_server() {
    let config = parsed("grpc");
    assert!(config.gen_grpc_client);
    assert!(config.gen_grpc_server);
    assert!(config.flat_modules);
    assert!(config.extern_paths.is_empty());
}

#[test]
fn grpc_client_enables_the_client_only() {
    let config = parsed("grpc-client");
    assert!(config.gen_grpc_client);
    assert!(!config.gen_grpc_server);
}

#[test]
fn grpc_server_enables_the_server_only() {
    let config = parsed("grpc-server");
    assert!(!config.gen_grpc_client);
    assert!(config.gen_grpc_server);
}

#[test]
fn no_flat_modules_asks_for_the_hierarchy() {
    let config = parsed("no-flat-modules");
    assert!(!config.flat_modules);
    assert!(!config.gen_grpc_client);
    assert!(!config.gen_grpc_server);
}

#[test]
fn options_add_up() {
    let config = parsed("grpc-client,no-flat-modules,grpc-server");
    assert!(config.gen_grpc_client);
    assert!(config.gen_grpc_server);
    assert!(!config.flat_modules);
}

#[test]
fn unknown_options_are_passed_over() {
    assert_eq!(parsed("grpcx,,flat-modules, grpc,GRPC"), Config::default());
}

#[test]
fn extern_path_gives_a_pair() {
    let config = parsed("extern-path=.uuid=::uuid");
    assert_eq!(config.extern_paths, vec![pair(".uuid", "::uuid")]);
    assert!(config.flat_modules);
}

#[test]
fn extern_paths_keep_their_order() {
    let config = parsed("extern-path=.b=::b,grpc,extern-path=.a=::a");
    assert_eq!(config.extern_paths, vec![pair(".b", "::b"), pair(".a", "::a")]);
    assert!(config.gen_grpc_client);
}

#[test]
fn extern_path_takes_the_first_two_paths() {
    let config = parsed("extern-path=.a=::a=more");
    assert_eq!(config.extern_paths, vec![pair(".a", "::a")]);
}

#[test]
fn extern_path_may_hold_empty_paths() {
    let config = parsed("extern-path==");
    assert_eq!(config.extern_paths, vec![pair("", "")]);
}

#[test]
fn extern_path_without_rust_path_is_not_accepted() {
    assert!(!Config::accepts(&request("extern-path=.uuid")));
    assert!(!Config::accepts(&request("extern-path=")));
    assert!(!Config::accepts(&request("grpc,extern-path=.uuid,no-flat-modules")));
}

#[test]
fn extern_path_needs_its_equals_sign() {
    let request = request("extern-path");
    assert!(Config::accepts(&request));
    assert_eq!(Config::from_request(&request), Config::default());
}
