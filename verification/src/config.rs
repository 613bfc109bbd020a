//! Code generation options, as the compiler hands them over in the request's parameter.
//!
//! The parameter is a list of options separated by commas:
//!
//! * `grpc` – generate client and server side RPC services
//! * `grpc-client` – generate client side RPC services
//! * `grpc-server` – generate server side RPC services
//! * `no-flat-modules` – one file per module in place of one file per package
//! * `extern-path=<proto path>=<rust path>` – take the types below the proto path from the rust
//!   path in place of generating them
//!
//! Anything else is passed over.

use crate::text::{same_text, split, split_str, starts_with, texts};
use vstd::prelude::*;
use vstd::string::*;

verus! {

/// What the plugin reads of the compiler's request.
#[derive(Debug, PartialEq, Eq, Default)]
pub struct CodeGeneratorRequest {
    /// The options given to the plugin on the compiler's command line.
    pub parameter: Option<String>,
}

/// Code generation configuration
#[derive(Debug, PartialEq, Eq)]
pub struct Config {
    /// Generate client side RPC services
    pub gen_grpc_client: bool,
    /// Generate server side RPC services
    pub gen_grpc_server: bool,
    /// External crates for Protobuf types: pairs of a proto path and the rust path that stands
    /// for it, in the order in which they were given
    pub extern_paths: Vec<(String, String)>,
    /// Generate proto files as top-level modules
    ///
    /// If `true` the generated code stays as it comes, one file per package: for package
    /// `foo.bar` the code is in the file `foo.bar.rs`.
    ///
    /// If `false` the generated code follows the package hierarchy: for package `foo.bar` the
    /// code is in the module `bar`, a submodule of `foo`.
    pub flat_modules: bool,
}

/// A [`Config`] as plain values.
pub struct ConfigView {
    pub gen_grpc_client: bool,
    pub gen_grpc_server: bool,
    pub extern_paths: Seq<(Seq<char>, Seq<char>)>,
    pub flat_modules: bool,
}

/// A list of path pairs as plain text.
pub open spec fn path_pairs(paths: Seq<(String, String)>) -> Seq<(Seq<char>, Seq<char>)> {
    Seq::new(paths.len(), |i: int| (paths[i].0@, paths[i].1@))
}

impl View for Config {
    type V = ConfigView;

    open spec fn view(&self) -> ConfigView {
        ConfigView {
            gen_grpc_client: self.gen_grpc_client,
            gen_grpc_server: self.gen_grpc_server,
            extern_paths: path_pairs(self.extern_paths@),
            flat_modules: self.flat_modules,
        }
    }
}

impl ConfigView {
    /// The configuration without any option: no services, no external paths, flat modules.
    pub open spec fn initial() -> ConfigView {
        ConfigView {
            gen_grpc_client: false,
            gen_grpc_server: false,
            extern_paths: Seq::empty(),
            flat_modules: true,
        }
    }

    /// The configuration after one more option.
    pub open spec fn with_option(self, option: Seq<char>) -> ConfigView {
        if option == "grpc"@ {
            ConfigView { gen_grpc_client: true, gen_grpc_server: true, ..self }
        } else if option == "grpc-client"@ {
            ConfigView { gen_grpc_client: true, ..self }
        } else if option == "grpc-server"@ {
            ConfigView { gen_grpc_server: true, ..self }
        } else if option == "no-flat-modules"@ {
            ConfigView { flat_modules: false, ..self }
        } else if names_extern_path(option) {
            let parts = split(option, '=');
            ConfigView { extern_paths: self.extern_paths.push((parts[1], parts[2])), ..self }
        } else {
            self
        }
    }

    /// The configuration after `options`, taken in their order.
    pub open spec fn with_options(self, options: Seq<Seq<char>>) -> ConfigView
        decreases options.len(),
    {
        if options.len() == 0 {
            self
        } else {
            self.with_options(options.drop_last()).with_option(options.last())
        }
    }
}

/// Whether `option` declares an external path.
pub open spec fn names_extern_path(option: Seq<char>) -> bool {
    "extern-path="@.is_prefix_of(option)
}

/// Whether `option` can be read: an external path needs both of its paths.
pub open spec fn option_is_complete(option: Seq<char>) -> bool {
    names_extern_path(option) ==> split(option, '=').len() >= 3
}

/// The options that a parameter lists. No parameter is the same as an empty one.
pub open spec fn options_of(parameter: Option<Seq<char>>) -> Seq<Seq<char>> {
    match parameter {
        Some(text) => split(text, ','),
        None => split(Seq::empty(), ','),
    }
}

/// Whether every option of `parameter` can be read.
pub open spec fn parameter_is_complete(parameter: Option<Seq<char>>) -> bool {
    forall|i: int|
        0 <= i < options_of(parameter).len() ==> option_is_complete(
            #[trigger] options_of(parameter)[i],
        )
}

/// The configuration that `parameter` asks for.
pub open spec fn configured(parameter: Option<Seq<char>>) -> ConfigView {
    ConfigView::initial().with_options(options_of(parameter))
}

/// The request's parameter as plain text.
pub open spec fn parameter_of(request: &CodeGeneratorRequest) -> Option<Seq<char>> {
    match request.parameter {
        Some(text) => Some(text@),
        None => None,
    }
}

impl Default for Config {
    fn default() -> (config: Config)
        ensures
            config@ == ConfigView::initial(),
    {
        let config = Config {
            gen_grpc_client: false,
            gen_grpc_server: false,
            extern_paths: Vec::new(),
            flat_modules: true,
        };
        assert(config@.extern_paths =~= Seq::empty());
        config
    }
}

/// The options of a request's parameter, borrowed from it.
fn options<'a>(request: &'a CodeGeneratorRequest) -> (opts: Vec<&'a str>)
    ensures
        texts(opts@) == options_of(parameter_of(request)),
{
    match &request.parameter {
        Some(text) => split_str(text.as_str(), ','),
        None => {
            proof {
                reveal_strlit("");
            }
            assert(""@ =~= Seq::<char>::empty());
            split_str("", ',')
        },
    }
}

impl Config {
    /// Whether [`Config::from_request`] can read the request's parameter: every `extern-path`
    /// option in it gives a proto path and a rust path.
    pub fn accepts(request: &CodeGeneratorRequest) -> (complete: bool)
        ensures
            complete == parameter_is_complete(parameter_of(request)),
    {
        let opts = options(request);
        let ghost listed = options_of(parameter_of(request));
        let mut i: usize = 0;
        while i < opts.len()
            invariant
                i <= opts.len(),
                texts(opts@) == listed,
                listed == options_of(parameter_of(request)),
                forall|k: int| 0 <= k < i ==> option_is_complete(#[trigger] listed[k]),
            decreases opts.len() - i,
        {
            let opt = opts[i];
            assert(opt@ == listed[i as int]);
            if starts_with(opt, "extern-path=") {
                let parts = split_str(opt, '=');
                if parts.len() < 3 {
                    assert(!option_is_complete(listed[i as int]));
                    return false;
                }
            }
            i += 1;
        }
        true
    }

    /// Parses configuration from request parameters
    ///
    /// Custom parameters come from the `--rust_opt` argument of the `protoc` compiler. Multiple
    /// parameters are separated by commas.
    pub fn from_request(request: &CodeGeneratorRequest) -> (conf: Config)
        requires
            parameter_is_complete(parameter_of(request)),
        ensures
            conf@ == configured(parameter_of(request)),
    {
        let mut conf = Config::default();
        let opts = options(request);
        let ghost listed = options_of(parameter_of(request));
        let mut i: usize = 0;
        assert(listed.take(0) == Seq::<Seq<char>>::empty());
        while i < opts.len()
            invariant
                i <= opts.len(),
                texts(opts@) == listed,
                parameter_is_complete(parameter_of(request)),
                listed == options_of(parameter_of(request)),
                conf@ == ConfigView::initial().with_options(listed.take(i as int)),
            decreases opts.len() - i,
        {
            let opt = opts[i];
            let ghost before = conf@;
            assert(opt@ == listed[i as int]);
            assert(listed.take(i + 1).drop_last() == listed.take(i as int));
            assert(listed.take(i + 1).last() == opt@);
            if same_text(opt, "grpc") {
                conf.gen_grpc_client = true;
                conf.gen_grpc_server = true;
            } else if same_text(opt, "grpc-client") {
                conf.gen_grpc_client = true;
            } else if same_text(opt, "grpc-server") {
                conf.gen_grpc_server = true;
            } else if same_text(opt, "no-flat-modules") {
                conf.flat_modules = false;
            } else if starts_with(opt, "extern-path=") {
                let parts = split_str(opt, '=');
                assert(option_is_complete(listed[i as int]));
                let proto_path = parts[1];
                let rust_path = parts[2];
                let pair = (proto_path.to_owned(), rust_path.to_owned());
                conf.extern_paths.push(pair);
                assert(conf@.extern_paths == before.extern_paths.push((parts@[1]@, parts@[2]@)));
            }
            assert(conf@ == before.with_option(opt@));
            i += 1;
        }
        assert(listed.take(i as int) == listed);
        conf
    }
}

} // verus!
