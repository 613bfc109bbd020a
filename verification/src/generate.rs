//! The last step of code generation: the generated files stay flat, or are laid out as one
//! file per module.

use crate::config::Config;
use crate::model::{hierarchy, written};
use crate::response::{CodeGeneratorResponse, ResponseView};
use crate::tree::ModuleTree;
use vstd::prelude::*;

verus! {

/// A response laid out as one file per module.
///
/// A response that reports a failure stays as it is: its message has to reach the compiler,
/// and the files of a failed generation say nothing of the module hierarchy.
pub open spec fn modularized(response: ResponseView) -> ResponseView {
    if response.error is Some {
        response
    } else {
        ResponseView { error: None, file: written(hierarchy(response)) }
    }
}

/// What the plugin answers, given what the code generator produced: the same with flat
/// modules, the response laid out as one file per module without them.
pub open spec fn answered(flat_modules: bool, generated: ResponseView) -> ResponseView {
    if flat_modules {
        generated
    } else {
        modularized(generated)
    }
}

/// Modifies a response to have the module hierarchy that the names of its files encode.
///
/// A response that reports a failure is handed back untouched.
pub fn modularize_response(response: CodeGeneratorResponse) -> (modular: CodeGeneratorResponse)
    ensures
        modular@ == modularized(response@),
        response.error is Some ==> modular == response,
{
    if response.error.is_some() {
        return response;
    }
    let modules = ModuleTree::from(&response);
    CodeGeneratorResponse::from(modules)
}

/// Generates the response for the `protoc` compiler from what the code generator produced
/// for its request.
///
/// With flat modules the generated response is the answer, file for file. Without them the
/// files are laid out as one file per module; see [`modularize_response`].
pub fn generate_response(config: &Config, generated: CodeGeneratorResponse) -> (response:
    CodeGeneratorResponse)
    ensures
        response@ == answered(config.flat_modules, generated@),
        config.flat_modules || generated.error is Some ==> response == generated,
{
    if config.flat_modules {
        generated
    } else {
        modularize_response(generated)
    }
}

/// With flat modules the answer is the generated response itself, and answering once more
/// changes nothing.
pub proof fn lemma_flat_answer_is_identity(generated: ResponseView)
    ensures
        answered(true, generated) == generated,
        answered(true, answered(true, generated)) == answered(true, generated),
{
}

/// A failure message always reaches the compiler: an answer reports exactly the failure that
/// the code generator reported.
pub proof fn lemma_answer_keeps_failure(flat_modules: bool, generated: ResponseView)
    ensures
        answered(flat_modules, generated).error == generated.error,
{
}

/// No files in, no files out: a response without files is answered without files, with flat
/// modules or without.
pub proof fn lemma_nothing_from_nothing(flat_modules: bool, error: Option<Seq<char>>)
    ensures
        answered(flat_modules, ResponseView { error, file: Seq::empty() }) == (ResponseView {
            error,
            file: Seq::empty(),
        }),
{
    assert(written(crate::model::Node::root()) =~= Seq::empty());
}

} // verus!
