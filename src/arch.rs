//! Backends that turn a program into source text of a target language.
use vstd::prelude::*;

use crate::intermediate::BrainFuck;

pub mod c99;

verus! {

/// The target languages.
#[derive(Debug, Clone, Copy, PartialEq, Eq)]
pub enum Backend {
    C99,
}

/// The file extension of a backend's output.
pub open spec fn extension(backend: Backend) -> Seq<char> {
    match backend {
        Backend::C99 => "c"@,
    }
}

/// The program translated by `backend`, and the file extension of its output.
pub open spec fn output(backend: Backend, p: Seq<crate::intermediate::Instr>, pre: nat, post: nat) -> Seq<char> {
    match backend {
        Backend::C99 => c99::c_program(p, pre, post),
    }
}

/// Translates the program with the backend; returns the text and the file
/// extension that it belongs in.
pub fn compile(backend: Backend, bf: &BrainFuck, pre: u32, post: u32) -> (r: (String, &'static str))
    ensures
        r.0@ == output(backend, bf@, pre as nat, post as nat),
        r.1@ == extension(backend),
{
    match backend {
        Backend::C99 => (c99::compile(bf, pre, post), "c"),
    }
}

} // verus!
