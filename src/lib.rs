//! A line-oriented command interpreter's core: the quoting tokenizer, the
//! builtin registry, the search-path resolver and the dispatcher that turns a
//! command line into the action the host carries out.
use vstd::prelude::*;

pub mod builtin;
pub mod dispatch;
pub mod resolver;
pub mod tokenizer;

verus! {

} // verus!
