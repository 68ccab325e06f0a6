use vstd::prelude::*;

pub mod cli;
pub mod diff;
pub mod dom;
pub mod events;
pub mod layout;
pub mod lifecycle;
pub mod paint;
pub mod ref_cell;
pub mod renderer;
pub mod sfc;
pub mod signal;
pub mod style;
pub mod template_ast;
pub mod template_codegen;
pub mod template_parse;
pub mod text;
pub mod watch;

verus! {

} // verus!
