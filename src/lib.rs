//! A builder for hardware-description text: signals, expression trees, assignments and
//! nested scopes are gathered into a module, which renders itself as
//! SystemVerilog-style `module` / `assign` / `always` text.
use vstd::prelude::*;

pub mod text;
pub mod signal;
pub mod expr;
pub mod sorted;
pub mod condition;
pub mod module;

pub use crate::signal::{Signal, SignalModel};
pub use crate::expr::{Assign, Op, Term};
pub use crate::condition::Conditional;
pub use crate::module::{Module, ModuleModel, Scope, ScopeModel, SignalHolder};

verus! {

/// Something that renders as a whole block of text.
pub trait Synth {
    /// The text this item renders as.
    spec fn synth_text(&self) -> Seq<char>;

    fn synth(&self) -> (r: String)
        ensures
            r@ == self.synth_text(),
    ;
}

/// Something that renders as an operand inside an expression.
pub trait Operand {
    /// The text this operand renders as.
    spec fn operand_text(&self) -> Seq<char>;

    fn repr(&self) -> (r: String)
        ensures
            r@ == self.operand_text(),
    ;
}

} // verus!
