//! The kinds of block a scope opens with.
use vstd::prelude::*;
use crate::expr::{op_repr, op_text, Op};
use crate::signal::Signal;

verus! {

/// What guards a scope: a combinational block, a clocked block, or one branch of a
/// conditional chain.
pub enum Conditional {
    AlwaysComb,
    Posedge(Signal),
    When(Op),
    ElseWhen(Op),
    Otherwise,
}

/// The line that opens a scope of the given kind.
pub open spec fn header_text(c: Conditional) -> Seq<char> {
    match c {
        Conditional::AlwaysComb => "always_comb begin\n"@,
        Conditional::Posedge(s) => "always_ff @(posedge "@ + s@.name + ") begin\n"@,
        Conditional::When(o) => "if ("@ + op_text(o) + ") begin\n"@,
        Conditional::ElseWhen(o) => "else if ("@ + op_text(o) + ") begin\n"@,
        Conditional::Otherwise => "else begin\n"@,
    }
}

impl Conditional {
    /// The line that opens a scope of this kind.
    pub fn header(&self) -> (r: String)
        ensures
            r@ == header_text(*self),
    {
        match self {
            Conditional::AlwaysComb => String::from_str("always_comb begin\n"),
            Conditional::Posedge(s) => {
                let mut r = String::from_str("always_ff @(posedge ");
                r.append(s.name());
                r.append(") begin\n");
                r
            },
            Conditional::When(o) => {
                let mut r = String::from_str("if (");
                r.append(op_repr(o).as_str());
                r.append(") begin\n");
                r
            },
            Conditional::ElseWhen(o) => {
                let mut r = String::from_str("else if (");
                r.append(op_repr(o).as_str());
                r.append(") begin\n");
                r
            },
            Conditional::Otherwise => String::from_str("else begin\n"),
        }
    }
}

} // verus!
