use hdl::{Assign, Module, Op, Scope, Signal, SignalHolder, Synth, Term};

fn sig(s: &Signal) -> Term {
    Term::Sig(s.copy())
}

fn node(o: Op) -> Term {
    Term::Node(Box::new(o))
}

#[test]
fn it_works() {
    let mut m = Module::new("adder");
    let a = Signal::new("a", 32);
    let b = Signal::new("b", 32);
    let o = Signal::new("o", 32);

    m.add_input(a.copy());
    m.add_input(b.copy());
    m.add_assign(Assign::new(&o, a.add(sig(&b))));
    m.add_output(o.copy());
    assert_eq!(m.synth(), "module adder();\ninput logic [31:0] a;\ninput logic [31:0] b;\noutput logic [31:0] o;\nassign o = (a + b);\nendmodule");
}

#[test]
fn simple_adder() {
    let mut m = Module::new("adder");
    let a = Signal::new("a", 32);
    let b = Signal::new("b", 32);
    let c = Signal::new("c", 32);
    let o = Signal::new("o", 32);

    m.add_input(a.copy());
    m.add_input(b.copy());
    m.add_output(o.copy());

    m.add_assign(Assign::new(&c, a.add(sig(&b))));
    m.add_assign(Assign::new(&o, c.add(Term::Unsigned(1))));

    assert_eq!(m.synth(), "module adder();\ninput logic [31:0] a;\ninput logic [31:0] b;\noutput logic [31:0] o;\nassign c = (a + b);\nassign o = (c + 1);\nendmodule");
}

#[test]
fn complex_conds() {
    let a = Signal::new("a", 32);
    let b = Signal::new("b", 32);

    let left = Op::new(sig(&a), Term::Unsigned(1), "==");
    let right = Op::new(sig(&b), Term::Unsigned(2), "==");
    let cond = Op::new(node(left), node(right), "||");
    assert_eq!(Term::Node(Box::new(cond)).repr(), "((a == 1) || (b == 2))");
}

use hdl::Operand;

#[test]
fn adder_module_text() {
    let mut m = Module::new("adder");
    let a = Signal::new("a", 32);
    let b = Signal::new("b", 32);
    let o = Signal::new("o", 32);
    m.add_input(a.copy());
    m.add_input(b.copy());
    m.add_output(o.copy());
    m.add_assign(Assign::new(&o, Op::new(sig(&a), sig(&b), "+")));
    assert_eq!(m.synth(), "module adder();\ninput logic [31:0] a;\ninput logic [31:0] b;\noutput logic [31:0] o;\nassign o = (a + b);\nendmodule");
}

fn comb_block(a: &Signal, b: &Signal, c: &Signal) -> Scope {
    let mut inner = Scope::new();
    inner.add_assign(Assign::new(b, a.add(sig(c))));
    let mut s = Scope::new();
    s.add_assign(Assign::new(c, a.add(Term::Unsigned(1))));
    s.when(Op::new(sig(a), Term::Unsigned(1), "=="), inner);
    s
}

#[test]
fn comb_scope_text() {
    let a = Signal::new("a", 32);
    let b = Signal::new("b", 32);
    let c = Signal::new("c", 32);
    let s = comb_block(&a, &b, &c);
    assert_eq!(s.synth(), "always_comb begin\nc = (a + 1);\nif ((a == 1)) begin\nb = (a + c);\nend\nend\n");
}

#[test]
fn comb_module() {
    let mut m = Module::new("comb");
    let a = Signal::new("a", 32);
    let b = Signal::new("b", 32);
    let c = Signal::new("c", 32);
    m.comb(comb_block(&a, &b, &c));
    assert_eq!(m.synth(), "module comb();\n\nalways_comb begin\nc = (a + 1);\nif ((a == 1)) begin\nb = (a + c);\nend\nend\n\nendmodule");
}

#[test]
fn sync_module() {
    let mut m = Module::new("sync");
    let a = Signal::new("a", 32);
    let b = Signal::new("b", 32);
    let c = Signal::new("c", 32);
    let clk = Signal::bool("clk");

    let mut then_branch = Scope::new();
    then_branch.add_assign(Assign::new(&b, a.add(sig(&c))));
    let mut else_branch = Scope::new();
    else_branch.add_assign(Assign::new(&b, Op::new(node(a.add(sig(&c))), Term::Unsigned(2), "+")));

    let mut s = Scope::new();
    s.add_assign(Assign::new(&c, a.add(Term::Unsigned(1))));
    s.when(Op::new(sig(&a), Term::Unsigned(1), "=="), then_branch)
        .otherwise(else_branch);
    m.on(&clk, s);

    assert_eq!(m.synth(), "module sync();\n\nalways_ff @(posedge clk) begin\nc <= (a + 1);\nif ((a == 1)) begin\nb <= (a + c);\nend\nelse begin\nb <= ((a + c) + 2);\nend\nend\n\nendmodule");
}

#[test]
fn clocked_three_way_chain() {
    let mut m = Module::new("chain");
    let a = Signal::new("a", 8);
    let b = Signal::new("b", 8);
    let clk = Signal::bool("clk");

    let mut first = Scope::new();
    first.add_assign(Assign::new(&b, Op::new_unary(Term::Unsigned(1), "")));
    let mut second = Scope::new();
    second.add_assign(Assign::new(&b, Op::new_unary(Term::Unsigned(2), "")));
    let mut third = Scope::new();
    third.add_assign(Assign::new(&b, Op::new_unary(sig(&a), "~")));

    let mut s = Scope::new();
    s.when(Op::new(sig(&a), Term::Unsigned(1), "=="), first)
        .elsewhen(Op::new(sig(&a), Term::Unsigned(2), "<"), second)
        .otherwise(third);
    m.on(&clk, s);

    assert_eq!(m.synth(), "module chain();\n\nalways_ff @(posedge clk) begin\nif ((a == 1)) begin\nb <= (1);\nend\nelse if ((a < 2)) begin\nb <= (2);\nend\nelse begin\nb <= (~a);\nend\nend\n\nendmodule");
}

#[test]
fn nested_scope_inherits_clocking() {
    let a = Signal::new("a", 4);
    let b = Signal::new("b", 4);
    let mut deepest = Scope::new();
    deepest.add_assign(Assign::new(&b, Op::new_unary(sig(&a), "~")));
    let mut middle = Scope::new();
    middle.when(Op::new(sig(&a), Term::Unsigned(3), ">="), deepest);
    let mut top = Scope::new();
    top.when(Op::new(sig(&a), Term::Unsigned(0), "!="), middle);
    let clk = Signal::bool("clk");
    let mut m = Module::new("deep");
    m.on(&clk, top);
    assert_eq!(m.synth(), "module deep();\n\nalways_ff @(posedge clk) begin\nif ((a != 0)) begin\nif ((a >= 3)) begin\nb <= (~a);\nend\nend\nend\n\nendmodule");
}

#[test]
fn render_twice_identical() {
    let mut m = Module::new("twice");
    let a = Signal::new("a", 2);
    let o = Signal::new("o", 2);
    m.add_input(a.copy());
    m.add_output(o.copy());
    m.add_assign(Assign::new(&o, Op::new_unary(sig(&a), "~")));
    m.comb(comb_block(&a, &o, &Signal::new("t", 2)));
    let first = m.synth();
    let second = m.synth();
    assert_eq!(first, second);
}

#[test]
fn declaration_order_does_not_matter() {
    let names = ["zeta", "alpha", "mid", "Beta"];
    let mut forward = Module::new("m");
    for n in names.iter() {
        forward.add_input(Signal::new(n, 3));
    }
    let mut backward = Module::new("m");
    for n in names.iter().rev() {
        backward.add_input(Signal::new(n, 3));
    }
    let expected = "module m();\ninput logic [2:0] Beta;\ninput logic [2:0] alpha;\ninput logic [2:0] mid;\ninput logic [2:0] zeta;\nendmodule";
    assert_eq!(forward.synth(), expected);
    assert_eq!(backward.synth(), expected);
}

#[test]
fn outputs_and_assignments_sorted_by_name() {
    let mut m = Module::new("s");
    let x = Signal::new("x", 1);
    let w = Signal::new("w", 1);
    let ww = Signal::new("ww", 1);
    m.add_output(ww.copy());
    m.add_output(x.copy());
    m.add_output(w.copy());
    m.add_assign(Assign::new(&x, Op::new_unary(Term::Unsigned(0), "")));
    m.add_assign(Assign::new(&ww, Op::new_unary(Term::Unsigned(1), "")));
    m.add_assign(Assign::new(&w, Op::new_unary(Term::Unsigned(1), "")));
    assert_eq!(m.synth(), "module s();\noutput logic [0:0] w;\noutput logic [0:0] ww;\noutput logic [0:0] x;\nassign w = (1);\nassign ww = (1);\nassign x = (0);\nendmodule");
}

#[test]
fn scope_assignments_sorted_by_name() {
    let a = Signal::new("a", 1);
    let b = Signal::new("b", 1);
    let mut s = Scope::new();
    s.add_assign(Assign::new(&b, Op::new_unary(Term::Unsigned(1), "")));
    s.add_assign(Assign::new(&a, Op::new_unary(Term::Unsigned(0), "")));
    assert_eq!(s.synth(), "always_comb begin\na = (0);\nb = (1);\nend\n");
}

#[test]
fn duplicate_destination_is_detected() {
    let mut m = Module::new("dup");
    let o = Signal::new("o", 8);
    assert!(!m.is_assigned("o"));
    m.add_assign(Assign::new(&o, Op::new_unary(Term::Unsigned(1), "")));
    assert!(m.is_assigned("o"));
    assert!(!m.is_assigned("p"));

    let mut s = Scope::new();
    assert!(!s.is_assigned("o"));
    s.add_assign(Assign::new(&o, Op::new_unary(Term::Unsigned(1), "")));
    assert!(s.is_assigned("o"));
    assert!(!s.is_assigned("oo"));
}

#[test]
fn duplicate_declaration_is_detected() {
    let mut m = Module::new("dup");
    assert!(!m.is_declared("a"));
    m.add_input(Signal::new("a", 1));
    assert!(m.is_declared("a"));
    m.add_output(Signal::new("b", 1));
    assert!(m.is_declared("b"));
    assert!(!m.is_declared("c"));
}

#[test]
fn empty_module() {
    let m = Module::new("empty");
    assert_eq!(m.synth(), "module empty();\nendmodule");
}

#[test]
fn logic_makes_signal() {
    let m = Module::new("holder");
    let s = m.logic("data", 16);
    assert_eq!(s.name(), "data");
    assert_eq!(s.width(), 16);
    assert_eq!(s.def(), "logic [15:0] data");
}

#[test]
fn branches_built_before_clocking_render_nonblocking() {
    let a = Signal::new("a", 4);
    let b = Signal::new("b", 4);
    let mut deepest = Scope::new();
    deepest.add_assign(Assign::new(&b, Op::new_unary(sig(&a), "~")));
    deepest.assigns_in_order();
    let mut body = Scope::new();
    body.when(Op::new(sig(&a), Term::Unsigned(0), "=="), deepest);
    let clk = Signal::bool("clk");
    let mut m = Module::new("late");
    m.on(&clk, body);
    m.lists_in_order();
    assert_eq!(m.synth(), "module late();\n\nalways_ff @(posedge clk) begin\nif ((a == 0)) begin\nb <= (~a);\nend\nend\n\nendmodule");
}
