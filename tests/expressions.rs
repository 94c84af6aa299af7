use hdl::{Assign, Conditional, Op, Operand, Signal, Term};

fn sig(s: &Signal) -> Term {
    Term::Sig(s.copy())
}

fn node(o: Op) -> Term {
    Term::Node(Box::new(o))
}

#[test]
fn binary_ops_render_parenthesized() {
    let a = Signal::new("a", 32);
    let b = Signal::new("b", 32);
    for op in ["+", "-", "*", "/", "<<", ">>", "&", "|", "^", "==", "!=", "<", "<=", ">", ">="] {
        assert_eq!(Op::new(sig(&a), sig(&b), op).repr(), format!("(a {} b)", op));
    }
    assert_eq!(Op::new(sig(&a), Term::Unsigned(1), "-").repr(), "(a - 1)");
}

#[test]
fn unary_op_renders_parenthesized() {
    let a = Signal::new("a", 32);
    let b = Signal::new("b", 32);
    assert_eq!(Op::new_unary(sig(&a), "~").repr(), "(~a)");
    assert_eq!(Op::new_unary(node(Op::new(sig(&a), sig(&b), "-")), "~").repr(), "(~(a - b))");
}

#[test]
fn depth_two_trees_nest_in_construction_order() {
    let a = Signal::new("a", 32);
    let b = Signal::new("b", 32);
    let diff = || node(Op::new(sig(&a), sig(&b), "-"));
    let sum = || node(Op::new(sig(&a), sig(&b), "+"));
    assert_eq!(Op::new(sig(&a), diff(), "+").repr(), "(a + (a - b))");
    assert_eq!(Op::new(diff(), sig(&a), "+").repr(), "((a - b) + a)");
    assert_eq!(Op::new(diff(), sum(), "+").repr(), "((a - b) + (a + b))");
    assert_eq!(Op::new(diff(), sum(), "^").repr(), "((a - b) ^ (a + b))");
    assert_eq!(Op::new(diff(), Term::Unsigned(1), "-").repr(), "((a - b) - 1)");
}

#[test]
fn literals_render_in_decimal() {
    assert_eq!(0u32.repr(), "0");
    assert_eq!(1234567890u32.repr(), "1234567890");
    assert_eq!(u32::MAX.repr(), "4294967295");
    assert_eq!((-42i32).repr(), "-42");
    assert_eq!(i32::MIN.repr(), "-2147483648");
    assert_eq!(i32::MAX.repr(), "2147483647");
    assert_eq!(String::from("8'hff").repr(), "8'hff");
    assert_eq!(Term::Signed(-7).repr(), "-7");
    assert_eq!(Term::Text(String::from("x")).repr(), "x");
    let a = Signal::new("a", 3);
    assert_eq!(Op::new(sig(&a), Term::Signed(-3), "+").repr(), "(a + -3)");
}

#[test]
fn assignment_blocking_and_nonblocking() {
    let a = Signal::new("a", 32);
    let b = Signal::new("b", 32);
    let o = Signal::new("o", 32);
    let asg = Assign::new(&o, Op::new(sig(&a), sig(&b), "+"));
    assert_eq!(asg.synth(false), "o = (a + b);");
    assert_eq!(asg.synth(true), "o <= (a + b);");
}

#[test]
fn headers_of_each_kind() {
    let a = Signal::new("a", 1);
    let clk = Signal::bool("clk");
    let cond = || Op::new(sig(&a), Term::Unsigned(1), "==");
    assert_eq!(Conditional::AlwaysComb.header(), "always_comb begin\n");
    assert_eq!(Conditional::Posedge(clk.copy()).header(), "always_ff @(posedge clk) begin\n");
    assert_eq!(Conditional::When(cond()).header(), "if ((a == 1)) begin\n");
    assert_eq!(Conditional::ElseWhen(cond()).header(), "else if ((a == 1)) begin\n");
    assert_eq!(Conditional::Otherwise.header(), "else begin\n");
}
