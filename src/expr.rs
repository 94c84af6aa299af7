//! Expression trees and assignments. An expression is a textual syntax tree: it is never
//! evaluated, only written out, each operator application in its own parentheses.
use vstd::prelude::*;
use crate::Operand;
use crate::signal::Signal;
use crate::text::{decimal, decimal_string, signed_decimal, signed_decimal_string};

verus! {

/// An operand of an operator: a signal, a literal, or a further operator application.
pub enum Term {
    Sig(Signal),
    Unsigned(u32),
    Signed(i32),
    Text(String),
    Node(Box<Op>),
}

/// An operator applied to one operand (`b` is `None`) or to two.
pub struct Op {
    pub a: Term,
    pub b: Option<Term>,
    pub op: String,
}

/// The text of an operand.
pub open spec fn term_text(t: Term) -> Seq<char>
    decreases t,
{
    match t {
        Term::Sig(s) => s@.name,
        Term::Unsigned(n) => decimal(n as nat),
        Term::Signed(i) => signed_decimal(i as int),
        Term::Text(s) => s@,
        Term::Node(o) => op_text(*o),
    }
}

/// The text of an operator application: `(<a> <op> <b>)`, or `(<op><a>)` for a unary one.
pub open spec fn op_text(o: Op) -> Seq<char>
    decreases o,
{
    match o.b {
        Some(b) => "("@ + term_text(o.a) + " "@ + o.op@ + " "@ + term_text(b) + ")"@,
        None => "("@ + o.op@ + term_text(o.a) + ")"@,
    }
}

fn term_repr(t: &Term) -> (r: String)
    ensures
        r@ == term_text(*t),
    decreases t,
{
    match t {
        Term::Sig(s) => String::from_str(s.name()),
        Term::Unsigned(n) => decimal_string(*n),
        Term::Signed(i) => signed_decimal_string(*i),
        Term::Text(s) => s.clone(),
        Term::Node(o) => op_repr(o),
    }
}

pub(crate) fn op_repr(o: &Op) -> (r: String)
    ensures
        r@ == op_text(*o),
    decreases o,
{
    let mut s = String::from_str("(");
    match &o.b {
        Some(b) => {
            s.append(term_repr(&o.a).as_str());
            s.append(" ");
            s.append(o.op.as_str());
            s.append(" ");
            s.append(term_repr(b).as_str());
        },
        None => {
            s.append(o.op.as_str());
            s.append(term_repr(&o.a).as_str());
        },
    }
    s.append(")");
    s
}

impl Op {
    /// Applies a unary operator: renders as `(<op><a>)`.
    pub fn new_unary(a: Term, op: &str) -> (r: Op)
        ensures
            r == (Op { a, b: None, op: r.op }),
            r.op@ == op@,
    {
        Op { a, b: None, op: String::from_str(op) }
    }

    /// Applies a binary operator: renders as `(<a> <op> <b>)`.
    pub fn new(a: Term, b: Term, op: &str) -> (r: Op)
        ensures
            r == (Op { a, b: Some(b), op: r.op }),
            r.op@ == op@,
    {
        Op { a, b: Some(b), op: String::from_str(op) }
    }
}

impl Operand for Op {
    open spec fn operand_text(&self) -> Seq<char> {
        op_text(*self)
    }

    fn repr(&self) -> (r: String) {
        op_repr(self)
    }
}

impl Operand for Term {
    open spec fn operand_text(&self) -> Seq<char> {
        term_text(*self)
    }

    fn repr(&self) -> (r: String) {
        term_repr(self)
    }
}

impl Operand for u32 {
    open spec fn operand_text(&self) -> Seq<char> {
        decimal(*self as nat)
    }

    fn repr(&self) -> (r: String) {
        decimal_string(*self)
    }
}

impl Operand for i32 {
    open spec fn operand_text(&self) -> Seq<char> {
        signed_decimal(*self as int)
    }

    fn repr(&self) -> (r: String) {
        signed_decimal_string(*self)
    }
}

impl Operand for String {
    open spec fn operand_text(&self) -> Seq<char> {
        self@
    }

    fn repr(&self) -> (r: String) {
        self.clone()
    }
}

/// A destination signal bound to the value of an expression.
pub struct Assign {
    pub dest: Signal,
    pub op: Op,
}

/// The text of an assignment: `<dest> <= <expr>;` when non-blocking, `<dest> = <expr>;`
/// otherwise.
pub open spec fn assign_text(a: Assign, nonblocking: bool) -> Seq<char> {
    a.dest@.name + (if nonblocking {
        " <= "@
    } else {
        " = "@
    }) + op_text(a.op) + ";"@
}

impl Assign {
    /// Binds `dest` to the value of `op`.
    pub fn new(dest: &Signal, op: Op) -> (r: Assign)
        ensures
            r == (Assign { dest: *dest, op }),
    {
        Assign { dest: dest.copy(), op }
    }

    /// The assignment as a statement, non-blocking (`<=`) or blocking (`=`).
    pub fn synth(&self, nonblocking: bool) -> (r: String)
        ensures
            r@ == assign_text(*self, nonblocking),
    {
        let mut s = String::from_str(self.dest.name());
        if nonblocking {
            s.append(" <= ");
        } else {
            s.append(" = ");
        }
        s.append(op_repr(&self.op).as_str());
        s.append(";");
        s
    }
}

/// How many operator applications an operand holds.
pub open spec fn term_ops(t: Term) -> nat
    decreases t,
{
    match t {
        Term::Node(o) => op_ops(*o),
        _ => 0,
    }
}

/// How many operator applications a tree holds, its root included.
pub open spec fn op_ops(o: Op) -> nat
    decreases o,
{
    1 + term_ops(o.a) + match o.b {
        Some(b) => term_ops(b),
        None => 0,
    }
}

/// How often `c` occurs in `s`.
pub open spec fn count_char(s: Seq<char>, c: char) -> nat
    decreases s.len(),
{
    if s.len() == 0 {
        0
    } else {
        count_char(s.drop_last(), c) + if s.last() == c {
            1nat
        } else {
            0nat
        }
    }
}

/// No parenthesis occurs in `s`.
pub open spec fn paren_free(s: Seq<char>) -> bool {
    count_char(s, '(') == 0 && count_char(s, ')') == 0
}

/// The signal names, text literals and operator tokens of an operand hold no parenthesis.
pub open spec fn term_plain(t: Term) -> bool
    decreases t,
{
    match t {
        Term::Sig(s) => paren_free(s@.name),
        Term::Text(s) => paren_free(s@),
        Term::Node(o) => op_plain(*o),
        _ => true,
    }
}

/// The signal names, text literals and operator tokens of a tree hold no parenthesis.
pub open spec fn op_plain(o: Op) -> bool
    decreases o,
{
    &&& paren_free(o.op@)
    &&& term_plain(o.a)
    &&& match o.b {
        Some(b) => term_plain(b),
        None => true,
    }
}

proof fn lemma_count_concat(a: Seq<char>, b: Seq<char>, c: char)
    ensures
        count_char(a + b, c) == count_char(a, c) + count_char(b, c),
    decreases b.len(),
{
    if b.len() == 0 {
        assert(a + b =~= a);
    } else {
        assert((a + b).drop_last() =~= a + b.drop_last());
        lemma_count_concat(a, b.drop_last(), c);
    }
}

proof fn lemma_count_decimal(n: nat, c: char)
    requires
        c == '(' || c == ')',
    ensures
        count_char(decimal(n), c) == 0,
    decreases n,
{
    if n >= 10 {
        assert(decimal(n).drop_last() =~= decimal(n / 10));
        lemma_count_decimal(n / 10, c);
    } else {
        assert(decimal(n).drop_last() =~= Seq::<char>::empty());
        assert(count_char(Seq::<char>::empty(), c) == 0);
    }
}

proof fn lemma_count_single(ch: char, c: char)
    ensures
        count_char(seq![ch], c) == if ch == c {
            1nat
        } else {
            0nat
        },
{
    assert(seq![ch].drop_last() =~= Seq::<char>::empty());
    assert(count_char(Seq::<char>::empty(), c) == 0);
}

proof fn lemma_count_literals(c: char)
    requires
        c == '(' || c == ')',
    ensures
        count_char("("@, c) == if c == '(' {
            1nat
        } else {
            0nat
        },
        count_char(")"@, c) == if c == ')' {
            1nat
        } else {
            0nat
        },
        count_char(" "@, c) == 0,
        count_char(seq!['-'], c) == 0,
{
    reveal_strlit("(");
    reveal_strlit(")");
    reveal_strlit(" ");
    assert("("@ =~= seq!['(']);
    assert(")"@ =~= seq![')']);
    assert(" "@ =~= seq![' ']);
    lemma_count_single('(', c);
    lemma_count_single(')', c);
    lemma_count_single(' ', c);
    lemma_count_single('-', c);
}

proof fn lemma_term_parens(t: Term, c: char)
    requires
        term_plain(t),
        c == '(' || c == ')',
    ensures
        count_char(term_text(t), c) == term_ops(t),
    decreases t,
{
    match t {
        Term::Unsigned(n) => lemma_count_decimal(n as nat, c),
        Term::Signed(i) => {
            lemma_count_literals(c);
            if i < 0 {
                lemma_count_decimal((-i) as nat, c);
                lemma_count_concat(seq!['-'], decimal((-i) as nat), c);
            } else {
                lemma_count_decimal(i as nat, c);
            }
        },
        Term::Node(o) => lemma_op_parens(*o, c),
        _ => {},
    }
}

proof fn lemma_op_parens(o: Op, c: char)
    requires
        op_plain(o),
        c == '(' || c == ')',
    ensures
        count_char(op_text(o), c) == op_ops(o),
    decreases o,
{
    lemma_count_literals(c);
    lemma_term_parens(o.a, c);
    let open = "("@;
    let close = ")"@;
    let space = " "@;
    let a = term_text(o.a);
    match o.b {
        Some(b) => {
            lemma_term_parens(b, c);
            let tb = term_text(b);
            lemma_count_concat(open, a, c);
            lemma_count_concat(open + a, space, c);
            lemma_count_concat(open + a + space, o.op@, c);
            lemma_count_concat(open + a + space + o.op@, space, c);
            lemma_count_concat(open + a + space + o.op@ + space, tb, c);
            lemma_count_concat(open + a + space + o.op@ + space + tb, close, c);
        },
        None => {
            lemma_count_concat(open, o.op@, c);
            lemma_count_concat(open + o.op@, a, c);
            lemma_count_concat(open + o.op@ + a, close, c);
        },
    }
}

/// No prefix of `s` closes more than `e` parentheses beyond those it opens.
pub open spec fn prefixes_within(s: Seq<char>, e: int) -> bool {
    forall|k: int|
        0 <= k <= s.len() ==> count_char(#[trigger] s.subrange(0, k), ')') <= count_char(
            s.subrange(0, k),
            '(',
        ) + e
}

proof fn lemma_count_prefix(s: Seq<char>, k: int, c: char)
    requires
        0 <= k <= s.len(),
    ensures
        count_char(s.subrange(0, k), c) <= count_char(s, c),
    decreases s.len(),
{
    if k == s.len() {
        assert(s.subrange(0, k) =~= s);
    } else {
        assert(s.subrange(0, k) =~= s.drop_last().subrange(0, k));
        lemma_count_prefix(s.drop_last(), k, c);
    }
}

proof fn lemma_paren_free_within(s: Seq<char>, e: int)
    requires
        paren_free(s),
        e >= 0,
    ensures
        prefixes_within(s, e),
{
    assert forall|k: int| 0 <= k <= s.len() implies count_char(#[trigger] s.subrange(0, k), ')')
        <= count_char(s.subrange(0, k), '(') + e by {
        lemma_count_prefix(s, k, ')');
    }
}

proof fn lemma_within_concat(a: Seq<char>, b: Seq<char>, e: int)
    requires
        prefixes_within(a, e),
        prefixes_within(b, e + count_char(a, '(') - count_char(a, ')')),
    ensures
        prefixes_within(a + b, e),
{
    assert forall|k: int| 0 <= k <= (a + b).len() implies count_char(
        #[trigger] (a + b).subrange(0, k),
        ')',
    ) <= count_char((a + b).subrange(0, k), '(') + e by {
        if k <= a.len() {
            assert((a + b).subrange(0, k) =~= a.subrange(0, k));
        } else {
            let j = k - a.len();
            assert((a + b).subrange(0, k) =~= a + b.subrange(0, j));
            lemma_count_concat(a, b.subrange(0, j), '(');
            lemma_count_concat(a, b.subrange(0, j), ')');
        }
    }
}

proof fn lemma_close_within(e: int)
    requires
        e >= 1,
    ensures
        prefixes_within(")"@, e),
{
    reveal_strlit(")");
    assert forall|k: int| 0 <= k <= ")"@.len() implies count_char(#[trigger] ")"@.subrange(0, k), ')')
        <= count_char(")"@.subrange(0, k), '(') + e by {
        lemma_count_prefix(")"@, k, ')');
        lemma_count_literals(')');
    }
}

proof fn lemma_open_within(e: int)
    requires
        e >= 0,
    ensures
        prefixes_within("("@, e),
{
    assert forall|k: int| 0 <= k <= "("@.len() implies count_char(#[trigger] "("@.subrange(0, k), ')')
        <= count_char("("@.subrange(0, k), '(') + e by {
        lemma_count_prefix("("@, k, ')');
        lemma_count_literals(')');
    }
}

proof fn lemma_term_within(t: Term, e: int)
    requires
        term_plain(t),
        e >= 0,
    ensures
        prefixes_within(term_text(t), e),
    decreases t,
{
    lemma_term_parens(t, '(');
    lemma_term_parens(t, ')');
    match t {
        Term::Node(o) => lemma_op_within(*o, e),
        _ => {
            assert(term_ops(t) == 0);
            lemma_paren_free_within(term_text(t), e);
        },
    }
}

proof fn lemma_op_within(o: Op, e: int)
    requires
        op_plain(o),
        e >= 0,
    ensures
        prefixes_within(op_text(o), e),
    decreases o,
{
    lemma_count_literals('(');
    lemma_count_literals(')');
    let open = "("@;
    let close = ")"@;
    let space = " "@;
    assert(paren_free(space));
    let a = term_text(o.a);
    lemma_term_parens(o.a, '(');
    lemma_term_parens(o.a, ')');
    lemma_open_within(e);
    lemma_term_within(o.a, e + 1);
    lemma_paren_free_within(space, e + 1);
    lemma_paren_free_within(o.op@, e + 1);
    lemma_close_within(e + 1);
    match o.b {
        Some(b) => {
            let tb = term_text(b);
            lemma_term_parens(b, '(');
            lemma_term_parens(b, ')');
            lemma_term_within(b, e + 1);
            lemma_within_concat(open, a, e);
            lemma_count_concat(open, a, '(');
            lemma_count_concat(open, a, ')');
            lemma_within_concat(open + a, space, e);
            lemma_count_concat(open + a, space, '(');
            lemma_count_concat(open + a, space, ')');
            lemma_within_concat(open + a + space, o.op@, e);
            lemma_count_concat(open + a + space, o.op@, '(');
            lemma_count_concat(open + a + space, o.op@, ')');
            lemma_within_concat(open + a + space + o.op@, space, e);
            lemma_count_concat(open + a + space + o.op@, space, '(');
            lemma_count_concat(open + a + space + o.op@, space, ')');
            lemma_within_concat(open + a + space + o.op@ + space, tb, e);
            lemma_count_concat(open + a + space + o.op@ + space, tb, '(');
            lemma_count_concat(open + a + space + o.op@ + space, tb, ')');
            lemma_within_concat(open + a + space + o.op@ + space + tb, close, e);
        },
        None => {
            lemma_within_concat(open, o.op@, e);
            lemma_count_concat(open, o.op@, '(');
            lemma_count_concat(open, o.op@, ')');
            lemma_within_concat(open + o.op@, a, e);
            lemma_count_concat(open + o.op@, a, '(');
            lemma_count_concat(open + o.op@, a, ')');
            lemma_within_concat(open + o.op@ + a, close, e);
        },
    }
}

/// Every operator application renders inside its own pair of parentheses: the text of a
/// tree opens with `(` and closes with `)`, and when no name, literal or token in it holds
/// a parenthesis, it holds exactly one `(` and one `)` for each operator application, and
/// no prefix of it closes more parentheses than it opens.
pub proof fn law_fully_parenthesized(o: Op)
    ensures
        op_text(o).len() >= 2,
        op_text(o)[0] == '(',
        op_text(o).last() == ')',
        op_plain(o) ==> count_char(op_text(o), '(') == op_ops(o) && count_char(op_text(o), ')')
            == op_ops(o),
        op_plain(o) ==> prefixes_within(op_text(o), 0),
{
    reveal_strlit("(");
    reveal_strlit(")");
    if op_plain(o) {
        lemma_op_parens(o, '(');
        lemma_op_parens(o, ')');
        lemma_op_within(o, 0);
    }
}

/// A binary operator applied to two binary applications renders with two levels of
/// parentheses, operands in the order the tree was built:
/// `((<x> <p> <y>) <op> (<z> <q> <w>))`.
pub proof fn law_two_levels(x: Term, p: String, y: Term, op: String, z: Term, q: String, w: Term)
    ensures
        op_text(
            Op {
                a: Term::Node(Box::new(Op { a: x, b: Some(y), op: p })),
                b: Some(Term::Node(Box::new(Op { a: z, b: Some(w), op: q }))),
                op,
            },
        ) == "("@ + ("("@ + term_text(x) + " "@ + p@ + " "@ + term_text(y) + ")"@) + " "@ + op@
            + " "@ + ("("@ + term_text(z) + " "@ + q@ + " "@ + term_text(w) + ")"@) + ")"@,
{
    let left = Op { a: x, b: Some(y), op: p };
    let right = Op { a: z, b: Some(w), op: q };
    assert(term_text(Term::Node(Box::new(left))) == op_text(left));
    assert(term_text(Term::Node(Box::new(right))) == op_text(right));
    assert(op_text(left) =~= "("@ + term_text(x) + " "@ + p@ + " "@ + term_text(y) + ")"@);
    assert(op_text(right) =~= "("@ + term_text(z) + " "@ + q@ + " "@ + term_text(w) + ")"@);
}

} // verus!
