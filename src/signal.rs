//! Signals: named, fixed-width wires, the leaves of every expression.
use vstd::prelude::*;
use vstd::utf8::encode_utf8;
use arraystring::ArrayString;
use arraystring::typenum::U64;
use crate::Operand;
use crate::expr::{Op, Term};
use crate::text::{decimal, decimal_string, lemma_decimal_injective};

verus! {

/// How many bytes of UTF-8 a signal name may take.
pub const NAME_CAPACITY: usize = 64;

/// A name that a signal can carry: not empty, and at most `NAME_CAPACITY` bytes long.
pub open spec fn valid_name(name: Seq<char>) -> bool {
    0 < name.len() && encode_utf8(name).len() <= NAME_CAPACITY
}

/// A name takes between one and four bytes of UTF-8 per character, so any name of one to
/// sixteen characters is a valid signal name.
pub proof fn lemma_name_bytes(name: Seq<char>)
    ensures
        name.len() <= encode_utf8(name).len() <= 4 * name.len(),
        0 < name.len() <= 16 ==> valid_name(name),
    decreases name.len(),
{
    if name.len() > 0 {
        lemma_name_bytes(name.drop_first());
    }
}

/// What a signal is: its name and its width in bits.
pub struct SignalModel {
    pub name: Seq<char>,
    pub width: nat,
}

/// The declaration of a signal: `logic [<width-1>:0] <name>`.
pub open spec fn decl_text(s: SignalModel) -> Seq<char> {
    "logic ["@ + decimal((s.width - 1) as nat) + ":0] "@ + s.name
}

/// A named wire or register of a fixed width of at least one bit.
pub struct Signal {
    name: String,
    width: u32,
}

/// Relies on arraystring's `ArrayString::<U64>::try_from_str`, which accepts a string of
/// at most 64 bytes and stores its bytes unchanged, and `as_str`, which hands them back.
#[verifier::external_body]
fn bounded_name(name: &str) -> (r: Option<String>)
    ensures
        r is Some <==> encode_utf8(name@).len() <= NAME_CAPACITY,
        r matches Some(s) ==> s@ == name@,
{
    match ArrayString::<U64>::try_from_str(name) {
        Ok(stored) => Some(String::from(stored.as_str())),
        Err(_) => None,
    }
}

impl View for Signal {
    type V = SignalModel;

    closed spec fn view(&self) -> SignalModel {
        SignalModel { name: self.name@, width: self.width as nat }
    }
}

impl Signal {
    #[verifier::type_invariant]
    spec fn well_formed(self) -> bool {
        valid_name(self.name@) && self.width >= 1
    }

    /// Makes a signal, or `None` when the name is empty or too long for a signal name,
    /// or the width is zero.
    pub fn try_new(name: &str, width: u32) -> (r: Option<Signal>)
        ensures
            r is Some <==> valid_name(name@) && width >= 1,
            r matches Some(s) ==> s@ == (SignalModel { name: name@, width: width as nat }),
    {
        if width == 0 || name.is_empty() {
            return None;
        }
        match bounded_name(name) {
            Some(stored) => Some(Signal { name: stored, width }),
            None => None,
        }
    }

    /// Makes a signal of the given name and width.
    pub fn new(name: &str, width: u32) -> (r: Signal)
        requires
            valid_name(name@),
            width >= 1,
        ensures
            r@ == (SignalModel { name: name@, width: width as nat }),
    {
        match Signal::try_new(name, width) {
            Some(s) => s,
            None => vstd::pervasive::unreached(),
        }
    }

    /// A signal one bit wide.
    pub fn bool(name: &str) -> (r: Signal)
        requires
            valid_name(name@),
        ensures
            r@ == (SignalModel { name: name@, width: 1 }),
    {
        Signal::new(name, 1)
    }

    /// A signal with the same name and width.
    pub fn copy(&self) -> (r: Signal)
        ensures
            r == *self,
    {
        proof {
            use_type_invariant(self);
        }
        Signal { name: self.name.clone(), width: self.width }
    }

    /// The declaration of the signal, `logic [<width-1>:0] <name>`.
    pub fn def(&self) -> (r: String)
        ensures
            r@ == decl_text(self@),
    {
        proof {
            use_type_invariant(self);
        }
        let mut s = String::from_str("logic [");
        s.append(decimal_string(self.width - 1).as_str());
        s.append(":0] ");
        s.append(self.name.as_str());
        s
    }

    /// The name of the signal.
    pub fn name(&self) -> (r: &str)
        ensures
            r@ == self@.name,
    {
        self.name.as_str()
    }

    /// The sum of this signal and `other`: renders as `(<name> + <other>)`.
    pub fn add(&self, other: Term) -> (r: Op)
        ensures
            r == (Op { a: Term::Sig(*self), b: Some(other), op: r.op }),
            r.op@ == "+"@,
    {
        Op::new(Term::Sig(self.copy()), other, "+")
    }

    /// The width of the signal in bits.
    pub fn width(&self) -> (r: u32)
        ensures
            r == self@.width,
    {
        self.width
    }
}

impl Clone for Signal {
    fn clone(&self) -> (r: Signal)
        ensures
            r == *self,
    {
        self.copy()
    }
}

impl Operand for Signal {
    open spec fn operand_text(&self) -> Seq<char> {
        self@.name
    }

    fn repr(&self) -> (r: String) {
        String::from_str(self.name())
    }
}

/// A declaration gives `width - 1` as the upper bit index, which is never the decimal of
/// `width` itself.
pub proof fn law_declaration_upper_index(s: SignalModel)
    requires
        s.width >= 1,
    ensures
        decl_text(s) == "logic ["@ + decimal((s.width - 1) as nat) + ":0] "@ + s.name,
        decimal((s.width - 1) as nat) != decimal(s.width),
{
    if decimal((s.width - 1) as nat) == decimal(s.width) {
        lemma_decimal_injective((s.width - 1) as nat, s.width);
    }
}

} // verus!
