//! Scopes and modules: the blocks that hold assignments, and the top-level container that
//! declares signals and renders the whole description.
use vstd::prelude::*;
use crate::Synth;
use crate::condition::{header_text, Conditional};
use crate::expr::{assign_text, Assign, Op};
use crate::signal::{decl_text, valid_name, Signal, SignalModel};
use crate::sorted::{
    added, contains_key, has_key, insert_sorted, law_insertion_order_irrelevant, lemma_sorted_unique,
    sorted_by_key, Keyed,
};

verus! {

/// What a scope holds.
pub struct ScopeModel {
    pub cond: Conditional,
    pub sync: bool,
    pub assigns: Seq<Assign>,
    pub scopes: Seq<Scope>,
}

/// A block of assignments under one header, with the blocks nested in it in the order in
/// which they were added. Its assignments are kept in order of destination name.
pub struct Scope {
    cond: Conditional,
    assigns: Vec<Assign>,
    sync: bool,
    scopes: Vec<Scope>,
}

impl View for Scope {
    type V = ScopeModel;

    closed spec fn view(&self) -> ScopeModel {
        ScopeModel {
            cond: self.cond,
            sync: self.sync,
            assigns: self.assigns@,
            scopes: self.scopes@,
        }
    }
}

/// One line per assignment, in order: blocking, or non-blocking inside a clocked block.
pub open spec fn statements_text(s: Seq<Assign>, nonblocking: bool) -> Seq<char>
    decreases s.len(),
{
    if s.len() == 0 {
        Seq::empty()
    } else {
        statements_text(s.drop_last(), nonblocking) + assign_text(s.last(), nonblocking) + "\n"@
    }
}

/// The text of the blocks nested in `sc` from position `i` on, each rendering non-blocking
/// when `sync` holds.
pub open spec fn nested_text(sc: Scope, sync: bool, i: nat) -> Seq<char>
    decreases sc, sc@.scopes.len() - i,
    via nested_text_decreases
{
    if i >= sc@.scopes.len() {
        Seq::empty()
    } else {
        let c = sc@.scopes[i as int];
        header_text(c@.cond) + statements_text(c@.assigns, sync) + nested_text(c, sync, 0)
            + "end\n"@ + nested_text(sc, sync, i + 1)
    }
}

#[via_fn]
proof fn nested_text_decreases(sc: Scope, sync: bool, i: nat) {
    if i < sc@.scopes.len() {
        assert(decreases_to!(sc.scopes => sc.scopes@[i as int]));
    }
}

/// The text of a scope whose assignments render non-blocking when `sync` holds: its header,
/// its assignments, its nested blocks, and `end`.
pub open spec fn scope_text(sc: Scope, sync: bool) -> Seq<char> {
    header_text(sc@.cond) + statements_text(sc@.assigns, sync) + nested_text(sc, sync, 0)
        + "end\n"@
}

proof fn lemma_nested_step(sc: Scope, sync: bool, i: nat)
    requires
        i < sc.scopes@.len(),
    ensures
        nested_text(sc, sync, i) == scope_text(sc.scopes@[i as int], sync) + nested_text(
            sc,
            sync,
            i + 1,
        ),
{
}

/// Every block nested in `sc` from position `i` on, and every block below those, carries the
/// clocking `sync`.
pub open spec fn subtree_sync(sc: Scope, sync: bool, i: nat) -> bool
    decreases sc, sc@.scopes.len() - i,
    via subtree_sync_decreases
{
    if i >= sc@.scopes.len() {
        true
    } else {
        let c = sc@.scopes[i as int];
        c@.sync == sync && subtree_sync(c, sync, 0) && subtree_sync(sc, sync, i + 1)
    }
}

#[via_fn]
proof fn subtree_sync_decreases(sc: Scope, sync: bool, i: nat) {
    if i < sc@.scopes.len() {
        assert(decreases_to!(sc.scopes => sc.scopes@[i as int]));
    }
}

/// `sc` and every block nested in it, at any depth, carry the clocking `sync`.
pub open spec fn tree_sync(sc: Scope, sync: bool) -> bool {
    sc@.sync == sync && subtree_sync(sc, sync, 0)
}

/// `block` holds `body`'s assignments and nested blocks, which render as they did, under the
/// header `kind`; it and every block nested in it carry the clocking `sync`.
pub open spec fn block_from(block: Scope, kind: Conditional, sync: bool, body: Scope) -> bool {
    &&& block@.cond == kind
    &&& block@.assigns == body@.assigns
    &&& block@.scopes.len() == body@.scopes.len()
    &&& tree_sync(block, sync)
    &&& forall|f: bool| #[trigger] nested_text(block, f, 0) == nested_text(body, f, 0)
}

proof fn lemma_subtree_sync(sc: Scope, sync: bool, i: nat)
    requires
        forall|j: int|
            i <= j < sc@.scopes.len() ==> (#[trigger] sc@.scopes[j])@.sync == sync && subtree_sync(
                sc@.scopes[j],
                sync,
                0,
            ),
    ensures
        subtree_sync(sc, sync, i),
    decreases sc@.scopes.len() - i,
{
    if i < sc@.scopes.len() {
        lemma_subtree_sync(sc, sync, i + 1);
    }
}

proof fn lemma_nested_same(a: Scope, b: Scope, f: bool, i: nat)
    requires
        a@.scopes.len() == b@.scopes.len(),
        forall|j: int|
            0 <= j < a@.scopes.len() ==> scope_text(#[trigger] a@.scopes[j], f) == scope_text(
                b@.scopes[j],
                f,
            ),
    ensures
        nested_text(a, f, i) == nested_text(b, f, i),
    decreases a@.scopes.len() - i,
{
    if i < a@.scopes.len() {
        lemma_nested_step(a, f, i);
        lemma_nested_step(b, f, i);
        lemma_nested_same(a, b, f, i + 1);
    }
}

/// Gives `sc` and every block nested in it the clocking `sync`; the text it renders under
/// any clocking stays the same.
fn with_sync(sc: Scope, sync: bool) -> (r: Scope)
    ensures
        r@.cond == sc@.cond,
        r@.assigns == sc@.assigns,
        r@.scopes.len() == sc@.scopes.len(),
        tree_sync(r, sync),
        forall|f: bool| #[trigger] nested_text(r, f, 0) == nested_text(sc, f, 0),
    decreases sc,
{
    proof {
        use_type_invariant(&sc);
    }
    let ghost orig = sc;
    let mut me = sc;
    let mut rest: Vec<Scope> = Vec::new();
    std::mem::swap(&mut me.scopes, &mut rest);
    let mut done: Vec<Scope> = Vec::new();
    while rest.len() > 0
        invariant
            done@.len() + rest@.len() == orig@.scopes.len(),
            rest@ == orig@.scopes.subrange(done@.len() as int, orig@.scopes.len() as int),
            orig == sc,
            me.cond == orig.cond,
            me.assigns == orig.assigns,
            forall|j: int|
                0 <= j < done@.len() ==> (#[trigger] done@[j])@.sync == sync && subtree_sync(
                    done@[j],
                    sync,
                    0,
                ) && forall|f: bool| #[trigger]
                    scope_text(done@[j], f) == scope_text(orig@.scopes[j], f),
        decreases rest@.len(),
    {
        let ghost k = done@.len() as int;
        let c = rest.remove(0);
        proof {
            assert(c == orig.scopes@[k]);
            assert(decreases_to!(orig => orig.scopes));
            assert(decreases_to!(orig.scopes => orig.scopes@[k]));
            assert(decreases_to!(orig => c));
        }
        let c2 = with_sync(c, sync);
        proof {
            assert forall|f: bool| #[trigger] scope_text(c2, f) == scope_text(c, f) by {
                assert(nested_text(c2, f, 0) == nested_text(c, f, 0));
            }
            assert(rest@ =~= orig@.scopes.subrange(k + 1, orig@.scopes.len() as int));
        }
        done.push(c2);
    }
    me.sync = sync;
    std::mem::swap(&mut me.scopes, &mut done);
    let r = me;
    proof {
        lemma_subtree_sync(r, sync, 0);
        assert forall|f: bool| #[trigger] nested_text(r, f, 0) == nested_text(orig, f, 0) by {
            lemma_nested_same(r, orig, f, 0);
        }
    }
    r
}

fn statements(assigns: &Vec<Assign>, nonblocking: bool) -> (r: String)
    ensures
        r@ == statements_text(assigns@, nonblocking),
{
    let mut s = String::new();
    let mut i: usize = 0;
    while i < assigns.len()
        invariant
            i <= assigns.len(),
            s@ == statements_text(assigns@.subrange(0, i as int), nonblocking),
        decreases assigns.len() - i,
    {
        s.append(assigns[i].synth(nonblocking).as_str());
        s.append("\n");
        proof {
            assert(assigns@.subrange(0, i + 1).drop_last() =~= assigns@.subrange(0, i as int));
        }
        i += 1;
    }
    proof {
        assert(assigns@.subrange(0, assigns.len() as int) =~= assigns@);
    }
    s
}

fn render_scope(sc: &Scope, sync: bool) -> (r: String)
    ensures
        r@ == scope_text(*sc, sync),
    decreases sc,
{
    let mut s = sc.cond.header();
    s.append(statements(&sc.assigns, sync).as_str());
    let ghost head = s@;
    let mut i: usize = 0;
    while i < sc.scopes.len()
        invariant
            i <= sc.scopes.len(),
            s@ + nested_text(*sc, sync, i as nat) == head + nested_text(*sc, sync, 0),
        decreases sc.scopes.len() - i,
    {
        let inner = render_scope(&sc.scopes[i], sync);
        proof {
            lemma_nested_step(*sc, sync, i as nat);
        }
        let ghost before = s@;
        s.append(inner.as_str());
        proof {
            assert(s@ + nested_text(*sc, sync, (i + 1) as nat) =~= before + nested_text(
                *sc,
                sync,
                i as nat,
            ));
        }
        i += 1;
    }
    proof {
        assert(s@ =~= s@ + nested_text(*sc, sync, i as nat));
    }
    s.append("end\n");
    s
}

/// `new` is `old` with one more nested block at the end: `body`'s assignments and blocks
/// under the header `kind`, carrying `old`'s clocking throughout.
pub open spec fn branch_added(old: ScopeModel, new: ScopeModel, kind: Conditional, body: Scope) -> bool {
    &&& new.cond == old.cond
    &&& new.sync == old.sync
    &&& new.assigns == old.assigns
    &&& new.scopes.len() == old.scopes.len() + 1
    &&& new.scopes.drop_last() == old.scopes
    &&& block_from(new.scopes.last(), kind, old.sync, body)
}

impl Scope {
    #[verifier::type_invariant]
    spec fn well_formed(self) -> bool {
        sorted_by_key(self.assigns@)
    }

    /// An empty combinational block.
    pub fn new() -> (r: Scope)
        ensures
            r@ == (ScopeModel {
                cond: Conditional::AlwaysComb,
                sync: false,
                assigns: Seq::empty(),
                scopes: Seq::empty(),
            }),
    {
        let r = Scope { cond: Conditional::AlwaysComb, assigns: Vec::new(), sync: false, scopes: Vec::new() };
        proof {
            assert(r.assigns@ =~= Seq::<Assign>::empty());
            assert(r.scopes@ =~= Seq::<Scope>::empty());
        }
        r
    }

    /// Makes known to a verified caller that this block's assignments, and so its statement
    /// lines, come in strictly increasing order of destination name. It does nothing at run
    /// time.
    pub fn assigns_in_order(&self)
        ensures
            sorted_by_key(self@.assigns),
    {
        proof {
            use_type_invariant(self);
        }
    }

    /// Whether this block already assigns a signal of that name.
    pub fn is_assigned(&self, name: &str) -> (r: bool)
        ensures
            r == has_key(self@.assigns, name@),
    {
        contains_key(&self.assigns, name)
    }

    /// Adds an assignment; its destination must not be assigned in this block yet.
    pub fn add_assign(&mut self, a: Assign)
        requires
            !has_key(old(self)@.assigns, a.key()),
        ensures
            added(old(self)@.assigns, final(self)@.assigns, a),
            final(self)@.cond == old(self)@.cond,
            final(self)@.sync == old(self)@.sync,
            final(self)@.scopes == old(self)@.scopes,
    {
        proof {
            use_type_invariant(&*self);
        }
        let mut assigns: Vec<Assign> = Vec::new();
        std::mem::swap(&mut self.assigns, &mut assigns);
        insert_sorted(&mut assigns, a);
        std::mem::swap(&mut self.assigns, &mut assigns);
    }

    fn add_branch(&mut self, kind: Conditional, body: Scope)
        ensures
            branch_added(old(self)@, final(self)@, kind, body),
    {
        proof {
            use_type_invariant(&*self);
            use_type_invariant(&body);
        }
        let mut child = body;
        child.cond = kind;
        let ghost renamed = child;
        let child = with_sync(child, self.sync);
        proof {
            assert forall|f: bool| #[trigger] nested_text(child, f, 0) == nested_text(body, f, 0) by {
                lemma_nested_same(renamed, body, f, 0);
            }
        }
        let mut scopes: Vec<Scope> = Vec::new();
        std::mem::swap(&mut self.scopes, &mut scopes);
        let ghost c = child;
        scopes.push(child);
        std::mem::swap(&mut self.scopes, &mut scopes);
        proof {
            assert(self.scopes@ == old(self).scopes@.push(c));
            assert(self.scopes@.drop_last() =~= old(self).scopes@);
        }
    }

    /// Adds a branch `if (<cond>)` holding `body`'s assignments and blocks.
    pub fn when(&mut self, cond: Op, body: Scope) -> (r: &mut Scope)
        ensures
            branch_added(old(self)@, (*r)@, Conditional::When(cond), body),
            *final(self) == *final(r),
    {
        self.add_branch(Conditional::When(cond), body);
        self
    }

    /// Adds a branch `else if (<cond>)` holding `body`'s assignments and blocks; it belongs
    /// right after a `when` or `elsewhen` branch.
    pub fn elsewhen(&mut self, cond: Op, body: Scope) -> (r: &mut Scope)
        ensures
            branch_added(old(self)@, (*r)@, Conditional::ElseWhen(cond), body),
            *final(self) == *final(r),
    {
        self.add_branch(Conditional::ElseWhen(cond), body);
        self
    }

    /// Adds a closing `else` branch holding `body`'s assignments and blocks.
    pub fn otherwise(&mut self, body: Scope)
        ensures
            branch_added(old(self)@, final(self)@, Conditional::Otherwise, body),
    {
        self.add_branch(Conditional::Otherwise, body);
    }
}

impl Synth for Scope {
    /// A scope renders with its own clocking, which its nested blocks share.
    open spec fn synth_text(&self) -> Seq<char> {
        scope_text(*self, self@.sync)
    }

    fn synth(&self) -> (r: String) {
        render_scope(self, self.sync)
    }
}

/// What a module holds.
pub struct ModuleModel {
    pub name: Seq<char>,
    pub inputs: Seq<Signal>,
    pub outputs: Seq<Signal>,
    pub assigns: Seq<Assign>,
    pub scopes: Seq<Scope>,
}

/// A described hardware block: its inputs and outputs, each listed by name; its module-level
/// assignments, by destination name; and its top-level blocks, in the order they were added.
pub struct Module {
    name: String,
    inputs: Vec<Signal>,
    outputs: Vec<Signal>,
    assigns: Vec<Assign>,
    scopes: Vec<Scope>,
}

impl View for Module {
    type V = ModuleModel;

    closed spec fn view(&self) -> ModuleModel {
        ModuleModel {
            name: self.name@,
            inputs: self.inputs@,
            outputs: self.outputs@,
            assigns: self.assigns@,
            scopes: self.scopes@,
        }
    }
}

/// Some input or output of the module carries `name`.
pub open spec fn declared(m: ModuleModel, name: Seq<char>) -> bool {
    has_key(m.inputs, name) || has_key(m.outputs, name)
}

/// `new` is `old` with the input `s` declared.
pub open spec fn input_added(old: ModuleModel, new: ModuleModel, s: Signal) -> bool {
    added(old.inputs, new.inputs, s) && new == (ModuleModel { inputs: new.inputs, ..old })
}

/// `new` is `old` with the output `s` declared.
pub open spec fn output_added(old: ModuleModel, new: ModuleModel, s: Signal) -> bool {
    added(old.outputs, new.outputs, s) && new == (ModuleModel { outputs: new.outputs, ..old })
}

/// One declaration line per signal: `<keyword>logic [<width-1>:0] <name>;`.
pub open spec fn decls_text(keyword: Seq<char>, s: Seq<Signal>) -> Seq<char>
    decreases s.len(),
{
    if s.len() == 0 {
        Seq::empty()
    } else {
        decls_text(keyword, s.drop_last()) + keyword + decl_text(s.last()@) + ";\n"@
    }
}

/// One `assign <dest> = <expr>;` line per module-level assignment.
pub open spec fn assigns_text(s: Seq<Assign>) -> Seq<char>
    decreases s.len(),
{
    if s.len() == 0 {
        Seq::empty()
    } else {
        assigns_text(s.drop_last()) + "assign "@ + assign_text(s.last(), false) + "\n"@
    }
}

/// Each top-level block, set off by blank lines.
pub open spec fn blocks_text(s: Seq<Scope>) -> Seq<char>
    decreases s.len(),
{
    if s.len() == 0 {
        Seq::empty()
    } else {
        blocks_text(s.drop_last()) + "\n"@ + s.last().synth_text() + "\n"@
    }
}

/// The text of a whole module: header, inputs, outputs, assignments, blocks, `endmodule`.
pub open spec fn module_text(m: ModuleModel) -> Seq<char> {
    "module "@ + m.name + "();\n"@ + decls_text("input "@, m.inputs) + decls_text("output "@, m.outputs)
        + assigns_text(m.assigns) + blocks_text(m.scopes) + "endmodule"@
}

fn decls(keyword: &str, v: &Vec<Signal>) -> (r: String)
    ensures
        r@ == decls_text(keyword@, v@),
{
    let mut s = String::new();
    let mut i: usize = 0;
    while i < v.len()
        invariant
            i <= v.len(),
            s@ == decls_text(keyword@, v@.subrange(0, i as int)),
        decreases v.len() - i,
    {
        s.append(keyword);
        s.append(v[i].def().as_str());
        s.append(";\n");
        proof {
            assert(v@.subrange(0, i + 1).drop_last() =~= v@.subrange(0, i as int));
        }
        i += 1;
    }
    proof {
        assert(v@.subrange(0, v.len() as int) =~= v@);
    }
    s
}

fn module_assigns(v: &Vec<Assign>) -> (r: String)
    ensures
        r@ == assigns_text(v@),
{
    let mut s = String::new();
    let mut i: usize = 0;
    while i < v.len()
        invariant
            i <= v.len(),
            s@ == assigns_text(v@.subrange(0, i as int)),
        decreases v.len() - i,
    {
        s.append("assign ");
        s.append(v[i].synth(false).as_str());
        s.append("\n");
        proof {
            assert(v@.subrange(0, i + 1).drop_last() =~= v@.subrange(0, i as int));
        }
        i += 1;
    }
    proof {
        assert(v@.subrange(0, v.len() as int) =~= v@);
    }
    s
}

fn blocks(v: &Vec<Scope>) -> (r: String)
    ensures
        r@ == blocks_text(v@),
{
    let mut s = String::new();
    let mut i: usize = 0;
    while i < v.len()
        invariant
            i <= v.len(),
            s@ == blocks_text(v@.subrange(0, i as int)),
        decreases v.len() - i,
    {
        s.append("\n");
        s.append(v[i].synth().as_str());
        s.append("\n");
        proof {
            assert(v@.subrange(0, i + 1).drop_last() =~= v@.subrange(0, i as int));
        }
        i += 1;
    }
    proof {
        assert(v@.subrange(0, v.len() as int) =~= v@);
    }
    s
}

impl Module {
    #[verifier::type_invariant]
    spec fn well_formed(self) -> bool {
        &&& sorted_by_key(self.inputs@)
        &&& sorted_by_key(self.outputs@)
        &&& sorted_by_key(self.assigns@)
        &&& forall|k: Seq<char>| #[trigger] has_key(self.inputs@, k) ==> !has_key(self.outputs@, k)
    }

    /// An empty module of the given name.
    pub fn new(name: &str) -> (r: Module)
        ensures
            r@ == (ModuleModel {
                name: name@,
                inputs: Seq::empty(),
                outputs: Seq::empty(),
                assigns: Seq::empty(),
                scopes: Seq::empty(),
            }),
    {
        let r = Module {
            name: String::from_str(name),
            inputs: Vec::new(),
            outputs: Vec::new(),
            assigns: Vec::new(),
            scopes: Vec::new(),
        };
        proof {
            assert(r.inputs@ =~= Seq::<Signal>::empty());
            assert(r.outputs@ =~= Seq::<Signal>::empty());
            assert(r.assigns@ =~= Seq::<Assign>::empty());
            assert(r.scopes@ =~= Seq::<Scope>::empty());
        }
        r
    }

    /// Makes known to a verified caller that this module lists its inputs, its outputs and its
    /// assignments each in strictly increasing order of name, and that no name is both an
    /// input and an output. It does nothing at run time.
    pub fn lists_in_order(&self)
        ensures
            sorted_by_key(self@.inputs),
            sorted_by_key(self@.outputs),
            sorted_by_key(self@.assigns),
            forall|k: Seq<char>| #[trigger] has_key(self@.inputs, k) ==> !has_key(self@.outputs, k),
    {
        proof {
            use_type_invariant(self);
        }
    }

    /// Whether an input or an output of this module carries that name.
    pub fn is_declared(&self, name: &str) -> (r: bool)
        ensures
            r == declared(self@, name@),
    {
        contains_key(&self.inputs, name) || contains_key(&self.outputs, name)
    }

    /// Whether a module-level assignment already targets a signal of that name.
    pub fn is_assigned(&self, name: &str) -> (r: bool)
        ensures
            r == has_key(self@.assigns, name@),
    {
        contains_key(&self.assigns, name)
    }

    /// Declares an input; its name must not be declared yet.
    pub fn add_input(&mut self, s: Signal)
        requires
            !declared(old(self)@, s@.name),
        ensures
            input_added(old(self)@, final(self)@, s),
    {
        proof {
            use_type_invariant(&*self);
        }
        let ghost outputs = self.outputs@;
        let mut inputs: Vec<Signal> = Vec::new();
        std::mem::swap(&mut self.inputs, &mut inputs);
        let ghost before = inputs@;
        insert_sorted(&mut inputs, s);
        proof {
            assert forall|k: Seq<char>| #[trigger] has_key(inputs@, k) implies !has_key(outputs, k) by {
                let i = choose|i: int| 0 <= i < inputs@.len() && inputs@[i].key() == k;
                assert(inputs@.contains(inputs@[i]));
                if inputs@[i] != s {
                    let j = choose|j: int| 0 <= j < before.len() && before[j] == inputs@[i];
                    assert(has_key(before, k));
                }
            }
        }
        std::mem::swap(&mut self.inputs, &mut inputs);
    }

    /// Declares an output; its name must not be declared yet.
    pub fn add_output(&mut self, s: Signal)
        requires
            !declared(old(self)@, s@.name),
        ensures
            output_added(old(self)@, final(self)@, s),
    {
        proof {
            use_type_invariant(&*self);
        }
        let ghost inputs = self.inputs@;
        let mut outputs: Vec<Signal> = Vec::new();
        std::mem::swap(&mut self.outputs, &mut outputs);
        let ghost before = outputs@;
        insert_sorted(&mut outputs, s);
        proof {
            assert forall|k: Seq<char>| #[trigger] has_key(inputs, k) implies !has_key(outputs@, k) by {
                if has_key(outputs@, k) {
                    let i = choose|i: int| 0 <= i < outputs@.len() && outputs@[i].key() == k;
                    assert(outputs@.contains(outputs@[i]));
                    if outputs@[i] != s {
                        let j = choose|j: int| 0 <= j < before.len() && before[j] == outputs@[i];
                        assert(has_key(before, k));
                    }
                }
            }
        }
        std::mem::swap(&mut self.outputs, &mut outputs);
    }

    /// Adds a module-level assignment; its destination must not be assigned at module level yet.
    pub fn add_assign(&mut self, a: Assign)
        requires
            !has_key(old(self)@.assigns, a.key()),
        ensures
            added(old(self)@.assigns, final(self)@.assigns, a),
            final(self)@ == (ModuleModel { assigns: final(self)@.assigns, ..old(self)@ }),
    {
        proof {
            use_type_invariant(&*self);
        }
        let mut assigns: Vec<Assign> = Vec::new();
        std::mem::swap(&mut self.assigns, &mut assigns);
        insert_sorted(&mut assigns, a);
        std::mem::swap(&mut self.assigns, &mut assigns);
    }

    fn add_block(&mut self, kind: Conditional, sync: bool, body: Scope)
        ensures
            final(self)@ == (ModuleModel { scopes: final(self)@.scopes, ..old(self)@ }),
            final(self)@.scopes.len() == old(self)@.scopes.len() + 1,
            final(self)@.scopes.drop_last() == old(self)@.scopes,
            block_from(final(self)@.scopes.last(), kind, sync, body),
    {
        proof {
            use_type_invariant(&*self);
            use_type_invariant(&body);
        }
        let mut block = body;
        block.cond = kind;
        let ghost renamed = block;
        let block = with_sync(block, sync);
        proof {
            assert forall|f: bool| #[trigger] nested_text(block, f, 0) == nested_text(body, f, 0) by {
                lemma_nested_same(renamed, body, f, 0);
            }
        }
        let mut scopes: Vec<Scope> = Vec::new();
        std::mem::swap(&mut self.scopes, &mut scopes);
        let ghost b = block;
        scopes.push(block);
        std::mem::swap(&mut self.scopes, &mut scopes);
        proof {
            assert(self.scopes@ == old(self).scopes@.push(b));
            assert(self.scopes@.drop_last() =~= old(self).scopes@);
        }
    }

    /// Adds a combinational block (`always_comb`) holding `body`'s assignments and blocks.
    pub fn comb(&mut self, body: Scope)
        ensures
            final(self)@ == (ModuleModel { scopes: final(self)@.scopes, ..old(self)@ }),
            final(self)@.scopes.len() == old(self)@.scopes.len() + 1,
            final(self)@.scopes.drop_last() == old(self)@.scopes,
            block_from(final(self)@.scopes.last(), Conditional::AlwaysComb, false, body),
    {
        self.add_block(Conditional::AlwaysComb, false, body);
    }

    /// Adds a block clocked on the rising edge of `signal` (`always_ff`) holding `body`'s
    /// assignments and blocks, all of which render non-blocking.
    pub fn on(&mut self, signal: &Signal, body: Scope)
        ensures
            final(self)@ == (ModuleModel { scopes: final(self)@.scopes, ..old(self)@ }),
            final(self)@.scopes.len() == old(self)@.scopes.len() + 1,
            final(self)@.scopes.drop_last() == old(self)@.scopes,
            block_from(final(self)@.scopes.last(), Conditional::Posedge(*signal), true, body),
    {
        self.add_block(Conditional::Posedge(signal.copy()), true, body);
    }
}

impl Synth for Module {
    open spec fn synth_text(&self) -> Seq<char> {
        module_text(self@)
    }

    fn synth(&self) -> (r: String) {
        let mut s = String::from_str("module ");
        s.append(self.name.as_str());
        s.append("();\n");
        s.append(decls("input ", &self.inputs).as_str());
        s.append(decls("output ", &self.outputs).as_str());
        s.append(module_assigns(&self.assigns).as_str());
        s.append(blocks(&self.scopes).as_str());
        s.append("endmodule");
        s
    }
}

/// Something that makes signals for a module.
pub trait SignalHolder {
    fn logic(&self, name: &str, width: u32) -> (r: Signal)
        requires
            valid_name(name@),
            width >= 1,
        ensures
            r@ == (SignalModel { name: name@, width: width as nat }),
    ;
}

impl SignalHolder for Module {
    fn logic(&self, name: &str, width: u32) -> (r: Signal) {
        Signal::new(name, width)
    }
}

/// Rendering reads nothing but what a module holds: rendering an unmodified module twice,
/// or two modules that hold the same, gives the same text.
pub proof fn law_render_deterministic(m1: Module, m2: Module)
    requires
        m1@ == m2@,
    ensures
        m1.synth_text() == m2.synth_text(),
{
}

/// Declaring two inputs in either order gives the same module, and so the same text.
pub proof fn law_input_order_irrelevant(
    m0: ModuleModel,
    x: Signal,
    y: Signal,
    m1: ModuleModel,
    m12: ModuleModel,
    n1: ModuleModel,
    n12: ModuleModel,
)
    requires
        input_added(m0, m1, x),
        input_added(m1, m12, y),
        input_added(m0, n1, y),
        input_added(n1, n12, x),
    ensures
        m12 == n12,
        module_text(m12) == module_text(n12),
{
    law_insertion_order_irrelevant(m0.inputs, x, y, m1.inputs, m12.inputs, n1.inputs, n12.inputs);
}

/// Declaring two outputs in either order gives the same module, and so the same text.
pub proof fn law_output_order_irrelevant(
    m0: ModuleModel,
    x: Signal,
    y: Signal,
    m1: ModuleModel,
    m12: ModuleModel,
    n1: ModuleModel,
    n12: ModuleModel,
)
    requires
        output_added(m0, m1, x),
        output_added(m1, m12, y),
        output_added(m0, n1, y),
        output_added(n1, n12, x),
    ensures
        m12 == n12,
        module_text(m12) == module_text(n12),
{
    law_insertion_order_irrelevant(
        m0.outputs,
        x,
        y,
        m1.outputs,
        m12.outputs,
        n1.outputs,
        n12.outputs,
    );
}

/// Whatever the number of declarations and the order they came in, two modules that declare
/// the same inputs and the same outputs, and hold the same name, assignments and blocks, are
/// the same module and render the same text.
pub proof fn law_declarations_any_order(m1: ModuleModel, m2: ModuleModel)
    requires
        sorted_by_key(m1.inputs),
        sorted_by_key(m2.inputs),
        sorted_by_key(m1.outputs),
        sorted_by_key(m2.outputs),
        forall|s: Signal| #[trigger] m1.inputs.contains(s) <==> m2.inputs.contains(s),
        forall|s: Signal| #[trigger] m1.outputs.contains(s) <==> m2.outputs.contains(s),
        m1.name == m2.name,
        m1.assigns == m2.assigns,
        m1.scopes == m2.scopes,
    ensures
        m1 == m2,
        module_text(m1) == module_text(m2),
{
    lemma_sorted_unique(m1.inputs, m2.inputs);
    lemma_sorted_unique(m1.outputs, m2.outputs);
}

proof fn lemma_subtree_child(sc: Scope, sync: bool, j: nat, i: int)
    requires
        subtree_sync(sc, sync, j),
        j <= i < sc@.scopes.len(),
    ensures
        tree_sync(sc@.scopes[i], sync),
    decreases i - j,
{
    if j < i {
        lemma_subtree_child(sc, sync, j + 1, i);
    }
}

/// In a block whose every nested block carries its clocking, as `Module::on` and
/// `Module::comb` leave them, each nested block renders on its own exactly as inside the
/// block: in a clocked block every statement line, at every depth, is non-blocking.
pub proof fn law_nested_blocks_share_clocking(sc: Scope, sync: bool, i: int)
    requires
        tree_sync(sc, sync),
        0 <= i < sc@.scopes.len(),
    ensures
        sc.synth_text() == scope_text(sc, sync),
        tree_sync(sc@.scopes[i], sync),
        sc@.scopes[i].synth_text() == scope_text(sc@.scopes[i], sync),
{
    lemma_subtree_child(sc, sync, 0, i);
}

} // verus!
