use vstd::prelude::*;
use crate::isa::{Instruction, encodable};
use crate::ir::{Node, Root, root_encodable};
use crate::syntax::{Pos, Label, Error, label_key};

verus! {

/// A table of label addresses; a later binding of a label shadows an earlier one.
pub open spec fn lookup(table: Seq<(Label, u8)>, key: (Option<usize>, Seq<char>)) -> Option<u8>
    decreases table.len(),
{
    if table.len() == 0 {
        None
    } else if label_key(table.last().0) == key {
        Some(table.last().1)
    } else {
        lookup(table.drop_last(), key)
    }
}

pub open spec fn add8(a: u8, b: u8) -> u8 {
    ((a as int + b as int) % 256) as u8
}

pub open spec fn sub8(a: u8, b: u8) -> u8 {
    ((a as int - b as int + 256) % 256) as u8
}

/// `b` shifted left by `a` when `a` is non-negative as a signed byte, right by `-a` otherwise,
/// on sixteen bits, with the shift amount taken modulo sixteen.
pub open spec fn shifted16(a: u8, b: u8) -> u16 {
    if a < 128 {
        (b as u16) << ((a % 16) as u16)
    } else {
        (b as u16) >> (((16 - a % 16) % 16) as u16)
    }
}

pub open spec fn shf8(a: u8, b: u8) -> u8 {
    shifted16(a, b) as u8
}

pub open spec fn rot8(a: u8, b: u8) -> u8 {
    ((shifted16(a, b) & 0xFF) as u8) | ((shifted16(a, b) >> 8) as u8)
}

/// The value of an expression under a label table, or the first label it lacks.
/// A binary node evaluates its right operand first.
pub open spec fn value(n: Node, table: Seq<(Label, u8)>) -> Result<u8, Label>
    decreases n,
{
    match n {
        Node::LabelRef(l) => match lookup(table, label_key(l)) {
            Some(v) => Ok(v),
            None => Err(l),
        },
        Node::Immediate(v) => Ok(v),
        Node::Not(a) => match value(*a, table) {
            Ok(x) => Ok(!x),
            Err(l) => Err(l),
        },
        Node::Add(a, b) => match value(*b, table) {
            Err(l) => Err(l),
            Ok(y) => match value(*a, table) {
                Err(l) => Err(l),
                Ok(x) => Ok(add8(y, x)),
            },
        },
        Node::Sub(a, b) => match value(*b, table) {
            Err(l) => Err(l),
            Ok(y) => match value(*a, table) {
                Err(l) => Err(l),
                Ok(x) => Ok(sub8(y, x)),
            },
        },
        Node::Shf(a, b) => match value(*a, table) {
            Err(l) => Err(l),
            Ok(x) => match value(*b, table) {
                Err(l) => Err(l),
                Ok(y) => Ok(shf8(x, y)),
            },
        },
        Node::Rot(a, b) => match value(*a, table) {
            Err(l) => Err(l),
            Ok(x) => match value(*b, table) {
                Err(l) => Err(l),
                Ok(y) => Ok(rot8(x, y)),
            },
        },
        Node::Orr(a, b) => match value(*b, table) {
            Err(l) => Err(l),
            Ok(y) => match value(*a, table) {
                Err(l) => Err(l),
                Ok(x) => Ok(y | x),
            },
        },
        Node::And(a, b) => match value(*b, table) {
            Err(l) => Err(l),
            Ok(y) => match value(*a, table) {
                Err(l) => Err(l),
                Ok(x) => Ok(y & x),
            },
        },
        Node::Xor(a, b) => match value(*b, table) {
            Err(l) => Err(l),
            Ok(y) => match value(*a, table) {
                Err(l) => Err(l),
                Ok(x) => Ok(y ^ x),
            },
        },
        Node::Xnd(_, _) => Ok(0),
    }
}

/// The shortest instruction sequence that pushes `v`.
pub open spec fn push_sequence(v: u8) -> Seq<Instruction> {
    if v & 0xF0 == 0xF0 {
        seq![Instruction::Phn(v & 0x0F)]
    } else if v == 0x80 {
        seq![Instruction::Psh(0x7F), Instruction::Inc]
    } else if v < 0x80 {
        seq![Instruction::Psh(v)]
    } else {
        seq![Instruction::Psh((256 - v) as u8), Instruction::Neg]
    }
}

/// The value left on top of the stack by running a sequence of pushes, increments and
/// negations on an empty stack, if that sequence only holds such instructions.
pub open spec fn pushed_value(s: Seq<Instruction>) -> Option<u8>
    decreases s.len(),
{
    if s.len() == 0 {
        None
    } else {
        let top = pushed_value(s.drop_last());
        match s.last() {
            Instruction::Psh(i) => Some(i),
            Instruction::Phn(n) => Some(0xF0 | n),
            Instruction::Inc => match top {
                Some(x) => Some(add8(x, 1)),
                None => None,
            },
            Instruction::Neg => match top {
                Some(x) => Some(sub8(0, x)),
                None => None,
            },
            _ => None,
        }
    }
}

/// The push sequence of any byte is at most two instructions long, encodable, and leaves
/// that byte on the stack.
pub proof fn law_push_sequence(v: u8)
    ensures
        push_sequence(v).len() <= 2,
        forall|k: int| 0 <= k < push_sequence(v).len() ==> encodable(#[trigger] push_sequence(v)[k]),
        pushed_value(push_sequence(v)) == Some(v),
{
    let s = push_sequence(v);
    reveal_with_fuel(pushed_value, 3);
    if v & 0xF0 == 0xF0 {
        assert(s.drop_last() =~= Seq::<Instruction>::empty());
        assert((v & 0x0F) < 16) by (bit_vector);
        assert((0xF0 | (v & 0x0F)) == v) by (bit_vector)
            requires
                v & 0xF0 == 0xF0,
        ;
    } else if v == 0x80 {
        assert(s.drop_last() =~= seq![Instruction::Psh(0x7F)]);
        assert(s.drop_last().drop_last() =~= Seq::<Instruction>::empty());
    } else if v < 0x80 {
        assert(s.drop_last() =~= Seq::<Instruction>::empty());
    } else {
        assert(s.drop_last() =~= seq![Instruction::Psh((256 - v) as u8)]);
        assert(s.drop_last().drop_last() =~= Seq::<Instruction>::empty());
    }
}

fn lookup_label(table: &Vec<(Label, u8)>, l: &Label) -> (r: Option<u8>)
    ensures
        r == lookup(table@, label_key(*l)),
{
    let mut i: usize = table.len();
    assert(table@.take(i as int) =~= table@);
    while i > 0
        invariant
            i <= table.len(),
            lookup(table@, label_key(*l)) == lookup(table@.take(i as int), label_key(*l)),
        decreases i,
    {
        assert(table@.take(i as int).drop_last() =~= table@.take(i - 1));
        if table[i - 1].0.same(l) {
            return Some(table[i - 1].1);
        }
        i = i - 1;
    }
    assert(table@.take(0) =~= Seq::<(Label, u8)>::empty());
    None
}

fn shift16(a: u8, b: u8) -> (r: u16)
    ensures
        r == shifted16(a, b),
{
    if a < 128 {
        (b as u16) << ((a % 16) as u16)
    } else {
        (b as u16) >> (((16 - a % 16) % 16) as u16)
    }
}

/// Evaluates an expression against a label table.
pub fn eval(node: &Node, table: &Vec<(Label, u8)>) -> (r: Result<u8, Label>)
    ensures
        r == value(*node, table@),
    decreases node,
{
    match node {
        Node::LabelRef(l) => match lookup_label(table, l) {
            Some(v) => Ok(v),
            None => Err(l.copy()),
        },
        Node::Immediate(v) => Ok(*v),
        Node::Not(a) => {
            let x = eval(a, table)?;
            Ok(!x)
        },
        Node::Add(a, b) => {
            let y = eval(b, table)?;
            let x = eval(a, table)?;
            Ok(((y as u16 + x as u16) % 256) as u8)
        },
        Node::Sub(a, b) => {
            let y = eval(b, table)?;
            let x = eval(a, table)?;
            Ok(((y as u16 + 256 - x as u16) % 256) as u8)
        },
        Node::Shf(a, b) => {
            let x = eval(a, table)?;
            let y = eval(b, table)?;
            Ok(shift16(x, y) as u8)
        },
        Node::Rot(a, b) => {
            let x = eval(a, table)?;
            let y = eval(b, table)?;
            let s = shift16(x, y);
            Ok(((s & 0xFF) as u8) | ((s >> 8) as u8))
        },
        Node::Orr(a, b) => {
            let y = eval(b, table)?;
            let x = eval(a, table)?;
            Ok(y | x)
        },
        Node::And(a, b) => {
            let y = eval(b, table)?;
            let x = eval(a, table)?;
            Ok(y & x)
        },
        Node::Xor(a, b) => {
            let y = eval(b, table)?;
            let x = eval(a, table)?;
            Ok(y ^ x)
        },
        Node::Xnd(_, _) => Ok(0),
    }
}

/// The instructions that push `v`, each tagged with `pos`.
pub fn make_push_instruction(v: u8, pos: &Pos) -> (r: Vec<(Pos, Instruction)>)
    ensures
        r@.len() == push_sequence(v).len(),
        forall|k: int| 0 <= k < r@.len() ==> #[trigger] r@[k] == (*pos, push_sequence(v)[k]),
{
    if v & 0xF0 == 0xF0 {
        vec![(pos.copy(), Instruction::Phn(v & 0x0F))]
    } else if v == 0x80 {
        vec![(pos.copy(), Instruction::Psh(0x7F)), (pos.copy(), Instruction::Inc)]
    } else if v < 0x80 {
        vec![(pos.copy(), Instruction::Psh(v))]
    } else {
        let negated: u8 = (256 - v as u16) as u8;
        vec![(pos.copy(), Instruction::Psh(negated)), (pos.copy(), Instruction::Neg)]
    }
}

} // verus!

verus! {

/// The state of the placement walk.
pub struct Placement {
    /// The instructions emitted so far.
    pub out: Seq<(Pos, Instruction)>,
    /// The location counter.
    pub counter: u8,
    /// The labels bound so far, in binding order.
    pub table: Seq<(Label, u8)>,
    /// Expressions not yet resolvable: the index of their two reserved slots in `out`,
    /// their position, and the expression.
    pub pending: Seq<(usize, Pos, Node)>,
    /// The diagnostics raised so far.
    pub errors: Seq<(Pos, Error)>,
}

/// Each instruction of `s`, tagged with `pos`.
pub open spec fn tagged(pos: Pos, s: Seq<Instruction>) -> Seq<(Pos, Instruction)> {
    Seq::new(s.len(), |k: int| (pos, s[k]))
}

/// A label definition that still carries the placeholder scope of an unexpanded local label.
pub open spec fn unscoped_local(r: Root) -> bool {
    match r {
        Root::LabelDef(l) => l.scope_id == Some(0usize),
        _ => false,
    }
}

/// One step of the placement walk.
pub open spec fn place_step(st: Placement, pos: Pos, root: Root) -> Placement {
    match root {
        Root::Instruction(i) => Placement {
            out: st.out.push((pos, i)),
            counter: add8(st.counter, 1),
            ..st
        },
        Root::Dyn(Some(i)) => Placement {
            out: st.out.push((pos, i)),
            counter: add8(st.counter, 1),
            ..st
        },
        Root::Node(n) => match value(n, st.table) {
            Ok(v) => Placement {
                out: st.out + tagged(pos, push_sequence(v)),
                counter: add8(st.counter, push_sequence(v).len() as u8),
                ..st
            },
            Err(_) => Placement {
                out: st.out + tagged(pos, seq![Instruction::Nop, Instruction::Nop]),
                counter: add8(st.counter, 2),
                pending: st.pending.push((st.out.len() as usize, pos, n)),
                ..st
            },
        },
        Root::LabelDef(l) => Placement {
            table: st.table.push((l, st.counter)),
            errors: if lookup(st.table, label_key(l)) is Some {
                st.errors.push((pos, Error::LabelAlreadyDefined(l)))
            } else {
                st.errors
            },
            ..st
        },
        Root::Org(Some(n)) => match value(n, st.table) {
            Ok(v) => if v >= st.counter {
                Placement {
                    out: st.out + Seq::new((v - st.counter) as nat, |k: int| (pos, Instruction::Raw(0))),
                    counter: v,
                    ..st
                }
            } else {
                Placement {
                    errors: st.errors.push((pos, Error::OriginBackward(st.counter, v))),
                    ..st
                }
            },
            Err(l) => Placement { errors: st.errors.push((pos, Error::OriginUnresolved(l))), ..st },
        },
        Root::Org(None) => Placement { errors: st.errors.push((pos, Error::NotConstant)), ..st },
        Root::Const => Placement { errors: st.errors.push((pos, Error::NotConstant)), ..st },
        Root::Dyn(None) => Placement {
            errors: st.errors.push((pos, Error::DynamicNotInstruction)),
            ..st
        },
    }
}

pub open spec fn empty_placement() -> Placement {
    Placement { out: seq![], counter: 0, table: seq![], pending: seq![], errors: seq![] }
}

/// The placement walk over a sequence of roots, left to right.
pub open spec fn walk(roots: Seq<(Pos, Root)>) -> Placement
    decreases roots.len(),
{
    if roots.len() == 0 {
        empty_placement()
    } else {
        let st = walk(roots.drop_last());
        place_step(st, roots.last().0, roots.last().1)
    }
}

/// `out` with the push sequence of `v`, tagged with `pos`, written from index `at` on.
pub open spec fn overwrite(out: Seq<(Pos, Instruction)>, at: int, pos: Pos, v: u8) -> Seq<(Pos, Instruction)> {
    Seq::new(
        out.len(),
        |k: int|
            if at <= k < at + push_sequence(v).len() {
                (pos, push_sequence(v)[k - at])
            } else {
                out[k]
            },
    )
}

/// The back-patch pass: each pending expression, in the order it was reserved, is evaluated
/// against the complete table and written over its reserved slots (zero where it still fails).
pub open spec fn patch(st: Placement, pending: Seq<(usize, Pos, Node)>) -> Placement
    decreases pending.len(),
{
    if pending.len() == 0 {
        st
    } else {
        let pre = patch(st, pending.drop_last());
        let (at, pos, n) = pending.last();
        match value(n, st.table) {
            Ok(v) => Placement { out: overwrite(pre.out, at as int, pos, v), ..pre },
            Err(l) => Placement {
                out: overwrite(pre.out, at as int, pos, 0),
                errors: pre.errors.push((pos, Error::LabelNotFound(l))),
                ..pre
            },
        }
    }
}

/// The complete placement of a sequence of roots.
pub open spec fn placed(roots: Seq<(Pos, Root)>) -> Placement {
    patch(walk(roots), walk(roots).pending)
}

} // verus!

verus! {

pub open spec fn walk_invariant(st: Placement) -> bool {
    &&& st.counter as int == st.out.len() % 256
    &&& forall|j: int| 0 <= j < st.pending.len() ==> #[trigger] st.pending[j].0 + 2 <= st.out.len()
}

proof fn lemma_counter_step(c: u8, len: nat, n: nat)
    requires
        c as int == len % 256,
    ensures
        add8(c, (n % 256) as u8) as int == (len + n) % 256,
{
    assert((c as int + (n % 256)) % 256 == (len + n) % 256) by (nonlinear_arith)
        requires
            c as int == len % 256,
    {
        vstd::arithmetic::div_mod::lemma_add_mod_noop(len as int, n as int, 256);
        vstd::arithmetic::div_mod::lemma_mod_twice(n as int, 256);
        vstd::arithmetic::div_mod::lemma_add_mod_noop(c as int, (n % 256) as int, 256);
    }
}

proof fn lemma_step(st: Placement, pos: Pos, root: Root)
    requires
        walk_invariant(st),
    ensures
        walk_invariant(place_step(st, pos, root)),
{
    let next = place_step(st, pos, root);
    match root {
        Root::Instruction(_) => {
            lemma_counter_step(st.counter, st.out.len(), 1);
        },
        Root::Dyn(Some(_)) => {
            lemma_counter_step(st.counter, st.out.len(), 1);
        },
        Root::Node(n) => match value(n, st.table) {
            Ok(v) => {
                law_push_sequence(v);
                lemma_counter_step(st.counter, st.out.len(), push_sequence(v).len());
            },
            Err(_) => {
                lemma_counter_step(st.counter, st.out.len(), 2);
                assert forall|j: int| 0 <= j < next.pending.len() implies #[trigger] next.pending[j].0 + 2
                    <= next.out.len() by {
                    if j < st.pending.len() {
                        assert(next.pending[j] == st.pending[j]);
                    }
                }
            },
        },
        Root::Org(Some(n)) => match value(n, st.table) {
            Ok(v) => if v >= st.counter {
                lemma_counter_step(st.counter, st.out.len(), (v - st.counter) as nat);
            },
            Err(_) => {},
        },
        _ => {},
    }
}

/// Every reserved pair of slots lies inside the emitted instructions, and the location counter
/// is the number of emitted instructions modulo 256.
pub proof fn lemma_walk(roots: Seq<(Pos, Root)>)
    ensures
        walk(roots).counter as int == walk(roots).out.len() % 256,
        forall|j: int|
            0 <= j < walk(roots).pending.len() ==> #[trigger] walk(roots).pending[j].0 + 2
                <= walk(roots).out.len(),
    decreases roots.len(),
{
    if roots.len() > 0 {
        lemma_walk(roots.drop_last());
        lemma_step(walk(roots.drop_last()), roots.last().0, roots.last().1);
    }
}

fn emit(out: &mut Vec<(Pos, Instruction)>, pos: &Pos, v: u8)
    ensures
        final(out)@ == old(out)@ + tagged(*pos, push_sequence(v)),
{
    let p = make_push_instruction(v, pos);
    let mut k: usize = 0;
    while k < p.len()
        invariant
            k <= p.len(),
            p@.len() == push_sequence(v).len(),
            forall|j: int| 0 <= j < p@.len() ==> #[trigger] p@[j] == (*pos, push_sequence(v)[j]),
            out@ == old(out)@ + tagged(*pos, push_sequence(v)).take(k as int),
        decreases p.len() - k,
    {
        out.push((p[k].0.copy(), p[k].1));
        assert(tagged(*pos, push_sequence(v)).take(k + 1) =~= tagged(*pos, push_sequence(v)).take(
            k as int,
        ).push((*pos, push_sequence(v)[k as int])));
        k = k + 1;
    }
    assert(tagged(*pos, push_sequence(v)).take(k as int) =~= tagged(*pos, push_sequence(v)));
}

/// The executable state of the placement walk; its view is a `Placement`.
struct Walker {
    out: Vec<(Pos, Instruction)>,
    counter: u8,
    table: Vec<(Label, u8)>,
    pending: Vec<(usize, Pos, Node)>,
    errors: Vec<(Pos, Error)>,
}

impl View for Walker {
    type V = Placement;

    closed spec fn view(&self) -> Placement {
        Placement {
            out: self.out@,
            counter: self.counter,
            table: self.table@,
            pending: self.pending@,
            errors: self.errors@,
        }
    }
}

impl Walker {
    fn step_node(&mut self, pos: &Pos, n: &Node)
        requires
            old(self)@.counter as int == old(self)@.out.len() % 256,
        ensures
            final(self)@ == place_step(old(self)@, *pos, Root::Node(*n)),
    {
        match eval(n, &self.table) {
            Ok(v) => {
                proof {
                    law_push_sequence(v);
                }
                emit(&mut self.out, pos, v);
                let len: u8 = if v & 0xF0 == 0xF0 || v < 0x80 {
                    1
                } else {
                    2
                };
                self.counter = self.counter.wrapping_add(len);
            },
            Err(_) => {
                let at = self.out.len();
                let ghost before = self.out@;
                self.out.push((pos.copy(), Instruction::Nop));
                self.out.push((pos.copy(), Instruction::Nop));
                assert(self.out@ =~= before + tagged(*pos, seq![Instruction::Nop, Instruction::Nop]));
                self.pending.push((at, pos.copy(), n.copy()));
                self.counter = self.counter.wrapping_add(2);
            },
        }
    }

    fn step_org(&mut self, pos: &Pos, n: &Node)
        ensures
            final(self)@ == place_step(old(self)@, *pos, Root::Org(Some(*n))),
    {
        match eval(n, &self.table) {
            Ok(v) => {
                if v >= self.counter {
                    let ghost before = self.out@;
                    let start = self.counter;
                    let mut k: u8 = start;
                    while k < v
                        invariant
                            start <= k <= v,
                            self.counter == start,
                            self.table == old(self).table,
                            self.pending == old(self).pending,
                            self.errors == old(self).errors,
                            self.out@ == before + Seq::new(
                                (k - start) as nat,
                                |j: int| (*pos, Instruction::Raw(0)),
                            ),
                        decreases v - k,
                    {
                        self.out.push((pos.copy(), Instruction::Raw(0)));
                        assert(Seq::new((k + 1 - start) as nat, |j: int| (*pos, Instruction::Raw(0)))
                            =~= Seq::new((k - start) as nat, |j: int| (*pos, Instruction::Raw(0))).push(
                            (*pos, Instruction::Raw(0)),
                        ));
                        k = k + 1;
                    }
                    self.counter = v;
                } else {
                    self.errors.push((pos.copy(), Error::OriginBackward(self.counter, v)));
                }
            },
            Err(l) => {
                self.errors.push((pos.copy(), Error::OriginUnresolved(l)));
            },
        }
    }

    fn step(&mut self, pos: &Pos, root: &Root)
        requires
            !unscoped_local(*root),
            old(self)@.counter as int == old(self)@.out.len() % 256,
        ensures
            final(self)@ == place_step(old(self)@, *pos, *root),
    {
        match root {
            Root::Instruction(ins) => {
                self.out.push((pos.copy(), *ins));
                self.counter = self.counter.wrapping_add(1);
            },
            Root::Dyn(Some(ins)) => {
                self.out.push((pos.copy(), *ins));
                self.counter = self.counter.wrapping_add(1);
            },
            Root::Node(n) => self.step_node(pos, n),
            Root::LabelDef(l) => {
                if lookup_label(&self.table, l).is_some() {
                    self.errors.push((pos.copy(), Error::LabelAlreadyDefined(l.copy())));
                }
                self.table.push((l.copy(), self.counter));
            },
            Root::Org(Some(n)) => self.step_org(pos, n),
            Root::Org(None) => {
                self.errors.push((pos.copy(), Error::NotConstant));
            },
            Root::Const => {
                self.errors.push((pos.copy(), Error::NotConstant));
            },
            Root::Dyn(None) => {
                self.errors.push((pos.copy(), Error::DynamicNotInstruction));
            },
        }
    }
}

/// Places a sequence of roots: walks them once with the location counter, binding labels and
/// reserving two slots for each expression it cannot yet evaluate, then back-patches those
/// slots once every label is known.
pub fn place(roots: &Vec<(Pos, Root)>, errors: &mut Vec<(Pos, Error)>) -> (r: Vec<(Pos, Instruction)>)
    requires
        forall|k: int| 0 <= k < roots@.len() ==> !unscoped_local(#[trigger] roots@[k].1),
    ensures
        r@ == placed(roots@).out,
        final(errors)@ == old(errors)@ + placed(roots@).errors,
{
    let mut w = Walker {
        out: Vec::new(),
        counter: 0,
        table: Vec::new(),
        pending: Vec::new(),
        errors: Vec::new(),
    };
    let mut i: usize = 0;
    assert(w@ == walk(roots@.take(0)));
    while i < roots.len()
        invariant
            i <= roots.len(),
            forall|k: int| 0 <= k < roots@.len() ==> !unscoped_local(#[trigger] roots@[k].1),
            w@ == walk(roots@.take(i as int)),
        decreases roots.len() - i,
    {
        assert(roots@.take(i + 1).drop_last() =~= roots@.take(i as int));
        proof {
            lemma_walk(roots@.take(i as int));
        }
        w.step(&roots[i].0, &roots[i].1);
        i = i + 1;
    }
    assert(roots@.take(i as int) =~= roots@);
    proof {
        lemma_walk(roots@);
    }
    let ghost st = walk(roots@);
    let mut j: usize = 0;
    assert(st.pending.take(0) =~= Seq::<(usize, Pos, Node)>::empty());
    while j < w.pending.len()
        invariant
            j <= w.pending.len(),
            w.pending@ == st.pending,
            w.table@ == st.table,
            forall|q: int| 0 <= q < st.pending.len() ==> #[trigger] st.pending[q].0 + 2 <= st.out.len(),
            w.out@ == patch(st, st.pending.take(j as int)).out,
            w.errors@ == patch(st, st.pending.take(j as int)).errors,
        decreases w.pending.len() - j,
    {
        assert(st.pending.take(j + 1).drop_last() =~= st.pending.take(j as int));
        proof {
            lemma_patch_len(st, st.pending.take(j as int));
        }
        assert(st.pending[j as int].0 + 2 <= st.out.len());
        assert(w.out@.len() == st.out.len());
        let at = w.pending[j].0;
        let size = w.out.len();
        assert(at + 2 <= size);
        let next = at + 1;
        let pos = w.pending[j].1.copy();
        let v = match eval(&w.pending[j].2, &w.table) {
            Ok(v) => v,
            Err(l) => {
                w.errors.push((pos.copy(), Error::LabelNotFound(l)));
                0
            },
        };
        proof {
            law_push_sequence(v);
        }
        let p = make_push_instruction(v, &pos);
        let ghost pre = w.out@;
        w.out.set(at, (p[0].0.copy(), p[0].1));
        if p.len() == 2 {
            w.out.set(next, (p[1].0.copy(), p[1].1));
        }
        assert(w.out@ =~= overwrite(pre, at as int, pos, v));
        j = j + 1;
    }
    assert(st.pending.take(j as int) =~= st.pending);
    errors.append(&mut w.errors);
    w.out
}

proof fn lemma_patch_len(st: Placement, pending: Seq<(usize, Pos, Node)>)
    ensures
        patch(st, pending).out.len() == st.out.len(),
    decreases pending.len(),
{
    if pending.len() > 0 {
        lemma_patch_len(st, pending.drop_last());
    }
}

pub open spec fn all_encodable(out: Seq<(Pos, Instruction)>) -> bool {
    forall|k: int| 0 <= k < out.len() ==> encodable(#[trigger] out[k].1)
}

proof fn lemma_walk_encodable(roots: Seq<(Pos, Root)>)
    requires
        forall|k: int| 0 <= k < roots.len() ==> root_encodable(#[trigger] roots[k].1),
    ensures
        all_encodable(walk(roots).out),
    decreases roots.len(),
{
    if roots.len() > 0 {
        let pre = roots.drop_last();
        assert forall|k: int| 0 <= k < pre.len() implies root_encodable(#[trigger] pre[k].1) by {
            assert(pre[k] == roots[k]);
        }
        lemma_walk_encodable(pre);
        let st = walk(pre);
        assert(root_encodable(roots[roots.len() - 1].1));
        match roots.last().1 {
            Root::Node(n) => match value(n, st.table) {
                Ok(v) => law_push_sequence(v),
                Err(_) => {},
            },
            _ => {},
        }
        let out = walk(roots).out;
        assert forall|k: int| 0 <= k < out.len() implies encodable(#[trigger] out[k].1) by {
            if k < st.out.len() {
                assert(out[k] == st.out[k]);
            }
        }
    }
}

proof fn lemma_patch_encodable(st: Placement, pending: Seq<(usize, Pos, Node)>)
    requires
        all_encodable(st.out),
    ensures
        all_encodable(patch(st, pending).out),
    decreases pending.len(),
{
    if pending.len() > 0 {
        lemma_patch_encodable(st, pending.drop_last());
        law_push_sequence(0);
        let (at, pos, n) = pending.last();
        match value(n, st.table) {
            Ok(v) => law_push_sequence(v),
            Err(_) => {},
        }
    }
}

/// Placement emits only encodable instructions from roots whose instructions are encodable.
pub proof fn lemma_placed_encodable(roots: Seq<(Pos, Root)>)
    requires
        forall|k: int| 0 <= k < roots.len() ==> root_encodable(#[trigger] roots[k].1),
    ensures
        all_encodable(placed(roots).out),
{
    lemma_walk_encodable(roots);
    lemma_patch_encodable(walk(roots), walk(roots).pending);
}

/// The location counter after placement is the number of bytes emitted, modulo 256: every
/// instruction placed is one byte.
pub proof fn law_location_counter(roots: Seq<(Pos, Root)>)
    ensures
        walk(roots).counter as int == walk(roots).out.len() % 256,
        placed(roots).out.len() == walk(roots).out.len(),
{
    lemma_walk(roots);
    lemma_patch_len(walk(roots), walk(roots).pending);
}

} // verus!
