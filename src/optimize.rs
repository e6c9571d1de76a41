use vstd::prelude::*;
use crate::isa::Instruction;
use crate::ir::{Node, Root, same_node, root_encodable};
use crate::syntax::Pos;
use crate::place::unscoped_local;

verus! {

/// A set of peephole rewrites over windows of roots.
#[derive(Clone, Copy, PartialEq, Eq, Structural, Debug)]
pub enum Rules {
    /// `i @dyn` captures the instruction `i`.
    CaptureDyn,
    /// A `nop` disappears.
    DropNop,
    /// An expression followed by an operation on it folds into one expression.
    FoldUnary,
    /// Two expressions followed by an operation on them fold into one expression; swaps and
    /// loads around expressions are resolved.
    FoldBinary,
    /// An expression pushed twice in a row is pushed once and loaded; a swap then pop is a store.
    ReuseTop,
    /// An expression pushed again two places later is loaded from below the top.
    ReuseSecond,
}

/// The number of roots a set of rewrites looks at.
pub open spec fn width(rules: Rules) -> nat {
    match rules {
        Rules::DropNop => 1,
        Rules::CaptureDyn => 2,
        Rules::FoldUnary => 2,
        Rules::ReuseTop => 2,
        Rules::FoldBinary => 3,
        Rules::ReuseSecond => 3,
    }
}

/// The rewrite of a one-root window, if the rules have one.
pub open spec fn rewrite1(rules: Rules, a: Root) -> Option<Seq<Root>> {
    match (rules, a) {
        (Rules::DropNop, Root::Instruction(Instruction::Nop)) => Some(seq![]),
        _ => None,
    }
}

/// The rewrite of a two-root window, if the rules have one.
pub open spec fn rewrite2(rules: Rules, a: Root, b: Root) -> Option<Seq<Root>> {
    match rules {
        Rules::CaptureDyn => match (a, b) {
            (Root::Instruction(i), Root::Dyn(None)) => Some(seq![Root::Dyn(Some(i))]),
            _ => None,
        },
        Rules::FoldUnary => match (a, b) {
            (Root::Node(n), Root::Const) => Some(seq![Root::Node(n)]),
            (Root::Node(n), Root::Org(None)) => Some(seq![Root::Org(Some(n))]),
            (Root::Node(n), Root::Instruction(Instruction::Ldo(0))) => Some(seq![Root::Node(n), Root::Node(n)]),
            (Root::Node(n), Root::Instruction(Instruction::Inc)) => Some(
                seq![Root::Node(Node::Add(Box::new(n), Box::new(Node::Immediate(1))))],
            ),
            (Root::Node(n), Root::Instruction(Instruction::Dec)) => Some(
                seq![Root::Node(Node::Sub(Box::new(n), Box::new(Node::Immediate(1))))],
            ),
            (Root::Node(n), Root::Instruction(Instruction::Neg)) => Some(
                seq![Root::Node(Node::Sub(Box::new(n), Box::new(Node::Immediate(0))))],
            ),
            (Root::Node(n), Root::Instruction(Instruction::Not)) => Some(seq![Root::Node(Node::Not(Box::new(n)))]),
            (Root::Node(n), Root::Instruction(Instruction::Buf)) => Some(seq![Root::Node(n)]),
            (Root::Node(_), Root::Instruction(Instruction::Pop)) => Some(seq![]),
            _ => None,
        },
        Rules::ReuseTop => match (a, b) {
            (Root::Node(x), Root::Node(y)) => if same_node(x, y) {
                Some(seq![Root::Node(x), Root::Instruction(Instruction::Ldo(0))])
            } else {
                None
            },
            (Root::Instruction(Instruction::Swp), Root::Instruction(Instruction::Pop)) => Some(
                seq![Root::Instruction(Instruction::Sto(0))],
            ),
            _ => None,
        },
        _ => None,
    }
}

/// The expression an operation of size 1 folds two expressions into: `x`, then `y` on top.
pub open spec fn fold_binary(i: Instruction, x: Node, y: Node) -> Option<Node> {
    match i {
        Instruction::Add(1) => Some(Node::Add(Box::new(y), Box::new(x))),
        Instruction::Adc(1) => Some(Node::Add(Box::new(y), Box::new(x))),
        Instruction::Sub(1) => Some(Node::Sub(Box::new(y), Box::new(x))),
        Instruction::Sbc(1) => Some(Node::Sub(Box::new(y), Box::new(x))),
        Instruction::Shf(1) => Some(Node::Shf(Box::new(y), Box::new(x))),
        Instruction::Sfc(1) => Some(Node::Shf(Box::new(y), Box::new(x))),
        Instruction::Rot(1) => Some(Node::Rot(Box::new(y), Box::new(x))),
        Instruction::Orr(1) => Some(Node::Orr(Box::new(y), Box::new(x))),
        Instruction::And(1) => Some(Node::And(Box::new(y), Box::new(x))),
        Instruction::Xor(1) => Some(Node::Xor(Box::new(y), Box::new(x))),
        Instruction::Xnd(1) => Some(Node::Xnd(Box::new(y), Box::new(x))),
        _ => None,
    }
}

/// The rewrite of a three-root window, if the rules have one. Loads are only moved while their
/// offset stays within four bits.
pub open spec fn rewrite3(rules: Rules, a: Root, b: Root, c: Root) -> Option<Seq<Root>> {
    match rules {
        Rules::FoldBinary => match (a, b, c) {
            (Root::Node(x), Root::Node(y), Root::Instruction(Instruction::Ldo(1))) => Some(
                seq![Root::Node(x), Root::Node(y), Root::Node(x)],
            ),
            (Root::Node(x), Root::Node(y), Root::Instruction(Instruction::Swp)) => Some(
                seq![Root::Node(y), Root::Node(x)],
            ),
            (Root::Node(x), Root::Node(y), Root::Instruction(i)) => match fold_binary(i, x, y) {
                Some(n) => Some(seq![Root::Node(n)]),
                None => None,
            },
            (
                Root::Instruction(Instruction::Ldo(o)),
                Root::Node(y),
                Root::Instruction(Instruction::Swp),
            ) => if o < 15 {
                Some(seq![Root::Node(y), Root::Instruction(Instruction::Ldo((o + 1) as u8))])
            } else {
                None
            },
            (
                Root::Node(x),
                Root::Instruction(Instruction::Ldo(o)),
                Root::Instruction(Instruction::Swp),
            ) => if o >= 1 {
                Some(seq![Root::Instruction(Instruction::Ldo((o - 1) as u8)), Root::Node(x)])
            } else {
                None
            },
            (
                Root::Instruction(Instruction::Ldo(o1)),
                Root::Instruction(Instruction::Ldo(o2)),
                Root::Instruction(Instruction::Swp),
            ) => if o2 >= 1 && o1 < 15 {
                Some(
                    seq![
                        Root::Instruction(Instruction::Ldo((o2 - 1) as u8)),
                        Root::Instruction(Instruction::Ldo((o1 + 1) as u8)),
                    ],
                )
            } else {
                None
            },
            _ => None,
        },
        Rules::ReuseSecond => match (a, b, c) {
            (Root::Node(x), Root::Node(y), Root::Node(z)) => if same_node(x, z) {
                Some(seq![Root::Node(x), Root::Node(y), Root::Instruction(Instruction::Ldo(1))])
            } else {
                None
            },
            _ => None,
        },
        _ => None,
    }
}

/// The rewrite of the window at the front of `s`, if the rules have one.
pub open spec fn rewrite_front(rules: Rules, s: Seq<(Pos, Root)>) -> Option<Seq<Root>> {
    if width(rules) == 1 {
        rewrite1(rules, s[0].1)
    } else if width(rules) == 2 {
        rewrite2(rules, s[0].1, s[1].1)
    } else {
        rewrite3(rules, s[0].1, s[1].1, s[2].1)
    }
}

/// Roots, each tagged with `pos`.
pub open spec fn at_pos(pos: Pos, rs: Seq<Root>) -> Seq<(Pos, Root)> {
    Seq::new(rs.len(), |k: int| (pos, rs[k]))
}

/// One pass of a set of rewrites, left to right: where the window at the current place has a
/// rewrite, it is replaced (its roots take the position of the window's first root) and the
/// pass resumes after the window; otherwise the pass keeps one root and moves on by one.
pub open spec fn replace_all(rules: Rules, s: Seq<(Pos, Root)>) -> Seq<(Pos, Root)>
    decreases s.len(),
{
    if s.len() < width(rules) || width(rules) == 0 {
        s
    } else {
        match rewrite_front(rules, s) {
            Some(rs) => at_pos(s[0].0, rs) + replace_all(rules, s.skip(width(rules) as int)),
            None => seq![s[0]] + replace_all(rules, s.skip(1)),
        }
    }
}

/// Whether a pass of a set of rewrites replaces at least one window.
pub open spec fn applied(rules: Rules, s: Seq<(Pos, Root)>) -> bool
    decreases s.len(),
{
    if s.len() < width(rules) || width(rules) == 0 {
        false
    } else {
        match rewrite_front(rules, s) {
            Some(_) => true,
            None => applied(rules, s.skip(1)),
        }
    }
}

/// The rewrites that run until nothing changes.
pub open spec fn shrinking(rules: Rules) -> bool {
    rules == Rules::DropNop || rules == Rules::FoldUnary || rules == Rules::FoldBinary
}

pub open spec fn weight(r: Root) -> nat {
    if r is Node {
        1
    } else {
        2
    }
}

/// The total weight of a sequence of roots: one per expression, two per other root. Each
/// rewrite of the main loop lowers it.
pub open spec fn total_weight(s: Seq<(Pos, Root)>) -> nat
    decreases s.len(),
{
    if s.len() == 0 {
        0
    } else {
        weight(s[0].1) + total_weight(s.skip(1))
    }
}

pub proof fn lemma_weight_concat(a: Seq<(Pos, Root)>, b: Seq<(Pos, Root)>)
    ensures
        total_weight(a + b) == total_weight(a) + total_weight(b),
    decreases a.len(),
{
    if a.len() > 0 {
        assert((a + b).skip(1) =~= a.skip(1) + b);
        assert((a + b)[0] == a[0]);
        lemma_weight_concat(a.skip(1), b);
    } else {
        assert(a + b =~= b);
    }
}

proof fn lemma_window_weight(rules: Rules, s: Seq<(Pos, Root)>, pos: Pos)
    requires
        shrinking(rules),
        s.len() >= width(rules),
        rewrite_front(rules, s) is Some,
    ensures
        total_weight(at_pos(pos, rewrite_front(rules, s)->0)) < total_weight(s.take(width(rules) as int)),
{
    reveal_with_fuel(total_weight, 4);
    let w = s.take(width(rules) as int);
    let r = at_pos(pos, rewrite_front(rules, s)->0);
    assert(w.skip(1).skip(1).skip(1) =~= Seq::<(Pos, Root)>::empty() || w.len() < 3);
    if w.len() >= 1 {
        assert(w.skip(1)[0] == s[1] || w.len() < 2);
    }
    if w.len() >= 2 {
        assert(w.skip(1).skip(1)[0] == s[2] || w.len() < 3);
    }
    if w.len() == 1 {
        assert(w.skip(1) =~= Seq::<(Pos, Root)>::empty());
    }
    if w.len() == 2 {
        assert(w.skip(1).skip(1) =~= Seq::<(Pos, Root)>::empty());
    }
    if r.len() >= 1 {
        assert(r.skip(1).len() == r.len() - 1);
    }
    if r.len() == 0 {
    } else if r.len() == 1 {
        assert(r.skip(1) =~= Seq::<(Pos, Root)>::empty());
    } else if r.len() == 2 {
        assert(r.skip(1).skip(1) =~= Seq::<(Pos, Root)>::empty());
        assert(r.skip(1)[0] == r[1]);
    } else {
        assert(r.skip(1).skip(1).skip(1) =~= Seq::<(Pos, Root)>::empty());
        assert(r.skip(1)[0] == r[1]);
        assert(r.skip(1).skip(1)[0] == r[2]);
    }
}

/// A pass of the main loop's rewrites never raises the total weight, lowers it when it
/// replaces anything, and changes nothing otherwise.
pub proof fn lemma_pass_weight(rules: Rules, s: Seq<(Pos, Root)>)
    requires
        shrinking(rules),
    ensures
        total_weight(replace_all(rules, s)) <= total_weight(s),
        applied(rules, s) ==> total_weight(replace_all(rules, s)) < total_weight(s),
        !applied(rules, s) ==> replace_all(rules, s) == s,
    decreases s.len(),
{
    let n = width(rules) as int;
    if s.len() >= n {
        assert(s =~= s.take(n) + s.skip(n));
        lemma_weight_concat(s.take(n), s.skip(n));
        assert(s =~= seq![s[0]] + s.skip(1));
        lemma_weight_concat(seq![s[0]], s.skip(1));
        reveal_with_fuel(total_weight, 2);
        assert(seq![s[0]].skip(1) =~= Seq::<(Pos, Root)>::empty());
        match rewrite_front(rules, s) {
            Some(rs) => {
                lemma_pass_weight(rules, s.skip(n));
                lemma_window_weight(rules, s, s[0].0);
                lemma_weight_concat(at_pos(s[0].0, rs), replace_all(rules, s.skip(n)));
            },
            None => {
                lemma_pass_weight(rules, s.skip(1));
                lemma_weight_concat(seq![s[0]], replace_all(rules, s.skip(1)));
                if !applied(rules, s) {
                    assert(replace_all(rules, s) =~= seq![s[0]] + s.skip(1));
                }
            },
        }
    }
}

fn boxed(n: &Node) -> (r: Box<Node>)
    ensures
        *r == *n,
{
    Box::new(n.copy())
}

fn rewrite1_of(rules: Rules, a: &Root) -> (r: Option<Vec<Root>>)
    ensures
        r matches Some(v) ==> rewrite1(rules, *a) == Some(v@),
        r is None ==> rewrite1(rules, *a) is None,
{
    match (rules, a) {
        (Rules::DropNop, Root::Instruction(Instruction::Nop)) => Some(Vec::new()),
        _ => None,
    }
}

fn rewrite2_of(rules: Rules, a: &Root, b: &Root) -> (r: Option<Vec<Root>>)
    ensures
        r matches Some(v) ==> rewrite2(rules, *a, *b) == Some(v@),
        r is None ==> rewrite2(rules, *a, *b) is None,
{
    let r = match rules {
        Rules::CaptureDyn => match (a, b) {
            (Root::Instruction(i), Root::Dyn(None)) => Some(vec![Root::Dyn(Some(*i))]),
            _ => None,
        },
        Rules::FoldUnary => match (a, b) {
            (Root::Node(n), Root::Const) => Some(vec![Root::Node(n.copy())]),
            (Root::Node(n), Root::Org(None)) => Some(vec![Root::Org(Some(n.copy()))]),
            (Root::Node(n), Root::Instruction(Instruction::Ldo(0))) => Some(vec![Root::Node(n.copy()), Root::Node(n.copy())]),
            (Root::Node(n), Root::Instruction(Instruction::Inc)) => Some(
                vec![Root::Node(Node::Add(boxed(n), Box::new(Node::Immediate(1))))],
            ),
            (Root::Node(n), Root::Instruction(Instruction::Dec)) => Some(
                vec![Root::Node(Node::Sub(boxed(n), Box::new(Node::Immediate(1))))],
            ),
            (Root::Node(n), Root::Instruction(Instruction::Neg)) => Some(
                vec![Root::Node(Node::Sub(boxed(n), Box::new(Node::Immediate(0))))],
            ),
            (Root::Node(n), Root::Instruction(Instruction::Not)) => Some(vec![Root::Node(Node::Not(boxed(n)))]),
            (Root::Node(n), Root::Instruction(Instruction::Buf)) => Some(vec![Root::Node(n.copy())]),
            (Root::Node(_), Root::Instruction(Instruction::Pop)) => Some(Vec::new()),
            _ => None,
        },
        Rules::ReuseTop => match (a, b) {
            (Root::Node(x), Root::Node(y)) => if x.same(y) {
                Some(vec![Root::Node(x.copy()), Root::Instruction(Instruction::Ldo(0))])
            } else {
                None
            },
            (Root::Instruction(Instruction::Swp), Root::Instruction(Instruction::Pop)) => Some(
                vec![Root::Instruction(Instruction::Sto(0))],
            ),
            _ => None,
        },
        _ => None,
    };
    assert(r matches Some(v) ==> rewrite2(rules, *a, *b) matches Some(w) && w =~= v@);
    r
}

fn fold_binary_of(i: Instruction, x: &Node, y: &Node) -> (r: Option<Node>)
    ensures
        r == fold_binary(i, *x, *y),
{
    match i {
        Instruction::Add(1) => Some(Node::Add(boxed(y), boxed(x))),
        Instruction::Adc(1) => Some(Node::Add(boxed(y), boxed(x))),
        Instruction::Sub(1) => Some(Node::Sub(boxed(y), boxed(x))),
        Instruction::Sbc(1) => Some(Node::Sub(boxed(y), boxed(x))),
        Instruction::Shf(1) => Some(Node::Shf(boxed(y), boxed(x))),
        Instruction::Sfc(1) => Some(Node::Shf(boxed(y), boxed(x))),
        Instruction::Rot(1) => Some(Node::Rot(boxed(y), boxed(x))),
        Instruction::Orr(1) => Some(Node::Orr(boxed(y), boxed(x))),
        Instruction::And(1) => Some(Node::And(boxed(y), boxed(x))),
        Instruction::Xor(1) => Some(Node::Xor(boxed(y), boxed(x))),
        Instruction::Xnd(1) => Some(Node::Xnd(boxed(y), boxed(x))),
        _ => None,
    }
}

fn rewrite3_of(rules: Rules, a: &Root, b: &Root, c: &Root) -> (r: Option<Vec<Root>>)
    ensures
        r matches Some(v) ==> rewrite3(rules, *a, *b, *c) == Some(v@),
        r is None ==> rewrite3(rules, *a, *b, *c) is None,
{
    let r = match rules {
        Rules::FoldBinary => match (a, b, c) {
            (Root::Node(x), Root::Node(y), Root::Instruction(Instruction::Ldo(1))) => Some(
                vec![Root::Node(x.copy()), Root::Node(y.copy()), Root::Node(x.copy())],
            ),
            (Root::Node(x), Root::Node(y), Root::Instruction(Instruction::Swp)) => Some(
                vec![Root::Node(y.copy()), Root::Node(x.copy())],
            ),
            (Root::Node(x), Root::Node(y), Root::Instruction(i)) => match fold_binary_of(*i, x, y) {
                Some(n) => Some(vec![Root::Node(n)]),
                None => None,
            },
            (
                Root::Instruction(Instruction::Ldo(o)),
                Root::Node(y),
                Root::Instruction(Instruction::Swp),
            ) => if *o < 15 {
                Some(vec![Root::Node(y.copy()), Root::Instruction(Instruction::Ldo(*o + 1))])
            } else {
                None
            },
            (
                Root::Node(x),
                Root::Instruction(Instruction::Ldo(o)),
                Root::Instruction(Instruction::Swp),
            ) => if *o >= 1 {
                Some(vec![Root::Instruction(Instruction::Ldo(*o - 1)), Root::Node(x.copy())])
            } else {
                None
            },
            (
                Root::Instruction(Instruction::Ldo(o1)),
                Root::Instruction(Instruction::Ldo(o2)),
                Root::Instruction(Instruction::Swp),
            ) => if *o2 >= 1 && *o1 < 15 {
                Some(vec![Root::Instruction(Instruction::Ldo(*o2 - 1)), Root::Instruction(Instruction::Ldo(*o1 + 1))])
            } else {
                None
            },
            _ => None,
        },
        Rules::ReuseSecond => match (a, b, c) {
            (Root::Node(x), Root::Node(y), Root::Node(z)) => if x.same(z) {
                Some(vec![Root::Node(x.copy()), Root::Node(y.copy()), Root::Instruction(Instruction::Ldo(1))])
            } else {
                None
            },
            _ => None,
        },
        _ => None,
    };
    assert(r matches Some(v) ==> rewrite3(rules, *a, *b, *c) matches Some(w) && w =~= v@);
    r
}

fn width_of(rules: Rules) -> (r: usize)
    ensures
        r == width(rules),
{
    match rules {
        Rules::DropNop => 1,
        Rules::CaptureDyn => 2,
        Rules::FoldUnary => 2,
        Rules::ReuseTop => 2,
        Rules::FoldBinary => 3,
        Rules::ReuseSecond => 3,
    }
}

/// Applies one pass of a set of rewrites, as `replace_all` describes; says whether it replaced
/// anything.
pub fn match_replace(roots: &Vec<(Pos, Root)>, rules: Rules) -> (r: (Vec<(Pos, Root)>, bool))
    ensures
        r.0@ == replace_all(rules, roots@),
        r.1 == applied(rules, roots@),
{
    let n = width_of(rules);
    let mut out: Vec<(Pos, Root)> = Vec::new();
    let mut changed = false;
    let mut i: usize = 0;
    assert(roots@.skip(0) =~= roots@);
    loop
        invariant
            i <= roots@.len(),
            n == width(rules),
            out@ + replace_all(rules, roots@.skip(i as int)) == replace_all(rules, roots@),
            applied(rules, roots@) == (changed || applied(rules, roots@.skip(i as int))),
        decreases roots@.len() - i,
    {
        let ghost rest = roots@.skip(i as int);
        if roots.len() - i < n {
            let ghost before = out@;
            let mut k = i;
            while k < roots.len()
                invariant
                    i <= k <= roots@.len(),
                    out@ == before + roots@.subrange(i as int, k as int),
                decreases roots@.len() - k,
            {
                out.push((roots[k].0.copy(), roots[k].1.copy()));
                assert(roots@.subrange(i as int, k + 1) =~= roots@.subrange(i as int, k as int).push(roots@[k as int]));
                k = k + 1;
            }
            assert(roots@.subrange(i as int, k as int) =~= rest);
            return (out, changed);
        }
        assert(rest[0] == roots@[i as int]);
        assert(n >= 2 ==> rest[1] == roots@[i + 1]);
        assert(n >= 3 ==> rest[2] == roots@[i + 2]);
        let found = if n == 1 {
            rewrite1_of(rules, &roots[i].1)
        } else if n == 2 {
            rewrite2_of(rules, &roots[i].1, &roots[i + 1].1)
        } else {
            rewrite3_of(rules, &roots[i].1, &roots[i + 1].1, &roots[i + 2].1)
        };
        match found {
            Some(v) => {
                let ghost before = out@;
                let mut k: usize = 0;
                while k < v.len()
                    invariant
                        k <= v@.len(),
                        i < roots@.len(),
                        out@ == before + at_pos(roots@[i as int].0, v@).take(k as int),
                    decreases v@.len() - k,
                {
                    out.push((roots[i].0.copy(), v[k].copy()));
                    assert(at_pos(roots@[i as int].0, v@).take(k + 1) =~= at_pos(roots@[i as int].0, v@).take(
                        k as int,
                    ).push((roots@[i as int].0, v@[k as int])));
                    k = k + 1;
                }
                assert(at_pos(roots@[i as int].0, v@).take(k as int) =~= at_pos(roots@[i as int].0, v@));
                assert(rest.skip(n as int) =~= roots@.skip(i + n));
                assert(out@ + replace_all(rules, roots@.skip(i + n)) =~= before + replace_all(rules, rest));
                changed = true;
                i = i + n;
            },
            None => {
                let ghost before = out@;
                out.push((roots[i].0.copy(), roots[i].1.copy()));
                assert(rest.skip(1) =~= roots@.skip(i + 1));
                assert(out@ + replace_all(rules, roots@.skip(i + 1)) =~= before + replace_all(rules, rest));
                i = i + 1;
            },
        }
    }
}

/// One round of the main loop: drop `nop`s, fold unary operations, fold binary operations.
pub open spec fn round(s: Seq<(Pos, Root)>) -> Seq<(Pos, Root)> {
    replace_all(Rules::FoldBinary, replace_all(Rules::FoldUnary, replace_all(Rules::DropNop, s)))
}

/// Whether a round replaces anything.
pub open spec fn round_applies(s: Seq<(Pos, Root)>) -> bool {
    applied(Rules::DropNop, s) || applied(Rules::FoldUnary, replace_all(Rules::DropNop, s))
        || applied(Rules::FoldBinary, replace_all(Rules::FoldUnary, replace_all(Rules::DropNop, s)))
}

/// A round lowers the total weight when it changes anything, and is the identity otherwise.
pub proof fn lemma_round(s: Seq<(Pos, Root)>)
    ensures
        round_applies(s) ==> total_weight(round(s)) < total_weight(s),
        !round_applies(s) ==> round(s) == s,
{
    let s1 = replace_all(Rules::DropNop, s);
    let s2 = replace_all(Rules::FoldUnary, s1);
    lemma_pass_weight(Rules::DropNop, s);
    lemma_pass_weight(Rules::FoldUnary, s1);
    lemma_pass_weight(Rules::FoldBinary, s2);
}

/// The main loop: rounds until one changes nothing.
pub open spec fn settle(s: Seq<(Pos, Root)>) -> Seq<(Pos, Root)>
    decreases total_weight(s),
{
    if round_applies(s) {
        proof {
            lemma_round(s);
        }
        settle(round(s))
    } else {
        s
    }
}

/// The whole optimizer: capture `@dyn` instructions once, run the main loop, then reuse
/// repeated expressions through loads.
pub open spec fn optimized(s: Seq<(Pos, Root)>) -> Seq<(Pos, Root)> {
    replace_all(
        Rules::ReuseSecond,
        replace_all(Rules::ReuseTop, settle(replace_all(Rules::CaptureDyn, s))),
    )
}

/// Runs the peephole optimizer over a sequence of roots.
pub fn optimize(roots: &Vec<(Pos, Root)>) -> (r: Vec<(Pos, Root)>)
    ensures
        r@ == optimized(roots@),
{
    let (mut current, _) = match_replace(roots, Rules::CaptureDyn);
    loop
        invariant
            settle(current@) == settle(replace_all(Rules::CaptureDyn, roots@)),
        ensures
            current@ == settle(replace_all(Rules::CaptureDyn, roots@)),
        decreases total_weight(current@),
    {
        let (s1, c1) = match_replace(&current, Rules::DropNop);
        let (s2, c2) = match_replace(&s1, Rules::FoldUnary);
        let (s3, c3) = match_replace(&s2, Rules::FoldBinary);
        proof {
            lemma_round(current@);
        }
        if !(c1 || c2 || c3) {
            break;
        }
        current = s3;
    }
    let (post, _) = match_replace(&current, Rules::ReuseTop);
    let (last, _) = match_replace(&post, Rules::ReuseSecond);
    last
}

/// A root that placement and encoding accept: its instruction's operands fit, and it defines
/// no local label still in the placeholder scope.
pub open spec fn root_ok(r: Root) -> bool {
    root_encodable(r) && !unscoped_local(r)
}

pub open spec fn all_ok(s: Seq<(Pos, Root)>) -> bool {
    forall|k: int| 0 <= k < s.len() ==> root_ok(#[trigger] s[k].1)
}

proof fn lemma_rewrite_ok(rules: Rules, s: Seq<(Pos, Root)>)
    requires
        s.len() >= width(rules),
        all_ok(s),
        rewrite_front(rules, s) is Some,
    ensures
        forall|k: int| 0 <= k < (rewrite_front(rules, s)->0).len() ==> root_ok(#[trigger] (rewrite_front(rules, s)->0)[k]),
{
    assert(root_ok(s[0].1));
    if width(rules) >= 2 {
        assert(root_ok(s[1].1));
    }
    if width(rules) >= 3 {
        assert(root_ok(s[2].1));
    }
}

/// Every pass keeps roots acceptable to placement and encoding.
pub proof fn lemma_pass_ok(rules: Rules, s: Seq<(Pos, Root)>)
    requires
        all_ok(s),
    ensures
        all_ok(replace_all(rules, s)),
    decreases s.len(),
{
    let n = width(rules) as int;
    if s.len() >= n && n > 0 {
        match rewrite_front(rules, s) {
            Some(rs) => {
                assert(all_ok(s.skip(n))) by {
                    assert forall|k: int| 0 <= k < s.skip(n).len() implies root_ok(#[trigger] s.skip(n)[k].1) by {
                        assert(s.skip(n)[k] == s[k + n]);
                    }
                }
                lemma_pass_ok(rules, s.skip(n));
                lemma_rewrite_ok(rules, s);
                let r = replace_all(rules, s);
                let a = at_pos(s[0].0, rs);
                assert forall|k: int| 0 <= k < r.len() implies root_ok(#[trigger] r[k].1) by {
                    if k < a.len() {
                        assert(r[k] == a[k]);
                    } else {
                        assert(r[k] == replace_all(rules, s.skip(n))[k - a.len()]);
                    }
                }
            },
            None => {
                assert(all_ok(s.skip(1))) by {
                    assert forall|k: int| 0 <= k < s.skip(1).len() implies root_ok(#[trigger] s.skip(1)[k].1) by {
                        assert(s.skip(1)[k] == s[k + 1]);
                    }
                }
                lemma_pass_ok(rules, s.skip(1));
                let r = replace_all(rules, s);
                assert forall|k: int| 0 <= k < r.len() implies root_ok(#[trigger] r[k].1) by {
                    if k > 0 {
                        assert(r[k] == replace_all(rules, s.skip(1))[k - 1]);
                    }
                }
            },
        }
    }
}

proof fn lemma_settle_ok(s: Seq<(Pos, Root)>)
    requires
        all_ok(s),
    ensures
        all_ok(settle(s)),
    decreases total_weight(s),
{
    if round_applies(s) {
        lemma_round(s);
        lemma_pass_ok(Rules::DropNop, s);
        lemma_pass_ok(Rules::FoldUnary, replace_all(Rules::DropNop, s));
        lemma_pass_ok(Rules::FoldBinary, replace_all(Rules::FoldUnary, replace_all(Rules::DropNop, s)));
        lemma_settle_ok(round(s));
    }
}

/// The optimizer keeps roots acceptable to placement and encoding.
pub proof fn lemma_optimized_ok(s: Seq<(Pos, Root)>)
    requires
        all_ok(s),
    ensures
        all_ok(optimized(s)),
{
    lemma_pass_ok(Rules::CaptureDyn, s);
    lemma_settle_ok(replace_all(Rules::CaptureDyn, s));
    lemma_pass_ok(Rules::ReuseTop, settle(replace_all(Rules::CaptureDyn, s)));
    lemma_pass_ok(Rules::ReuseSecond, replace_all(Rules::ReuseTop, settle(replace_all(Rules::CaptureDyn, s))));
}

proof fn lemma_drop_nop_concat(x: Seq<(Pos, Root)>, y: Seq<(Pos, Root)>)
    ensures
        replace_all(Rules::DropNop, x + y) == replace_all(Rules::DropNop, x) + replace_all(Rules::DropNop, y),
    decreases x.len(),
{
    if x.len() == 0 {
        assert(x + y =~= y);
        assert(replace_all(Rules::DropNop, x) =~= Seq::<(Pos, Root)>::empty());
        assert(replace_all(Rules::DropNop, x) + replace_all(Rules::DropNop, y) =~= replace_all(Rules::DropNop, y));
    } else {
        assert((x + y).skip(1) =~= x.skip(1) + y);
        assert((x + y)[0] == x[0]);
        lemma_drop_nop_concat(x.skip(1), y);
        match rewrite_front(Rules::DropNop, x) {
            Some(rs) => {
                assert(replace_all(Rules::DropNop, x + y) =~= at_pos(x[0].0, rs) + (replace_all(Rules::DropNop, x.skip(1))
                    + replace_all(Rules::DropNop, y)));
            },
            None => {
                assert(replace_all(Rules::DropNop, x + y) =~= seq![x[0]] + (replace_all(Rules::DropNop, x.skip(1))
                    + replace_all(Rules::DropNop, y)));
            },
        }
    }
}

/// A `nop` inserted anywhere changes nothing the main loop produces: the first pass of its
/// first round removes it, so rewrites it stood between still combine.
pub proof fn lemma_settle_nop(a: Seq<(Pos, Root)>, b: Seq<(Pos, Root)>, pos: Pos)
    ensures
        settle(a + seq![(pos, Root::Instruction(Instruction::Nop))] + b) == settle(a + b),
{
    let nop = seq![(pos, Root::Instruction(Instruction::Nop))];
    let x = a + nop + b;
    let y = a + b;
    lemma_drop_nop_concat(a + nop, b);
    lemma_drop_nop_concat(a, nop);
    lemma_drop_nop_concat(a, b);
    assert(nop.skip(1) =~= Seq::<(Pos, Root)>::empty());
    assert(rewrite_front(Rules::DropNop, nop) == Some(Seq::<Root>::empty()));
    assert(at_pos(pos, Seq::<Root>::empty()) =~= Seq::<(Pos, Root)>::empty());
    assert(replace_all(Rules::DropNop, Seq::<(Pos, Root)>::empty()) =~= Seq::<(Pos, Root)>::empty());
    assert(replace_all(Rules::DropNop, nop) =~= Seq::<(Pos, Root)>::empty());
    assert(replace_all(Rules::DropNop, a) + Seq::<(Pos, Root)>::empty() =~= replace_all(Rules::DropNop, a));
    assert(replace_all(Rules::DropNop, x) == replace_all(Rules::DropNop, y));
    assert(round(x) == round(y));
    lemma_pass_weight(Rules::DropNop, x);
    lemma_pass_weight(Rules::DropNop, a);
    lemma_pass_weight(Rules::DropNop, b);
    lemma_weight_concat(a + nop, b);
    lemma_weight_concat(a, nop);
    lemma_weight_concat(replace_all(Rules::DropNop, a), replace_all(Rules::DropNop, b));
    reveal_with_fuel(total_weight, 2);
    assert(total_weight(nop) == 2);
    assert(applied(Rules::DropNop, x));
    assert(round_applies(x));
    lemma_round(y);
}

/// A pass of two-root rewrites over `x + z` is the pass over `x` then the pass over `z`, when
/// the last root of `x` and the first of `z` form no window the rules rewrite.
proof fn lemma_pass_split(rules: Rules, x: Seq<(Pos, Root)>, z: Seq<(Pos, Root)>)
    requires
        width(rules) == 2,
        z.len() > 0,
        x.len() > 0 ==> rewrite2(rules, x.last().1, z[0].1) is None,
    ensures
        replace_all(rules, x + z) == replace_all(rules, x) + replace_all(rules, z),
    decreases x.len(),
{
    if x.len() == 0 {
        assert(x + z =~= z);
        assert(replace_all(rules, x) =~= Seq::<(Pos, Root)>::empty());
        assert(replace_all(rules, x) + replace_all(rules, z) =~= replace_all(rules, z));
    } else if x.len() == 1 {
        assert((x + z)[0] == x[0]);
        assert((x + z)[1] == z[0]);
        assert((x + z).skip(1) =~= z);
        assert(replace_all(rules, x) == x);
        assert(replace_all(rules, x + z) =~= x + replace_all(rules, z));
    } else {
        assert((x + z)[0] == x[0]);
        assert((x + z)[1] == x[1]);
        match rewrite_front(rules, x) {
            Some(rs) => {
                assert((x + z).skip(2) =~= x.skip(2) + z);
                if x.len() > 2 {
                    assert(x.skip(2).last() == x.last());
                }
                lemma_pass_split(rules, x.skip(2), z);
                assert(replace_all(rules, x + z) =~= at_pos(x[0].0, rs) + (replace_all(rules, x.skip(2))
                    + replace_all(rules, z)));
            },
            None => {
                assert((x + z).skip(1) =~= x.skip(1) + z);
                assert(x.skip(1).last() == x.last());
                lemma_pass_split(rules, x.skip(1), z);
                assert(replace_all(rules, x + z) =~= seq![x[0]] + (replace_all(rules, x.skip(1))
                    + replace_all(rules, z)));
            },
        }
    }
}

/// A `nop` inserted anywhere, except right before an `@dyn` (which would capture it), changes
/// nothing the optimizer produces: the first pass of the main loop removes it, so rewrites it
/// stood between still combine.
pub proof fn law_nop_transparent(a: Seq<(Pos, Root)>, b: Seq<(Pos, Root)>, pos: Pos)
    requires
        b.len() > 0 ==> b[0].1 != Root::Dyn(None),
    ensures
        optimized(a + seq![(pos, Root::Instruction(Instruction::Nop))] + b) == optimized(a + b),
{
    let nop = seq![(pos, Root::Instruction(Instruction::Nop))];
    let c = Rules::CaptureDyn;
    assert(a + nop + b =~= a + (nop + b));
    lemma_pass_split(c, a, nop + b);
    if b.len() > 0 {
        lemma_pass_split(c, nop, b);
        assert(replace_all(c, nop) =~= nop);
        if a.len() > 0 {
            lemma_pass_split(c, a, b);
        } else {
            assert(a + b =~= b);
            assert(replace_all(c, a) =~= Seq::<(Pos, Root)>::empty());
            assert(replace_all(c, a) + replace_all(c, b) =~= replace_all(c, b));
        }
    } else {
        assert(nop + b =~= nop);
        assert(a + b =~= a);
        assert(replace_all(c, nop) =~= nop);
        assert(replace_all(c, b) =~= b);
        assert(replace_all(c, b) =~= Seq::<(Pos, Root)>::empty());
        assert(replace_all(c, a) + Seq::<(Pos, Root)>::empty() =~= replace_all(c, a));
    }
    let ca = replace_all(c, a);
    let cb = replace_all(c, b);
    assert(replace_all(c, a + nop + b) =~= ca + nop + cb);
    assert(replace_all(c, a + b) =~= ca + cb);
    lemma_settle_nop(ca, cb, pos);
}

} // verus!
