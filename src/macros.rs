use vstd::prelude::*;
use crate::syntax::{Pos, Label, Macro, Token, Error};

verus! {

/// The macro definitions: each name once, in order of first definition, with its body.
pub type Definitions = Vec<(Macro, Vec<(Pos, Token)>)>;

/// The index of the last of `names` that is `name`, if any.
pub open spec fn find_in(names: Seq<Macro>, name: Seq<char>) -> Option<int>
    decreases names.len(),
{
    if names.len() == 0 {
        None
    } else if names.last().0@ == name {
        Some(names.len() - 1)
    } else {
        find_in(names.drop_last(), name)
    }
}

/// The names of a sequence of definitions.
pub open spec fn names<B>(defs: Seq<(Macro, B)>) -> Seq<Macro> {
    defs.map_values(|d: (Macro, B)| d.0)
}

/// Each name is defined once.
pub open spec fn names_unique(names: Seq<Macro>) -> bool {
    forall|i: int, j: int| 0 <= i < j < names.len() ==> (#[trigger] names[i]).0@ != (#[trigger] names[j]).0@
}

/// The tokens of each definition, without their positions.
pub open spec fn defs_tokens(defs: Seq<(Macro, Seq<(Pos, Token)>)>) -> Seq<(Macro, Seq<Token>)> {
    defs.map_values(|d: (Macro, Seq<(Pos, Token)>)| (d.0, d.1.map_values(|e: (Pos, Token)| e.1)))
}

/// The state of collecting definitions: the definitions so far, the macro being defined,
/// and the diagnostics.
pub struct Collected {
    pub defs: Seq<(Macro, Seq<Token>)>,
    pub current: Option<int>,
    pub errors: Seq<(Pos, Error)>,
}

/// One token of the collection pass: a definition opens (or reopens) a macro; any other token is
/// appended to the open macro; a token before any definition is an orphan.
pub open spec fn collect_step(st: Collected, pos: Pos, t: Token) -> Collected {
    match t {
        Token::MacroDef(m) => match find_in(names(st.defs), m.0@) {
            Some(j) => Collected { current: Some(j), ..st },
            None => Collected {
                defs: st.defs.push((m, seq![])),
                current: Some(st.defs.len() as int),
                ..st
            },
        },
        _ => match st.current {
            Some(c) => Collected {
                defs: st.defs.update(c, (st.defs[c].0, st.defs[c].1.push(t))),
                ..st
            },
            None => Collected { errors: st.errors.push((pos, Error::OrphanInstruction(t))), ..st },
        },
    }
}

/// Whether `p` is the position of the token at `index` of the body of `m`: the macro's
/// reference form `!name`, and the index.
pub open spec fn body_pos_of(p: Pos, m: Macro, index: int) -> bool {
    p.scope@ == "!"@ + m.0@ && p.index == index
}

pub open spec fn collect(tokens: Seq<(Pos, Token)>) -> Collected
    decreases tokens.len(),
{
    if tokens.len() == 0 {
        Collected { defs: seq![], current: None, errors: seq![] }
    } else {
        let st = collect(tokens.drop_last());
        collect_step(st, tokens.last().0, tokens.last().1)
    }
}

proof fn lemma_find_in(names: Seq<Macro>, name: Seq<char>)
    ensures
        find_in(names, name) matches Some(j) ==> 0 <= j < names.len() && names[j].0@ == name,
        find_in(names, name) is None ==> forall|k: int| 0 <= k < names.len() ==> (#[trigger] names[k]).0@ != name,
        names_unique(names) ==> forall|k: int| 0 <= k < names.len() && (#[trigger] names[k]).0@ == name ==> find_in(names, name) == Some(k),
    decreases names.len(),
{
    if names.len() > 0 {
        lemma_find_in(names.drop_last(), name);
        assert forall|k: int| 0 <= k < names.len() - 1 implies names.drop_last()[k] == names[k] by {}
        if names_unique(names) {
            assert(names_unique(names.drop_last()));
            assert forall|k: int| 0 <= k < names.len() && (#[trigger] names[k]).0@ == name implies find_in(
                names,
                name,
            ) == Some(k) by {
                if k < names.len() - 1 {
                    assert(names.drop_last()[k] == names[k]);
                    assert(names[k].0@ != names.last().0@);
                }
            }
        }
    }
}

fn find_def(defs: &Definitions, name: &String) -> (r: Option<usize>)
    ensures
        r matches Some(j) ==> find_in(names(defs@), name@) == Some(j as int),
        r is None ==> find_in(names(defs@), name@) is None,
{
    let mut i: usize = defs.len();
    assert(names(defs@).take(i as int) =~= names(defs@));
    while i > 0
        invariant
            i <= defs@.len(),
            find_in(names(defs@), name@) == find_in(names(defs@).take(i as int), name@),
        decreases i,
    {
        assert(names(defs@).take(i as int).drop_last() =~= names(defs@).take(i - 1));
        if defs[i - 1].0.0 == *name {
            return Some(i - 1);
        }
        i = i - 1;
    }
    assert(names(defs@).take(0) =~= Seq::<Macro>::empty());
    None
}

pub open spec fn is_macro_def(t: Token) -> bool {
    t is MacroDef
}

pub open spec fn is_macro_ref(t: Token) -> bool {
    t is MacroRef
}

/// No body holds a macro definition.
pub open spec fn bodies_plain(defs: Seq<(Macro, Seq<(Pos, Token)>)>) -> bool {
    forall|j: int, k: int| 0 <= j < defs.len() && 0 <= k < defs[j].1.len() ==> !is_macro_def((#[trigger] defs[j].1[k]).1)
}

/// The positionless view of executable definitions.
pub open spec fn defs_seq(defs: Seq<(Macro, Vec<(Pos, Token)>)>) -> Seq<(Macro, Seq<(Pos, Token)>)> {
    defs.map_values(|d: (Macro, Vec<(Pos, Token)>)| (d.0, d.1@))
}

fn macro_scope(m: &Macro) -> (r: String)
    ensures
        r@ == "!"@ + m.0@,
{
    String::from_str("!").concat(m.0.as_str())
}

/// Groups tokens under the macro definitions they follow. Each token of a body is positioned by
/// its macro and its index in the body; tokens before any definition are reported as orphans.
pub fn define_macros(tokens: Vec<(Pos, Token)>, errors: &mut Vec<(Pos, Error)>) -> (r: Definitions)
    ensures
        defs_tokens(defs_seq(r@)) == collect(tokens@).defs,
        names_unique(names(r@)),
        forall|j: int, k: int| 0 <= j < r@.len() && 0 <= k < r@[j].1@.len() ==> body_pos_of(
            (#[trigger] r@[j].1@[k]).0, r@[j].0, k),
        bodies_plain(defs_seq(r@)),
        final(errors)@ == old(errors)@ + collect(tokens@).errors,
{
    let mut defs: Definitions = Vec::new();
    let mut current: Option<usize> = None;
    let ghost base = errors@;
    let mut i: usize = 0;
    while i < tokens.len()
        invariant
            i <= tokens@.len(),
            defs_tokens(defs_seq(defs@)) == collect(tokens@.take(i as int)).defs,
            names_unique(names(defs@)),
            bodies_plain(defs_seq(defs@)),
            forall|j: int, k: int| 0 <= j < defs@.len() && 0 <= k < defs@[j].1@.len() ==> body_pos_of(
                (#[trigger] defs@[j].1@[k]).0, defs@[j].0, k),
            current matches Some(c) ==> collect(tokens@.take(i as int)).current == Some(c as int) && c < defs@.len(),
            current is None ==> collect(tokens@.take(i as int)).current is None,
            errors@ == base + collect(tokens@.take(i as int)).errors,
        decreases tokens@.len() - i,
    {
        assert(tokens@.take(i + 1).drop_last() =~= tokens@.take(i as int));
        let ghost st = collect(tokens@.take(i as int));
        assert(names(st.defs) =~= names(defs@));
        match &tokens[i].1 {
            Token::MacroDef(m) => {
                match find_def(&defs, &m.0) {
                    Some(j) => {
                        current = Some(j);
                        proof { lemma_find_in(names(defs@), m.0@); }
                    },
                    None => {
                        proof { lemma_find_in(names(defs@), m.0@); }
                        let ghost old_defs = defs@;
                        defs.push((m.copy(), Vec::new()));
                        current = Some(defs.len() - 1);
                        assert(defs_tokens(defs_seq(defs@)).last().1 =~= Seq::<Token>::empty());
                        assert(defs_tokens(defs_seq(defs@)) =~= st.defs.push((*m, seq![])));
                        assert(names(defs@) =~= names(old_defs).push(*m));
                        assert(bodies_plain(defs_seq(defs@))) by {
                            assert forall|a: int, b: int| 0 <= a < defs_seq(defs@).len() && 0 <= b < defs_seq(defs@)[a].1.len() implies !is_macro_def((#[trigger] defs_seq(defs@)[a].1[b]).1) by {
                                assert(a < old_defs.len());
                                assert(defs_seq(defs@)[a] == defs_seq(old_defs)[a]);
                            }
                        }
                        assert(names_unique(names(defs@))) by {
                            assert forall|a: int, b: int| 0 <= a < b < names(defs@).len() implies (#[trigger] names(defs@)[a]).0@
                                != (#[trigger] names(defs@)[b]).0@ by {
                                if b == names(defs@).len() - 1 {
                                    assert(names(old_defs)[a] == names(defs@)[a]);
                                } else {
                                    assert(names(old_defs)[a] == names(defs@)[a]);
                                    assert(names(old_defs)[b] == names(defs@)[b]);
                                }
                            }
                        }
                    },
                }
            },
            _ => {
                match current {
                    Some(c) => {
                        let index = defs[c].1.len();
                        let pos = Pos { scope: macro_scope(&defs[c].0), index };
                        let t = tokens[i].1.copy();
                        let ghost old_defs = defs@;
                        defs[c].1.push((pos, t));
                        assert(bodies_plain(defs_seq(defs@))) by {
                            assert forall|a: int, b: int| 0 <= a < defs_seq(defs@).len() && 0 <= b < defs_seq(defs@)[a].1.len() implies !is_macro_def((#[trigger] defs_seq(defs@)[a].1[b]).1) by {
                                if a != c || b < old_defs[a].1@.len() {
                                    assert(defs_seq(defs@)[a].1[b] == defs_seq(old_defs)[a].1[b]);
                                }
                            }
                        }
                        assert(names(defs@) =~= names(old_defs));
                        assert(defs_tokens(defs_seq(defs@))[c as int].1 =~= st.defs[c as int].1.push(tokens@[i as int].1));
                        assert(defs_tokens(defs_seq(defs@)) =~= st.defs.update(
                            c as int,
                            (st.defs[c as int].0, st.defs[c as int].1.push(tokens@[i as int].1)),
                        ));
                    },
                    None => {
                        errors.push((tokens[i].0.copy(), Error::OrphanInstruction(tokens[i].1.copy())));
                    },
                }
            },
        }
        i = i + 1;
    }
    assert(tokens@.take(i as int) =~= tokens@);
    defs
}

/// A token with its local label, if it holds one, moved to scope `id`.
pub open spec fn rescope(t: Token, id: usize) -> Token {
    match t {
        Token::LabelDef(l) => if l.scope_id is Some {
            Token::LabelDef(Label { scope_id: Some(id), identifier: l.identifier })
        } else {
            t
        },
        Token::LabelRef(l) => if l.scope_id is Some {
            Token::LabelRef(Label { scope_id: Some(id), identifier: l.identifier })
        } else {
            t
        },
        _ => t,
    }
}

/// The names of the macros on the expansion stack, outermost first.
pub open spec fn chain(defs: Seq<(Macro, Seq<(Pos, Token)>)>, parents: Seq<usize>) -> Seq<Macro> {
    parents.map_values(|j: usize| defs[j as int].0)
}

/// Whether a macro named `name` is being expanded.
pub open spec fn on_stack(defs: Seq<(Macro, Seq<(Pos, Token)>)>, parents: Seq<usize>, name: Seq<char>) -> bool {
    exists|k: int| 0 <= k < parents.len() && (#[trigger] chain(defs, parents)[k]).0@ == name
}

/// A diagnostic of the expansion, as a value: a macro met again while on the stack (with
/// the stack), or an undefined macro.
pub enum Issue {
    SelfReference(Seq<Macro>, Macro),
    NotFound(Macro),
}

/// Whether a reported diagnostic is the one described.
pub open spec fn reports(e: (Pos, Error), i: (Pos, Issue)) -> bool {
    e.0 == i.0 && match (e.1, i.1) {
        (Error::MacroSelfReference(v, m), Issue::SelfReference(c, n)) => v@ == c && m == n,
        (Error::MacroNotFound(m), Issue::NotFound(n)) => m == n,
        _ => false,
    }
}

/// Whether the diagnostics `es` are, one for one, those described by `is`.
pub open spec fn reports_all(es: Seq<(Pos, Error)>, is: Seq<(Pos, Issue)>) -> bool {
    es.len() == is.len() && forall|k: int| 0 <= k < es.len() ==> reports(#[trigger] es[k], is[k])
}

/// The result of expanding a token sequence: the tokens, the next free scope id, and the
/// diagnostics.
pub struct Expansion {
    pub out: Seq<(Pos, Token)>,
    pub next: nat,
    pub errors: Seq<(Pos, Issue)>,
}

/// Expands the macro references of `toks`, left to right, with the macros of `parents` on the
/// expansion stack and `id` the next free scope id. A reference to a macro on the stack, or to
/// an undefined one, is reported and expands to nothing. Otherwise the body's local labels move
/// to a fresh scope id, taken before the body's own references are expanded. Expansion stops
/// once scope ids are exhausted. (The stack holds distinct definitions, so it is never deeper
/// than there are definitions; the bound only makes the recursion's measure visible.)
pub open spec fn expand(
    defs: Seq<(Macro, Seq<(Pos, Token)>)>,
    toks: Seq<(Pos, Token)>,
    parents: Seq<usize>,
    id: nat,
) -> Expansion
    decreases defs.len() - parents.len(), toks.len(),
{
    if toks.len() == 0 {
        Expansion { out: seq![], next: id, errors: seq![] }
    } else {
        let e = expand(defs, toks.drop_last(), parents, id);
        let (pos, t) = toks.last();
        match t {
            Token::MacroRef(m) => if on_stack(defs, parents, m.0@) {
                Expansion {
                    errors: e.errors.push((pos, Issue::SelfReference(chain(defs, parents), m))),
                    ..e
                }
            } else {
                match find_in(names(defs), m.0@) {
                    None => Expansion { errors: e.errors.push((pos, Issue::NotFound(m))), ..e },
                    Some(j) => if parents.len() < defs.len() && e.next < usize::MAX && 0 <= j < defs.len() {
                        let body = defs[j].1.map_values(
                            |x: (Pos, Token)| (x.0, rescope(x.1, e.next as usize)),
                        );
                        let sub = expand(defs, body, parents.push(j as usize), e.next + 1);
                        Expansion { out: e.out + sub.out, next: sub.next, errors: e.errors + sub.errors }
                    } else {
                        e
                    },
                }
            },
            _ => Expansion { out: e.out.push((pos, t)), ..e },
        }
    }
}

/// A stack of distinct definitions is no deeper than there are definitions.
proof fn lemma_stack_bound(p: Seq<usize>, n: nat)
    requires
        p.no_duplicates(),
        forall|k: int| 0 <= k < p.len() ==> #[trigger] p[k] < n,
    ensures
        p.len() <= n,
{
    let s = Seq::new(n, |i: int| i as usize);
    s.lemma_cardinality_of_set();
    p.unique_seq_to_set();
    vstd::seq_lib::seq_to_set_is_finite(s);
    assert(p.to_set().subset_of(s.to_set())) by {
        assert forall|x: usize| p.to_set().contains(x) implies s.to_set().contains(x) by {
            let k = choose|k: int| 0 <= k < p.len() && p[k] == x;
            assert(s[x as int] == x);
        }
    }
    vstd::set_lib::lemma_len_subset(p.to_set(), s.to_set());
}

fn on_stack_of(defs: &Definitions, parents: &Vec<usize>, name: &String) -> (r: bool)
    requires
        forall|k: int| 0 <= k < parents@.len() ==> #[trigger] parents@[k] < defs@.len(),
    ensures
        r == on_stack(defs_seq(defs@), parents@, name@),
{
    let ghost c = chain(defs_seq(defs@), parents@);
    let mut i: usize = 0;
    while i < parents.len()
        invariant
            i <= parents@.len(),
            c == chain(defs_seq(defs@), parents@),
            forall|k: int| 0 <= k < parents@.len() ==> #[trigger] parents@[k] < defs@.len(),
            forall|k: int| 0 <= k < i ==> (#[trigger] c[k]).0@ != name@,
        decreases parents@.len() - i,
    {
        if defs[parents[i]].0.0 == *name {
            assert(c[i as int].0@ == name@);
            return true;
        }
        i = i + 1;
    }
    false
}

fn stack_names(defs: &Definitions, parents: &Vec<usize>) -> (r: Vec<Macro>)
    requires
        forall|k: int| 0 <= k < parents@.len() ==> #[trigger] parents@[k] < defs@.len(),
    ensures
        r@ == chain(defs_seq(defs@), parents@),
{
    let mut r: Vec<Macro> = Vec::new();
    let mut i: usize = 0;
    while i < parents.len()
        invariant
            i <= parents@.len(),
            forall|k: int| 0 <= k < parents@.len() ==> #[trigger] parents@[k] < defs@.len(),
            r@ == chain(defs_seq(defs@), parents@).take(i as int),
        decreases parents@.len() - i,
    {
        r.push(defs[parents[i]].0.copy());
        assert(chain(defs_seq(defs@), parents@).take(i + 1) =~= chain(defs_seq(defs@), parents@).take(
            i as int,
        ).push(defs@[parents@[i as int] as int].0));
        i = i + 1;
    }
    assert(chain(defs_seq(defs@), parents@).take(i as int) =~= chain(defs_seq(defs@), parents@));
    r
}

fn rescope_token(t: &Token, id: usize) -> (r: Token)
    ensures
        r == rescope(*t, id),
{
    match t {
        Token::LabelDef(l) => match l.scope_id {
            Some(_) => Token::LabelDef(Label { scope_id: Some(id), identifier: l.identifier.clone() }),
            None => t.copy(),
        },
        Token::LabelRef(l) => match l.scope_id {
            Some(_) => Token::LabelRef(Label { scope_id: Some(id), identifier: l.identifier.clone() }),
            None => t.copy(),
        },
        _ => t.copy(),
    }
}

fn rescoped_body(body: &Vec<(Pos, Token)>, id: usize) -> (r: Vec<(Pos, Token)>)
    ensures
        r@ == body@.map_values(|x: (Pos, Token)| (x.0, rescope(x.1, id))),
{
    let mut r: Vec<(Pos, Token)> = Vec::new();
    let mut i: usize = 0;
    while i < body.len()
        invariant
            i <= body@.len(),
            r@ == body@.take(i as int).map_values(|x: (Pos, Token)| (x.0, rescope(x.1, id))),
        decreases body@.len() - i,
    {
        r.push((body[i].0.copy(), rescope_token(&body[i].1, id)));
        assert(body@.take(i + 1).map_values(|x: (Pos, Token)| (x.0, rescope(x.1, id))) =~= body@.take(
            i as int,
        ).map_values(|x: (Pos, Token)| (x.0, rescope(x.1, id))).push(
            (body@[i as int].0, rescope(body@[i as int].1, id)),
        ));
        i = i + 1;
    }
    assert(body@.take(i as int) =~= body@);
    r
}

/// Expands the macro references of `toks` as `expand` describes; `parents` is the expansion
/// stack and `scope_id` the next free scope id.
pub fn expand_macros(
    defs: &Definitions,
    toks: &Vec<(Pos, Token)>,
    parents: &mut Vec<usize>,
    scope_id: &mut usize,
    errors: &mut Vec<(Pos, Error)>,
) -> (r: Vec<(Pos, Token)>)
    requires
        forall|k: int| 0 <= k < old(parents)@.len() ==> #[trigger] old(parents)@[k] < defs@.len(),
        old(parents)@.no_duplicates(),
    ensures
        r@ == expand(defs_seq(defs@), toks@, old(parents)@, *old(scope_id) as nat).out,
        *final(scope_id) as nat == expand(defs_seq(defs@), toks@, old(parents)@, *old(scope_id) as nat).next,
        final(errors)@.len() >= old(errors)@.len(),
        final(errors)@.take(old(errors)@.len() as int) == old(errors)@,
        reports_all(
            final(errors)@.skip(old(errors)@.len() as int),
            expand(defs_seq(defs@), toks@, old(parents)@, *old(scope_id) as nat).errors,
        ),
        final(parents)@ == old(parents)@,
    decreases defs@.len() - old(parents)@.len(),
{
    let ghost d = defs_seq(defs@);
    let ghost p = parents@;
    let ghost id0 = *scope_id as nat;
    let ghost base = errors@;
    let mut out: Vec<(Pos, Token)> = Vec::new();
    let mut i: usize = 0;
    assert(toks@.take(0) =~= Seq::<(Pos, Token)>::empty());
    assert(errors@.skip(base.len() as int) =~= Seq::<(Pos, Error)>::empty());
    while i < toks.len()
        invariant
            i <= toks@.len(),
            d == defs_seq(defs@),
            parents@ == p,
            p == old(parents)@,
            p.no_duplicates(),
            forall|k: int| 0 <= k < p.len() ==> #[trigger] p[k] < defs@.len(),
            out@ == expand(d, toks@.take(i as int), p, id0).out,
            *scope_id as nat == expand(d, toks@.take(i as int), p, id0).next,
            errors@.len() >= base.len(),
            errors@.take(base.len() as int) == base,
            reports_all(errors@.skip(base.len() as int), expand(d, toks@.take(i as int), p, id0).errors),
        decreases toks@.len() - i,
    {
        let ghost e = expand(d, toks@.take(i as int), p, id0);
        let ghost before = errors@;
        assert(toks@.take(i + 1).drop_last() =~= toks@.take(i as int));
        let pos = &toks[i].0;
        match &toks[i].1 {
            Token::MacroRef(m) => {
                if on_stack_of(defs, parents, &m.0) {
                    let names = stack_names(defs, parents);
                    errors.push((pos.copy(), Error::MacroSelfReference(names, m.copy())));
                    assert(errors@.skip(base.len() as int) =~= before.skip(base.len() as int).push(errors@.last()));
                } else {
                    assert(names(defs@) =~= names(d));
                    match find_def(defs, &m.0) {
                        None => {
                            errors.push((pos.copy(), Error::MacroNotFound(m.copy())));
                            assert(errors@.skip(base.len() as int) =~= before.skip(base.len() as int).push(errors@.last()));
                        },
                        Some(j) => {
                            assert(names(defs@) =~= names(d));
                            proof {
                                lemma_find_in(names(defs@), m.0@);
                            }
                            proof {
                                assert(!p.contains(j)) by {
                                    if p.contains(j) {
                                        let k = choose|k: int| 0 <= k < p.len() && p[k] == j;
                                        assert(chain(d, p)[k].0@ == m.0@);
                                    }
                                }
                                lemma_stack_bound(p.push(j), defs@.len());
                            }
                            if *scope_id < usize::MAX {
                                let body = rescoped_body(&defs[j].1, *scope_id);
                                assert(body@ == d[j as int].1.map_values(
                                    |x: (Pos, Token)| (x.0, rescope(x.1, e.next as usize)),
                                ));
                                *scope_id = *scope_id + 1;
                                parents.push(j);
                                assert(parents@.len() == p.len() + 1);
                                assert(parents@ == p.push(j));
                                assert(0 <= defs@.len() - parents@.len() < defs@.len() - p.len());
                                let mut sub = expand_macros(defs, &body, parents, scope_id, errors);
                                parents.pop();
                                assert(parents@ =~= p);
                                out.append(&mut sub);
                                let ghost mid = before.len();
                                assert(errors@.skip(base.len() as int) =~= before.skip(base.len() as int) + errors@.skip(mid as int)) by {
                                    assert(errors@.take(mid as int) == before);
                                }
                            }
                        },
                    }
                }
            },
            _ => {
                out.push((pos.copy(), toks[i].1.copy()));
            },
        }
        assert(out@ == expand(d, toks@.take(i + 1), p, id0).out);
        i = i + 1;
    }
    assert(toks@.take(i as int) =~= toks@);
    out
}

/// The scope of the local label a token holds, if it holds one.
pub open spec fn local_scope(t: Token) -> Option<usize> {
    match t {
        Token::LabelDef(l) => l.scope_id,
        Token::LabelRef(l) => l.scope_id,
        _ => None,
    }
}

/// Every local label an expansion produces either comes unchanged from the expanded tokens or
/// has a scope id taken during this expansion.
pub proof fn lemma_expansion_scopes(
    defs: Seq<(Macro, Seq<(Pos, Token)>)>,
    toks: Seq<(Pos, Token)>,
    parents: Seq<usize>,
    id: nat,
)
    ensures
        expand(defs, toks, parents, id).next >= id,
        forall|k: int|
            0 <= k < expand(defs, toks, parents, id).out.len() && (#[trigger] local_scope(
                expand(defs, toks, parents, id).out[k].1,
            )) is Some ==> ({
                let s = local_scope(expand(defs, toks, parents, id).out[k].1)->0;
                (id <= s < expand(defs, toks, parents, id).next) || exists|j: int|
                    0 <= j < toks.len() && local_scope(#[trigger] toks[j].1) == Some(s)
            }),
    decreases defs.len() - parents.len(), toks.len(),
{
    if toks.len() > 0 {
        let pre = toks.drop_last();
        lemma_expansion_scopes(defs, pre, parents, id);
        let e = expand(defs, pre, parents, id);
        let r = expand(defs, toks, parents, id);
        let (pos, t) = toks.last();
        assert forall|j: int| 0 <= j < pre.len() implies #[trigger] pre[j] == toks[j] by {}
        match t {
            Token::MacroRef(m) => {
                if !on_stack(defs, parents, m.0@) {
                    match find_in(names(defs), m.0@) {
                        None => {},
                        Some(j) => {
                            if parents.len() < defs.len() && e.next < usize::MAX && 0 <= j < defs.len() {
                                let c = e.next as usize;
                                let body = defs[j].1.map_values(|x: (Pos, Token)| (x.0, rescope(x.1, c)));
                                lemma_expansion_scopes(defs, body, parents.push(j as usize), e.next + 1);
                                let sub = expand(defs, body, parents.push(j as usize), e.next + 1);
                                assert forall|q: int| 0 <= q < body.len() && (#[trigger] local_scope(body[q].1)) is Some implies local_scope(
                                    body[q].1,
                                ) == Some(c) by {}
                                assert forall|k: int|
                                    0 <= k < r.out.len() && (#[trigger] local_scope(r.out[k].1)) is Some implies ({
                                        let s = local_scope(r.out[k].1)->0;
                                        (id <= s < r.next) || exists|j: int|
                                            0 <= j < toks.len() && local_scope(#[trigger] toks[j].1) == Some(s)
                                    }) by {
                                    if k >= e.out.len() {
                                        assert(r.out[k] == sub.out[k - e.out.len()]);
                                    } else {
                                        assert(r.out[k] == e.out[k]);
                                        let s = local_scope(r.out[k].1)->0;
                                        if !(id <= s < e.next) {
                                            let w = choose|w: int| 0 <= w < pre.len() && local_scope(#[trigger] pre[w].1) == Some(s);
                                            assert(toks[w] == pre[w]);
                                        }
                                    }
                                }
                            }
                        },
                    }
                }
            },
            _ => {
                assert forall|k: int|
                    0 <= k < r.out.len() && (#[trigger] local_scope(r.out[k].1)) is Some implies ({
                        let s = local_scope(r.out[k].1)->0;
                        (id <= s < r.next) || exists|j: int|
                            0 <= j < toks.len() && local_scope(#[trigger] toks[j].1) == Some(s)
                    }) by {
                    if k == e.out.len() {
                        assert(r.out[k] == toks[toks.len() - 1]);
                    } else {
                        assert(r.out[k] == e.out[k]);
                        let s = local_scope(r.out[k].1)->0;
                        if !(id <= s < e.next) {
                            let w = choose|w: int| 0 <= w < pre.len() && local_scope(#[trigger] pre[w].1) == Some(s);
                            assert(toks[w] == pre[w]);
                        }
                    }
                }
            },
        }
    }
}

/// Hygiene: two macro references side by side (two expansion sites, possibly of the same
/// macro) expand one after the other, and every local label the first produces has a smaller
/// scope id than every local label the second produces, so that their local labels never
/// name the same thing.
pub proof fn law_hygienic_sites(
    defs: Seq<(Macro, Seq<(Pos, Token)>)>,
    r1: (Pos, Token),
    r2: (Pos, Token),
    parents: Seq<usize>,
    id: nat,
)
    requires
        r1.1 is MacroRef,
        r2.1 is MacroRef,
    ensures
        ({
            let e1 = expand(defs, seq![r1], parents, id);
            let e2 = expand(defs, seq![r2], parents, e1.next);
            &&& expand(defs, seq![r1, r2], parents, id).out == e1.out + e2.out
            &&& forall|a: int, b: int|
                0 <= a < e1.out.len() && 0 <= b < e2.out.len() && (#[trigger] local_scope(e1.out[a].1)) is Some
                    && (#[trigger] local_scope(e2.out[b].1)) is Some ==> local_scope(e1.out[a].1)->0
                    < local_scope(e2.out[b].1)->0
        }),
{
    let e1 = expand(defs, seq![r1], parents, id);
    let e2 = expand(defs, seq![r2], parents, e1.next);
    assert(seq![r1, r2].drop_last() =~= seq![r1]);
    assert(seq![r2].drop_last() =~= Seq::<(Pos, Token)>::empty());
    assert(seq![r1].drop_last() =~= Seq::<(Pos, Token)>::empty());
    let whole = expand(defs, seq![r1, r2], parents, id);
    let empty = expand(defs, Seq::<(Pos, Token)>::empty(), parents, e1.next);
    assert(empty.out =~= Seq::<(Pos, Token)>::empty());
    if let Token::MacroRef(m) = r2.1 {
        if !on_stack(defs, parents, m.0@) {
            if let Some(j) = find_in(names(defs), m.0@) {
                if parents.len() < defs.len() && e1.next < usize::MAX && 0 <= j < defs.len() {
                    let body = defs[j].1.map_values(|x: (Pos, Token)| (x.0, rescope(x.1, e1.next as usize)));
                    let sub = expand(defs, body, parents.push(j as usize), e1.next + 1);
                    assert(e2.out =~= sub.out);
                    assert(whole.out =~= e1.out + sub.out);
                } else {
                    assert(e2.out =~= Seq::<(Pos, Token)>::empty());
                    assert(whole.out =~= e1.out + e2.out);
                }
            } else {
                assert(e2.out =~= Seq::<(Pos, Token)>::empty());
                assert(whole.out =~= e1.out + e2.out);
            }
        } else {
            assert(e2.out =~= Seq::<(Pos, Token)>::empty());
            assert(whole.out =~= e1.out + e2.out);
        }
    }
    lemma_expansion_scopes(defs, seq![r1], parents, id);
    lemma_expansion_scopes(defs, seq![r2], parents, e1.next);
    assert(local_scope(seq![r1][0].1) is None);
    assert(local_scope(seq![r2][0].1) is None);
}

/// An expansion holds no macro reference, and no macro definition when neither the expanded
/// tokens nor the bodies hold one.
pub proof fn lemma_expansion_plain(
    defs: Seq<(Macro, Seq<(Pos, Token)>)>,
    toks: Seq<(Pos, Token)>,
    parents: Seq<usize>,
    id: nat,
)
    requires
        bodies_plain(defs),
        forall|k: int| 0 <= k < toks.len() ==> !is_macro_def((#[trigger] toks[k]).1),
    ensures
        forall|k: int| 0 <= k < expand(defs, toks, parents, id).out.len() ==> !is_macro_def((#[trigger] expand(defs, toks, parents, id).out[k]).1)
            && !is_macro_ref(expand(defs, toks, parents, id).out[k].1),
    decreases defs.len() - parents.len(), toks.len(),
{
    if toks.len() > 0 {
        let pre = toks.drop_last();
        lemma_expansion_plain(defs, pre, parents, id);
        let e = expand(defs, pre, parents, id);
        let r = expand(defs, toks, parents, id);
        let (pos, t) = toks.last();
        match t {
            Token::MacroRef(m) => {
                if !on_stack(defs, parents, m.0@) {
                    match find_in(names(defs), m.0@) {
                        None => {},
                        Some(j) => {
                            if parents.len() < defs.len() && e.next < usize::MAX && 0 <= j < defs.len() {
                                let c = e.next as usize;
                                let body = defs[j].1.map_values(|x: (Pos, Token)| (x.0, rescope(x.1, c)));
                                assert forall|k: int| 0 <= k < body.len() implies !is_macro_def((#[trigger] body[k]).1) by {
                                    assert(!is_macro_def(defs[j].1[k].1));
                                }
                                lemma_expansion_plain(defs, body, parents.push(j as usize), e.next + 1);
                                let sub = expand(defs, body, parents.push(j as usize), e.next + 1);
                                assert forall|k: int| 0 <= k < r.out.len() implies !is_macro_def((#[trigger] r.out[k]).1)
                                    && !is_macro_ref(r.out[k].1) by {
                                    if k >= e.out.len() {
                                        assert(r.out[k] == sub.out[k - e.out.len()]);
                                    } else {
                                        assert(r.out[k] == e.out[k]);
                                    }
                                }
                            }
                        },
                    }
                }
            },
            _ => {
                assert forall|k: int| 0 <= k < r.out.len() implies !is_macro_def((#[trigger] r.out[k]).1)
                    && !is_macro_ref(r.out[k].1) by {
                    if k < e.out.len() {
                        assert(r.out[k] == e.out[k]);
                    }
                }
            },
        }
    }
}

} // verus!
