use vstd::prelude::*;
use crate::isa::{Instruction, codegen, image};
use crate::ir::Root;
use crate::lexer::{tokenize, lexemes, lexes_to, bad_lexemes};
use crate::lift::{lift, lift_token, lift_errors, lemma_lift_encodable};
use crate::macros::{
    define_macros, expand_macros, expand, collect, defs_tokens, defs_seq, bodies_plain,
    reports_all, lemma_expansion_plain, lemma_expansion_scopes, local_scope, is_macro_def,
};
use crate::optimize::{optimize, optimized, root_ok, lemma_optimized_ok};
use crate::place::{place, placed, all_encodable, lemma_placed_encodable};
use crate::syntax::{Pos, Macro, Token, Error};

verus! {

/// The roots a token stream becomes, one for one.
pub open spec fn lifted(s: Seq<(Pos, Token)>) -> Seq<(Pos, Root)> {
    s.map_values(|x: (Pos, Token)| (x.0, lift_token(x.1)))
}

/// The instructions assembled from an entry-point reference under a set of definitions:
/// expansion, lifting, optimization and placement, one after the other.
pub open spec fn assembled_from(defs: Seq<(Macro, Seq<(Pos, Token)>)>, entry: (Pos, Token)) -> Seq<(Pos, Instruction)> {
    placed(optimized(lifted(expand(defs, seq![entry], seq![], 1).out))).out
}

/// Whether `entry` is a reference to the macro named `name`, positioned as the first token of
/// the synthetic `[bootstrap]` scope.
pub open spec fn refers_to(entry: (Pos, Token), name: Seq<char>) -> bool {
    &&& entry.0.scope@ == "[bootstrap]"@
    &&& entry.0.index == 0
    &&& match entry.1 {
        Token::MacroRef(m) => m.0@ == name,
        _ => false,
    }
}

/// The diagnostics of assembly from the given definitions, after those of collection:
/// the expansion's (`es`), the lifting's, then the placement's.
pub open spec fn stage_errors(
    defs: Seq<(Macro, Seq<(Pos, Token)>)>,
    entry: (Pos, Token),
    es: Seq<(Pos, Error)>,
) -> Seq<(Pos, Error)> {
    es + lift_errors(expand(defs, seq![entry], seq![], 1).out) + placed(
        optimized(lifted(expand(defs, seq![entry], seq![], 1).out)),
    ).errors
}

/// The facts assembly establishes, for some definitions, entry reference and expansion
/// diagnostics: the definitions are those the tokens collect into, the entry refers to
/// `entry_point`, the instructions are those assembled from them, and the diagnostics are
/// appended stage by stage.
pub open spec fn assembly_facts(
    tokens: Seq<(Pos, Token)>,
    entry_point: Seq<char>,
    before: Seq<(Pos, Error)>,
    after: Seq<(Pos, Error)>,
    r: Seq<(Pos, Instruction)>,
    defs: Seq<(Macro, Seq<(Pos, Token)>)>,
    entry: (Pos, Token),
    es: Seq<(Pos, Error)>,
) -> bool {
    &&& defs_tokens(defs) == collect(tokens).defs
    &&& bodies_plain(defs)
    &&& refers_to(entry, entry_point)
    &&& reports_all(es, expand(defs, seq![entry], seq![], 1).errors)
    &&& r == assembled_from(defs, entry)
    &&& after == before + collect(tokens).errors + stage_errors(defs, entry, es)
}

/// Assembles a token stream: groups it into macros, expands the entry point, lifts the result
/// into roots, optimizes them and places them into instructions.
pub fn assemble(tokens: Vec<(Pos, Token)>, errors: &mut Vec<(Pos, Error)>, entry_point: &str) -> (r: Vec<(Pos, Instruction)>)
    ensures
        all_encodable(r@),
        exists|defs: Seq<(Macro, Seq<(Pos, Token)>)>, entry: (Pos, Token), es: Seq<(Pos, Error)>|
            assembly_facts(tokens@, entry_point@, old(errors)@, final(errors)@, r@, defs, entry, es),
{
    let ghost base = errors@;
    let defs = define_macros(tokens, errors);
    let ghost after_collect = errors@;
    let entry = vec![(Pos { scope: String::from_str("[bootstrap]"), index: 0 }, Token::MacroRef(Macro(String::from_str(entry_point))))];
    let mut parents: Vec<usize> = Vec::new();
    let mut scope_id: usize = 1;
    let expanded = expand_macros(&defs, &entry, &mut parents, &mut scope_id, errors);
    let ghost d = defs_seq(defs@);
    let ghost e = expand(d, seq![entry@[0]], seq![], 1);
    let ghost es = errors@.skip(after_collect.len() as int);
    assert(entry@ =~= seq![entry@[0]]);
    proof {
        assert forall|k: int| 0 <= k < entry@.len() implies !is_macro_def((#[trigger] entry@[k]).1) by {}
        lemma_expansion_plain(d, entry@, seq![], 1);
        lemma_expansion_scopes(d, entry@, seq![], 1);
    }
    assert(errors@ =~= after_collect + es);
    let ghost after_expand = errors@;
    let roots = lift(&expanded, errors);
    assert(roots@ =~= lifted(expanded@));
    proof {
        assert forall|k: int| 0 <= k < roots@.len() implies root_ok(#[trigger] roots@[k].1) by {
            lemma_lift_encodable(expanded@[k].1);
            assert(roots@[k].1 == lift_token(expanded@[k].1));
            if local_scope(expanded@[k].1) is Some {
                assert(local_scope(entry@[0].1) is None);
            }
        }
        lemma_optimized_ok(roots@);
    }
    let optimized_roots = optimize(&roots);
    proof {
        lemma_placed_encodable(optimized_roots@);
    }
    let r = place(&optimized_roots, errors);
    assert(errors@ =~= base + collect(tokens@).errors + stage_errors(d, entry@[0], es));
    assert(assembly_facts(tokens@, entry_point@, base, errors@, r@, d, entry@[0], es));
    r
}

/// The bytes of an image.
pub open spec fn bytes_of(img: Seq<(Pos, u8)>) -> Seq<u8> {
    img.map_values(|x: (Pos, u8)| x.1)
}

/// Whether `toks` is how the source text is read: one token per lexeme.
pub open spec fn read_as(source: Seq<char>, toks: Seq<(Pos, Token)>) -> bool {
    toks.len() == lexemes(source).len() && forall|k: int| 0 <= k < toks.len() ==> lexes_to(lexemes(source)[k], #[trigger] toks[k].1)
}

/// Assembles a preprocessed source text, entered at the macro `main`, into a memory image.
/// `errors` holds the diagnostics raised before (by preprocessing). The image comes back when
/// no stage raised a diagnostic; otherwise every diagnostic, in order, comes back instead.
pub fn assemble_image(source: String, errors: Vec<(Pos, Error)>) -> (r: Result<Vec<u8>, Vec<(Pos, Error)>>)
    ensures
        exists|toks: Seq<(Pos, Token)>, defs: Seq<(Macro, Seq<(Pos, Token)>)>, entry: (Pos, Token), es: Seq<(Pos, Error)>|
            {
                &&& read_as(source@, toks)
                &&& defs_tokens(defs) == collect(toks).defs
                &&& bodies_plain(defs)
                &&& refers_to(entry, "main"@)
                &&& reports_all(es, expand(defs, seq![entry], seq![], 1).errors)
                &&& (r is Ok <==> errors@.len() == 0 && bad_lexemes(lexemes(source@)) == 0
                    && collect(toks).errors.len() == 0 && stage_errors(defs, entry, es).len() == 0
                    && assembled_from(defs, entry).len() <= 256)
                &&& (r matches Ok(img) ==> img@ == image(assembled_from(defs, entry)))
            },
        r matches Ok(img) ==> img@.len() == 256,
        r matches Err(es) ==> es@.len() > 0 && es@.take(errors@.len() as int) == errors@,
{
    let mut errors = errors;
    let ghost base = errors@;
    let tokens = tokenize(source, &mut errors);
    let ghost toks = tokens@;
    let ghost after_lex = errors@;
    let instructions = assemble(tokens, &mut errors, "main");
    let ghost instrs = instructions@;
    let ghost after_assemble = errors@;
    let ghost (w0, w1, w2) = choose|d: Seq<(Macro, Seq<(Pos, Token)>)>, e: (Pos, Token), x: Seq<(Pos, Error)>|
        assembly_facts(toks, "main"@, after_lex, after_assemble, instrs, d, e, x);
    let ghost w = (w0, w1, w2);
    assert(assembly_facts(toks, "main"@, after_lex, after_assemble, instrs, w.0, w.1, w.2));
    let bytes = codegen(instructions, &mut errors);
    if errors.len() == 0 {
        let mut img: Vec<u8> = Vec::new();
        let mut i: usize = 0;
        while i < bytes.len()
            invariant
                i <= bytes@.len(),
                img@ == bytes_of(bytes@).take(i as int),
            decreases bytes@.len() - i,
        {
            img.push(bytes[i].1);
            assert(bytes_of(bytes@).take(i + 1) =~= bytes_of(bytes@).take(i as int).push(bytes@[i as int].1));
            i = i + 1;
        }
        assert(img@ =~= image(instrs));
        let r = Ok(img);
        assert(read_as(source@, toks));
        assert(r is Ok <==> base.len() == 0 && bad_lexemes(lexemes(source@)) == 0
            && collect(toks).errors.len() == 0 && stage_errors(w.0, w.1, w.2).len() == 0
            && assembled_from(w.0, w.1).len() <= 256);
        r
    } else {
        assert(errors@.take(base.len() as int) =~= base);
        let r = Err(errors);
        assert(read_as(source@, toks));
        assert(r is Ok <==> base.len() == 0 && bad_lexemes(lexemes(source@)) == 0
            && collect(toks).errors.len() == 0 && stage_errors(w.0, w.1, w.2).len() == 0
            && assembled_from(w.0, w.1).len() <= 256);
        r
    }
}

} // verus!
