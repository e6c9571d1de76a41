use vstd::prelude::*;
use crate::isa::{Instruction, valid_size};
use crate::ir::{Node, Root, root_encodable};
use crate::syntax::{Pos, Token, Error};

verus! {

/// An offset operand, or 0 when it does not fit four bits.
pub open spec fn fix_offset(o: u8) -> u8 {
    if o < 16 {
        o
    } else {
        0
    }
}

/// A size operand, or 1 when it is not 1, 2, 4 or 8.
pub open spec fn fix_size(s: u8) -> u8 {
    if valid_size(s) {
        s
    } else {
        1
    }
}

/// Whether a token is a macro definition or reference.
pub open spec fn is_macro_token(t: Token) -> bool {
    t is MacroDef || t is MacroRef
}

/// The root a token becomes; an operand out of range is replaced by a safe default.
pub open spec fn lift_token(t: Token) -> Root {
    match t {
        Token::LabelDef(l) => Root::LabelDef(l),
        Token::LabelRef(l) => Root::Node(Node::LabelRef(l)),
        Token::MacroDef(_) => Root::Instruction(Instruction::Nop),
        Token::MacroRef(_) => Root::Instruction(Instruction::Nop),
        Token::AtConst => Root::Const,
        Token::AtDyn => Root::Dyn(None),
        Token::AtOrg => Root::Org(None),
        Token::DDD(v) => Root::Instruction(Instruction::Raw(v)),
        Token::XXX(v) => Root::Node(Node::Immediate(v)),
        Token::LdO(o) => Root::Instruction(Instruction::Ldo(fix_offset(o))),
        Token::StO(o) => Root::Instruction(Instruction::Sto(fix_offset(o))),
        Token::Add => Root::Instruction(Instruction::Add(1)),
        Token::AddS(n) => Root::Instruction(Instruction::Add(fix_size(n))),
        Token::Adc => Root::Instruction(Instruction::Adc(1)),
        Token::AdcS(n) => Root::Instruction(Instruction::Adc(fix_size(n))),
        Token::Sub => Root::Instruction(Instruction::Sub(1)),
        Token::SubS(n) => Root::Instruction(Instruction::Sub(fix_size(n))),
        Token::Sbc => Root::Instruction(Instruction::Sbc(1)),
        Token::SbcS(n) => Root::Instruction(Instruction::Sbc(fix_size(n))),
        Token::Shf => Root::Instruction(Instruction::Shf(1)),
        Token::ShfS(n) => Root::Instruction(Instruction::Shf(fix_size(n))),
        Token::Sfc => Root::Instruction(Instruction::Sfc(1)),
        Token::SfcS(n) => Root::Instruction(Instruction::Sfc(fix_size(n))),
        Token::Rot => Root::Instruction(Instruction::Rot(1)),
        Token::RotS(n) => Root::Instruction(Instruction::Rot(fix_size(n))),
        Token::Iff => Root::Instruction(Instruction::Iff(1)),
        Token::IffS(n) => Root::Instruction(Instruction::Iff(fix_size(n))),
        Token::Orr => Root::Instruction(Instruction::Orr(1)),
        Token::OrrS(n) => Root::Instruction(Instruction::Orr(fix_size(n))),
        Token::And => Root::Instruction(Instruction::And(1)),
        Token::AndS(n) => Root::Instruction(Instruction::And(fix_size(n))),
        Token::Xor => Root::Instruction(Instruction::Xor(1)),
        Token::XorS(n) => Root::Instruction(Instruction::Xor(fix_size(n))),
        Token::Xnd => Root::Instruction(Instruction::Xnd(1)),
        Token::XndS(n) => Root::Instruction(Instruction::Xnd(fix_size(n))),
        Token::Adn => Root::Instruction(Instruction::Adn),
        Token::Sbn => Root::Instruction(Instruction::Sbn),
        Token::Inc => Root::Instruction(Instruction::Inc),
        Token::Dec => Root::Instruction(Instruction::Dec),
        Token::Neg => Root::Instruction(Instruction::Neg),
        Token::Not => Root::Instruction(Instruction::Not),
        Token::Buf => Root::Instruction(Instruction::Buf),
        Token::Nop => Root::Instruction(Instruction::Nop),
        Token::Clc => Root::Instruction(Instruction::Clc),
        Token::Sec => Root::Instruction(Instruction::Sec),
        Token::Flc => Root::Instruction(Instruction::Flc),
        Token::Swp => Root::Instruction(Instruction::Swp),
        Token::Pop => Root::Instruction(Instruction::Pop),
        Token::Lda => Root::Instruction(Instruction::Lda),
        Token::Sta => Root::Instruction(Instruction::Sta),
        Token::Ldi => Root::Instruction(Instruction::Ldi),
        Token::Sti => Root::Instruction(Instruction::Sti),
        Token::Lds => Root::Instruction(Instruction::Lds),
        Token::Sts => Root::Instruction(Instruction::Sts),
    }
}

/// The diagnostic a token raises when it becomes a root, if any.
pub open spec fn lift_error(t: Token) -> Option<Error> {
    match t {
        Token::LdO(o) => if o < 16 {
            None
        } else {
            Some(Error::InvalidOffset(o))
        },
        Token::StO(o) => if o < 16 {
            None
        } else {
            Some(Error::InvalidOffset(o))
        },
        Token::AddS(n) | Token::AdcS(n) | Token::SubS(n) | Token::SbcS(n) | Token::ShfS(n) | Token::SfcS(n) | Token::RotS(n) | Token::IffS(n) | Token::OrrS(n) | Token::AndS(n) | Token::XorS(n) | Token::XndS(n) => if valid_size(n) {
            None
        } else {
            Some(Error::InvalidSize(n))
        },
        _ => None,
    }
}

/// The diagnostics raised while turning a token sequence into roots, in order.
pub open spec fn lift_errors(tokens: Seq<(Pos, Token)>) -> Seq<(Pos, Error)>
    decreases tokens.len(),
{
    if tokens.len() == 0 {
        seq![]
    } else {
        let pre = lift_errors(tokens.drop_last());
        match lift_error(tokens.last().1) {
            Some(e) => pre.push((tokens.last().0, e)),
            None => pre,
        }
    }
}

pub proof fn lemma_lift_encodable(t: Token)
    ensures
        root_encodable(lift_token(t)),
{
}

fn check_offset(o: u8, pos: &Pos, errors: &mut Vec<(Pos, Error)>) -> (r: u8)
    ensures
        r == fix_offset(o),
        o < 16 ==> final(errors)@ == old(errors)@,
        o >= 16 ==> final(errors)@ == old(errors)@.push((*pos, Error::InvalidOffset(o))),
{
    if o < 16 {
        o
    } else {
        errors.push((pos.copy(), Error::InvalidOffset(o)));
        0
    }
}

fn check_size(s: u8, pos: &Pos, errors: &mut Vec<(Pos, Error)>) -> (r: u8)
    ensures
        r == fix_size(s),
        valid_size(s) ==> final(errors)@ == old(errors)@,
        !valid_size(s) ==> final(errors)@ == old(errors)@.push((*pos, Error::InvalidSize(s))),
{
    if s == 1 || s == 2 || s == 4 || s == 8 {
        s
    } else {
        errors.push((pos.copy(), Error::InvalidSize(s)));
        1
    }
}

fn lift_one(t: &Token, pos: &Pos, errors: &mut Vec<(Pos, Error)>) -> (r: Root)
    requires
        !is_macro_token(*t),
    ensures
        r == lift_token(*t),
        final(errors)@ == match lift_error(*t) {
            Some(e) => old(errors)@.push((*pos, e)),
            None => old(errors)@,
        },
{
    match t {
        Token::LabelDef(l) => Root::LabelDef(l.copy()),
        Token::LabelRef(l) => Root::Node(Node::LabelRef(l.copy())),
        Token::MacroDef(_) => Root::Instruction(Instruction::Nop),
        Token::MacroRef(_) => Root::Instruction(Instruction::Nop),
        Token::AtConst => Root::Const,
        Token::AtDyn => Root::Dyn(None),
        Token::AtOrg => Root::Org(None),
        Token::DDD(v) => Root::Instruction(Instruction::Raw(*v)),
        Token::XXX(v) => Root::Node(Node::Immediate(*v)),
        Token::LdO(o) => Root::Instruction(Instruction::Ldo(check_offset(*o, pos, errors))),
        Token::StO(o) => Root::Instruction(Instruction::Sto(check_offset(*o, pos, errors))),
        Token::Add => Root::Instruction(Instruction::Add(1)),
        Token::AddS(n) => Root::Instruction(Instruction::Add(check_size(*n, pos, errors))),
        Token::Adc => Root::Instruction(Instruction::Adc(1)),
        Token::AdcS(n) => Root::Instruction(Instruction::Adc(check_size(*n, pos, errors))),
        Token::Sub => Root::Instruction(Instruction::Sub(1)),
        Token::SubS(n) => Root::Instruction(Instruction::Sub(check_size(*n, pos, errors))),
        Token::Sbc => Root::Instruction(Instruction::Sbc(1)),
        Token::SbcS(n) => Root::Instruction(Instruction::Sbc(check_size(*n, pos, errors))),
        Token::Shf => Root::Instruction(Instruction::Shf(1)),
        Token::ShfS(n) => Root::Instruction(Instruction::Shf(check_size(*n, pos, errors))),
        Token::Sfc => Root::Instruction(Instruction::Sfc(1)),
        Token::SfcS(n) => Root::Instruction(Instruction::Sfc(check_size(*n, pos, errors))),
        Token::Rot => Root::Instruction(Instruction::Rot(1)),
        Token::RotS(n) => Root::Instruction(Instruction::Rot(check_size(*n, pos, errors))),
        Token::Iff => Root::Instruction(Instruction::Iff(1)),
        Token::IffS(n) => Root::Instruction(Instruction::Iff(check_size(*n, pos, errors))),
        Token::Orr => Root::Instruction(Instruction::Orr(1)),
        Token::OrrS(n) => Root::Instruction(Instruction::Orr(check_size(*n, pos, errors))),
        Token::And => Root::Instruction(Instruction::And(1)),
        Token::AndS(n) => Root::Instruction(Instruction::And(check_size(*n, pos, errors))),
        Token::Xor => Root::Instruction(Instruction::Xor(1)),
        Token::XorS(n) => Root::Instruction(Instruction::Xor(check_size(*n, pos, errors))),
        Token::Xnd => Root::Instruction(Instruction::Xnd(1)),
        Token::XndS(n) => Root::Instruction(Instruction::Xnd(check_size(*n, pos, errors))),
        Token::Adn => Root::Instruction(Instruction::Adn),
        Token::Sbn => Root::Instruction(Instruction::Sbn),
        Token::Inc => Root::Instruction(Instruction::Inc),
        Token::Dec => Root::Instruction(Instruction::Dec),
        Token::Neg => Root::Instruction(Instruction::Neg),
        Token::Not => Root::Instruction(Instruction::Not),
        Token::Buf => Root::Instruction(Instruction::Buf),
        Token::Nop => Root::Instruction(Instruction::Nop),
        Token::Clc => Root::Instruction(Instruction::Clc),
        Token::Sec => Root::Instruction(Instruction::Sec),
        Token::Flc => Root::Instruction(Instruction::Flc),
        Token::Swp => Root::Instruction(Instruction::Swp),
        Token::Pop => Root::Instruction(Instruction::Pop),
        Token::Lda => Root::Instruction(Instruction::Lda),
        Token::Sta => Root::Instruction(Instruction::Sta),
        Token::Ldi => Root::Instruction(Instruction::Ldi),
        Token::Sti => Root::Instruction(Instruction::Sti),
        Token::Lds => Root::Instruction(Instruction::Lds),
        Token::Sts => Root::Instruction(Instruction::Sts),
    }
}

/// Turns an expanded token stream into roots, one for one, checking operand ranges.
pub fn lift(tokens: &Vec<(Pos, Token)>, errors: &mut Vec<(Pos, Error)>) -> (r: Vec<(Pos, Root)>)
    requires
        forall|k: int| 0 <= k < tokens@.len() ==> !is_macro_token(#[trigger] tokens@[k].1),
    ensures
        r@.len() == tokens@.len(),
        forall|k: int| 0 <= k < r@.len() ==> #[trigger] r@[k] == (tokens@[k].0, lift_token(tokens@[k].1)),
        final(errors)@ == old(errors)@ + lift_errors(tokens@),
{
    let ghost base = errors@;
    let mut r: Vec<(Pos, Root)> = Vec::new();
    let mut i: usize = 0;
    while i < tokens.len()
        invariant
            i <= tokens@.len(),
            forall|k: int| 0 <= k < tokens@.len() ==> !is_macro_token(#[trigger] tokens@[k].1),
            r@.len() == i,
            forall|k: int| 0 <= k < i ==> #[trigger] r@[k] == (tokens@[k].0, lift_token(tokens@[k].1)),
            errors@ == base + lift_errors(tokens@.take(i as int)),
        decreases tokens@.len() - i,
    {
        assert(tokens@.take(i + 1).drop_last() =~= tokens@.take(i as int));
        let root = lift_one(&tokens[i].1, &tokens[i].0, errors);
        r.push((tokens[i].0.copy(), root));
        i = i + 1;
    }
    assert(tokens@.take(i as int) =~= tokens@);
    r
}

} // verus!
