use stackasm::isa::{codegen, encode, Instruction};
use stackasm::ir::{Node, Root};
use stackasm::lexer::{tokenize, Hex, parse_hex};
use stackasm::lift::lift;
use stackasm::macros::{define_macros, expand_macros};
use stackasm::optimize::optimize;
use stackasm::pipeline::{assemble, assemble_image};
use stackasm::place::{eval, make_push_instruction, place};
use stackasm::syntax::{Error, Label, Macro, Pos, Token};

fn image_of(source: &str) -> Result<Vec<u8>, Vec<(Pos, Error)>> {
    assemble_image(source.to_string(), vec![])
}

fn errors_of(source: &str) -> Vec<Error> {
    match image_of(source) {
        Ok(_) => vec![],
        Err(errors) => errors.into_iter().map(|(_, e)| e).collect(),
    }
}

fn pos() -> Pos {
    Pos { scope: "test".to_string(), index: 0 }
}

fn roots_of(source: &str) -> Vec<(Pos, Root)> {
    let mut errors = vec![];
    let tokens = tokenize(source.to_string(), &mut errors);
    let defs = define_macros(tokens, &mut errors);
    let entry = vec![(pos(), Token::MacroRef(Macro("main".to_string())))];
    let mut parents = vec![];
    let mut scope_id = 1;
    let expanded = expand_macros(&defs, &entry, &mut parents, &mut scope_id, &mut errors);
    lift(&expanded, &mut errors)
}

#[test]
fn minimal_program() {
    let image = image_of("main! x42").unwrap();
    assert_eq!(image.len(), 256);
    assert_eq!(image[0], 0x42);
    assert!(image[1..].iter().all(|b| *b == 0));
}

#[test]
fn push_with_high_nibble() {
    let image = image_of("main! xf3").unwrap();
    assert_eq!(image[0], 0xF3);
    assert_eq!(image[1], 0x00);
}

#[test]
fn push_with_negation() {
    let image = image_of("main! x90").unwrap();
    assert_eq!(&image[0..3], &[0x70, 0xB4, 0x00]);
}

#[test]
fn forward_label_reserves_two_slots() {
    // The reference cannot be evaluated when it is met, so two slots are reserved; `end`
    // lands after them and the zero push, at 3, which fits one `Psh`, leaving a `nop`.
    let image = image_of("main! :end x00 end:").unwrap();
    assert_eq!(&image[0..4], &[0x03, 0xE0, 0x00, 0x00]);
    assert_eq!(image.len(), 256);
}

#[test]
fn hygienic_local_labels() {
    let source = "loop! .a. x00 :a .a swp pop  main! !loop !loop";
    let errors = errors_of(source);
    assert!(!errors.iter().any(|e| matches!(e, Error::LabelAlreadyDefined(_))));
    let roots = roots_of(source);
    let scopes: Vec<Option<usize>> = roots
        .iter()
        .filter_map(|(_, r)| match r {
            Root::LabelDef(l) => Some(l.scope_id),
            _ => None,
        })
        .collect();
    assert_eq!(scopes.len(), 2);
    assert!(scopes[0].is_some() && scopes[1].is_some());
    assert_ne!(scopes[0], scopes[1]);
}

#[test]
fn self_reference_is_reported() {
    let result = image_of("rec! !rec  main! !rec");
    let errors = result.unwrap_err();
    let found = errors.iter().any(|(_, e)| match e {
        Error::MacroSelfReference(chain, m) => {
            let names: Vec<&str> = chain.iter().map(|m| m.0.as_str()).collect();
            names == vec!["main", "rec"] && m.0 == "rec"
        }
        _ => false,
    });
    assert!(found);
}

#[test]
fn peephole_fold() {
    let roots = roots_of("main! x03 x04 add");
    let optimized = optimize(&roots);
    assert_eq!(optimized.len(), 1);
    match &optimized[0].1 {
        Root::Node(n @ Node::Add(a, b)) => {
            assert!(matches!(**a, Node::Immediate(4)));
            assert!(matches!(**b, Node::Immediate(3)));
            assert_eq!(eval(n, &vec![]).unwrap(), 7);
        }
        other => panic!("unexpected root {:?}", other),
    }
    let image = image_of("main! x03 x04 add").unwrap();
    assert_eq!(image[0], 0x07);
    assert_eq!(image[1], 0x00);
}

#[test]
fn output_is_all_of_memory_or_nothing() {
    assert_eq!(image_of("main! x01 x02 inc").unwrap().len(), 256);
    assert_eq!(image_of("main!").unwrap().len(), 256);
    assert!(image_of("main! bogus").is_err());
    let big = format!("main! {}", "d01 ".repeat(300));
    let errors = image_of(&big).unwrap_err();
    assert!(errors.iter().any(|(_, e)| matches!(e, Error::ProgramTooLarge(300))));
}

#[test]
fn nop_between_operands_still_folds() {
    assert_eq!(image_of("main! x03 nop x04 add").unwrap(), image_of("main! x03 x04 add").unwrap());
    assert_eq!(image_of("main! x03 x04 nop add").unwrap()[0], 0x07);
}

fn run_push(seq: &[Instruction]) -> Option<u8> {
    let mut stack: Vec<u8> = vec![];
    for i in seq {
        match i {
            Instruction::Psh(v) => stack.push(*v),
            Instruction::Phn(n) => stack.push(0xF0 | *n),
            Instruction::Inc => {
                let top = stack.pop()?;
                stack.push(top.wrapping_add(1));
            }
            Instruction::Neg => {
                let top = stack.pop()?;
                stack.push(top.wrapping_neg());
            }
            _ => return None,
        }
    }
    stack.pop()
}

#[test]
fn push_sequences_decode_to_their_value() {
    for v in 0..=255u8 {
        let seq: Vec<Instruction> = make_push_instruction(v, &pos()).into_iter().map(|(_, i)| i).collect();
        assert!(seq.len() <= 2);
        assert_eq!(run_push(&seq), Some(v));
    }
    let seq: Vec<Instruction> = make_push_instruction(0x80, &pos()).into_iter().map(|(_, i)| i).collect();
    assert_eq!(seq, vec![Instruction::Psh(0x7F), Instruction::Inc]);
}

#[test]
fn location_counter_follows_emitted_bytes() {
    let image = image_of("main! x01 x05 @org d07").unwrap();
    assert_eq!(&image[0..7], &[0x01, 0x00, 0x00, 0x00, 0x00, 0x07, 0x00]);
    let image = image_of("main! d01 d02 here: :here").unwrap();
    assert_eq!(&image[0..3], &[0x01, 0x02, 0x02]);
}

#[test]
fn encodings() {
    assert_eq!(encode(Instruction::Psh(0x12)), 0x12);
    assert_eq!(encode(Instruction::Phn(0x3)), 0xF3);
    assert_eq!(encode(Instruction::Ldo(0x2)), 0xC2);
    assert_eq!(encode(Instruction::Sto(0xF)), 0xDF);
    assert_eq!(encode(Instruction::Add(8)), 0x83);
    assert_eq!(encode(Instruction::Xnd(2)), 0xAD);
    assert_eq!(encode(Instruction::Not), 0xB6);
    assert_eq!(encode(Instruction::Pop), 0xE5);
    assert_eq!(encode(Instruction::Sts), 0xED);
    assert_eq!(encode(Instruction::Raw(0x99)), 0x99);
}

#[test]
fn codegen_pads_to_memory() {
    let mut errors = vec![];
    let bytes = codegen(vec![(pos(), Instruction::Swp), (pos(), Instruction::Raw(7))], &mut errors);
    assert!(errors.is_empty());
    assert_eq!(bytes.len(), 256);
    assert_eq!(bytes[0].1, 0xE4);
    assert_eq!(bytes[1].1, 7);
    assert_eq!(bytes[2].1, 0);
}

#[test]
fn sized_and_offset_mnemonics() {
    let image = image_of("main! add2 sub4 and8 ld3 st1 shc rot orr2").unwrap();
    assert_eq!(&image[0..8], &[0x81, 0x8A, 0xA7, 0xC3, 0xD1, 0x94, 0x98, 0xA1]);
}

#[test]
fn expressions_evaluate_in_stack_order() {
    // 5 then 2 on top: sub is 5 - 2.
    assert_eq!(image_of("main! x05 x02 sub").unwrap()[0], 0x03);
    // 1 then 3 on top: shift 1 left by 3.
    assert_eq!(image_of("main! x01 x03 shf").unwrap()[0], 0x08);
    assert_eq!(image_of("main! x0f xf0 orr").unwrap()[0], 0xFF);
    assert_eq!(image_of("main! x0f xf0 xnd").unwrap()[0], 0x00);
    assert_eq!(image_of("main! x01 not").unwrap()[0], 0xFE);
    // two equal pushes: the second loads the first.
    assert_eq!(&image_of("main! x07 x07").unwrap()[0..2], &[0x07, 0xC0]);
}

#[test]
fn hex_literals() {
    let chars: Vec<char> = "x+1f|zz|".chars().collect();
    assert_eq!(parse_hex(&chars, 1, 4), Hex::Value(0x1F));
    assert_eq!(parse_hex(&chars, 5, 7), Hex::InvalidDigit);
    assert_eq!(parse_hex(&chars, 0, 0), Hex::Empty);
    let wide: Vec<char> = "1ff".chars().collect();
    assert_eq!(parse_hex(&wide, 0, 3), Hex::OutOfRange);
    let padded: Vec<char> = "0ff".chars().collect();
    assert_eq!(parse_hex(&padded, 0, 3), Hex::Value(0xFF));
}

#[test]
fn tokens_are_classified() {
    let mut errors = vec![];
    let tokens = tokenize("a: :a b. .b m! !m @const @dyn @org d1f x20 ld3 st4 add add2 shc nop".to_string(), &mut errors);
    assert!(errors.is_empty());
    let kinds: Vec<String> = tokens.iter().map(|(_, t)| format!("{:?}", t)).collect();
    assert!(kinds[0].starts_with("LabelDef") && kinds[0].contains("None"));
    assert!(kinds[1].starts_with("LabelRef") && kinds[1].contains("None"));
    assert!(kinds[2].starts_with("LabelDef") && kinds[2].contains("Some(0)"));
    assert!(kinds[3].starts_with("LabelRef") && kinds[3].contains("Some(0)"));
    assert!(matches!(&tokens[4].1, Token::MacroDef(m) if m.0 == "m"));
    assert!(matches!(&tokens[5].1, Token::MacroRef(m) if m.0 == "m"));
    assert!(matches!(tokens[6].1, Token::AtConst));
    assert!(matches!(tokens[7].1, Token::AtDyn));
    assert!(matches!(tokens[8].1, Token::AtOrg));
    assert!(matches!(tokens[9].1, Token::DDD(0x1F)));
    assert!(matches!(tokens[10].1, Token::XXX(0x20)));
    assert!(matches!(tokens[11].1, Token::LdO(3)));
    assert!(matches!(tokens[12].1, Token::StO(4)));
    assert!(matches!(tokens[13].1, Token::Add));
    assert!(matches!(tokens[14].1, Token::AddS(2)));
    assert!(matches!(tokens[15].1, Token::Sfc));
    assert!(matches!(tokens[16].1, Token::Nop));
    assert_eq!(tokens[16].0.index, 16);
}

#[test]
fn each_diagnostic_has_its_input() {
    assert!(matches!(errors_of("main! xzz")[..], [Error::InvalidHexDigits(ref s)] if s == "zz"));
    assert!(matches!(errors_of("main! x")[..], [Error::EmptyHex]));
    assert!(matches!(errors_of("main! x1ff")[..], [Error::HexOutOfRange(ref s)] if s == "1ff"));
    assert!(matches!(errors_of("main! foo")[..], [Error::UnexpectedToken(ref s)] if s == "foo"));
    assert!(matches!(errors_of("x01 main!")[..], [Error::OrphanInstruction(Token::XXX(1))]));
    assert!(matches!(errors_of("main! !nothing")[..], [Error::MacroNotFound(ref m)] if m.0 == "nothing"));
    assert!(matches!(errors_of("other! x01")[..], [Error::MacroNotFound(ref m)] if m.0 == "main"));
    assert!(matches!(errors_of("main! add3")[..], [Error::InvalidSize(3)]));
    assert!(matches!(errors_of("main! ld10")[..], [Error::InvalidOffset(16)]));
    assert!(matches!(errors_of("main! a: a:")[..], [Error::LabelAlreadyDefined(_)]));
    assert!(matches!(errors_of("main! x01 x02 x00 @org")[..], [Error::OriginBackward(2, 0)]));
    assert!(matches!(errors_of("main! :later @org later:")[..], [Error::OriginUnresolved(_)]));
    assert!(matches!(errors_of("main! @const")[..], [Error::NotConstant]));
    assert!(matches!(errors_of("main! @dyn")[..], [Error::DynamicNotInstruction]));
    assert!(matches!(errors_of("main! :nowhere")[..], [Error::LabelNotFound(ref l)] if l.identifier == "nowhere"));
}

#[test]
fn dynamic_marker_keeps_instruction() {
    // `x01 inc` would fold; `@dyn` keeps the `inc` as an instruction.
    assert_eq!(&image_of("main! x01 inc @dyn").unwrap()[0..2], &[0x01, 0xB2]);
    assert_eq!(image_of("main! x01 inc").unwrap()[0], 0x02);
}

#[test]
fn macros_expand_in_place() {
    let image = image_of("two! d02 d03  main! d01 !two !two").unwrap();
    assert_eq!(&image[0..5], &[0x01, 0x02, 0x03, 0x02, 0x03]);
}

#[test]
fn assemble_and_place_directly() {
    let mut errors = vec![];
    let tokens = tokenize("main! x02 x03 add d09".to_string(), &mut errors);
    let instructions = assemble(tokens, &mut errors, "main");
    assert!(errors.is_empty());
    let ops: Vec<Instruction> = instructions.into_iter().map(|(_, i)| i).collect();
    assert_eq!(ops, vec![Instruction::Psh(5), Instruction::Raw(9)]);
    let roots = vec![
        (pos(), Root::Node(Node::LabelRef(Label { scope_id: None, identifier: "x".to_string() }))),
        (pos(), Root::LabelDef(Label { scope_id: None, identifier: "x".to_string() })),
    ];
    let placed = place(&roots, &mut errors);
    let ops: Vec<Instruction> = placed.into_iter().map(|(_, i)| i).collect();
    assert_eq!(ops, vec![Instruction::Psh(2), Instruction::Nop]);
}

#[test]
fn nop_before_dyn_is_captured() {
    // The one place a `nop` matters: right before `@dyn`, which captures it.
    assert_eq!(&image_of("main! inc @dyn").unwrap()[0..2], &[0xB2, 0x00]);
    assert_eq!(&image_of("main! inc nop @dyn").unwrap()[0..2], &[0xB2, 0xE0]);
}
