use stackasm::dasm::{disassemble, mnemonic_of};
use stackasm::pipeline::assemble_image;
use stackasm::preprocess::{splice, split_source, File};
use stackasm::syntax::Error;

#[test]
fn lines_lose_comments_and_split_at_includes() {
    let lines = split_source("x01 # note\nfoo @ lib/inc.asm\r\nbar\n");
    assert_eq!(lines.len(), 3);
    assert_eq!(lines[0], ("x01 ".to_string(), None));
    assert_eq!(lines[1], ("foo ".to_string(), Some("lib/inc.asm".to_string())));
    assert_eq!(lines[2], ("bar".to_string(), None));
    assert!(split_source("").is_empty());
    assert_eq!(split_source("a\n\n").len(), 2);
}

#[test]
fn splice_joins_lines_with_included_text() {
    let lines = split_source("x01\nfoo @ inc.asm\nbar");
    let included = vec![String::new(), "d07\nd08".to_string(), String::new()];
    assert_eq!(splice(&lines, &included), "x01\nfoo d07\nd08\nbar");
}

#[test]
fn file_names_are_cleaned() {
    let file = File { path: "src/./lib/../main.asm".to_string() };
    assert_eq!(file.name(), "@src/main.asm");
    let empty = File { path: String::new() };
    assert_eq!(empty.name(), "@.");
}

#[test]
fn disassembly_lists_each_byte() {
    let mut memory = [0u8; 256];
    memory[0] = 0x42;
    memory[1] = 0x84;
    memory[2] = 0xC3;
    let text = disassemble(memory, "main");
    assert!(text.starts_with(
        "main!\nx42 @dyn # x00 @org d42\nsub @dyn # x01 @org d84\nld3 @dyn # x02 @org dC3\nx00 @dyn # x03 @org d00\n"
    ));
    assert!(text.ends_with("\nx00 @dyn # xFF @org d00"));
}

#[test]
fn mnemonics_of_bytes() {
    assert_eq!(mnemonic_of(0x81), "ad2 @dyn");
    assert_eq!(mnemonic_of(0x93), "if8 @dyn");
    assert_eq!(mnemonic_of(0xB0), "inc @dyn");
    assert_eq!(mnemonic_of(0xB7), "buf @dyn");
    assert_eq!(mnemonic_of(0xBB), "dBB     ");
    assert_eq!(mnemonic_of(0x88), "d88     ");
    assert_eq!(mnemonic_of(0xE8), "nop @dyn");
    assert_eq!(mnemonic_of(0xEF), "dEF     ");
    assert_eq!(mnemonic_of(0xF5), "xF5 @dyn");
    assert_eq!(disassemble([0u8; 256], "main").lines().count(), 257);
}

#[test]
fn disassembled_pushes_are_expressions_not_instructions() {
    let image = assemble_image("main! x42".to_string(), vec![]).unwrap();
    let mut memory = [0u8; 256];
    memory.copy_from_slice(&image);
    let listing = disassemble(memory, "main");
    assert!(listing.starts_with("main!\nx42 @dyn # x00 @org d42\n"));
    let lines = split_source(&listing);
    let included = vec![String::new(); lines.len()];
    let source = splice(&lines, &included);
    assert!(source.starts_with("main!\nx42 @dyn \nx00 @dyn \n"));
    let errors = assemble_image(source, vec![]).unwrap_err();
    assert!(errors.iter().all(|(_, e)| matches!(e, Error::DynamicNotInstruction)));
    assert_eq!(errors.len(), 256);
}
