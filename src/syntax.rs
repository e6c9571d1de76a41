use vstd::prelude::*;

verus! {

/// Where a datum came from: a scope (a file, a macro, a synthetic stage) and an index in it.
#[derive(Debug)]
pub struct Pos {
    pub scope: String,
    pub index: usize,
}

/// A label: global when `scope_id` is `None`, local to one macro expansion otherwise.
#[derive(Debug)]
pub struct Label {
    pub scope_id: Option<usize>,
    pub identifier: String,
}

/// The name of a macro.
#[derive(Debug)]
pub struct Macro(pub String);

/// A lexeme of the source language, classified.
#[derive(Debug)]
pub enum Token {
    LabelDef(Label),
    LabelRef(Label),
    MacroDef(Macro),
    MacroRef(Macro),
    AtConst,
    AtDyn,
    AtOrg,
    DDD(u8),
    XXX(u8),
    LdO(u8),
    StO(u8),
    Add,
    Adc,
    AddS(u8),
    AdcS(u8),
    Sub,
    Sbc,
    SubS(u8),
    SbcS(u8),
    Shf,
    Sfc,
    ShfS(u8),
    SfcS(u8),
    Rot,
    RotS(u8),
    Iff,
    IffS(u8),
    Orr,
    OrrS(u8),
    And,
    AndS(u8),
    Xor,
    XorS(u8),
    Xnd,
    XndS(u8),
    Adn,
    Sbn,
    Inc,
    Dec,
    Neg,
    Not,
    Buf,
    Nop,
    Clc,
    Sec,
    Flc,
    Swp,
    Pop,
    Lda,
    Sta,
    Ldi,
    Sti,
    Lds,
    Sts,
}

/// A diagnostic. Every stage appends these to one list; none aborts the pipeline.
#[derive(Debug)]
pub enum Error {
    /// An included file could not be read; it carries the file's display name.
    UnreadableFile(String),
    /// A hexadecimal literal holds a character that is not a hex digit.
    InvalidHexDigits(String),
    /// A hexadecimal literal has no digits.
    EmptyHex,
    /// A hexadecimal literal exceeds a byte.
    HexOutOfRange(String),
    /// A lexeme matches no token.
    UnexpectedToken(String),
    /// A token stands before any macro definition.
    OrphanInstruction(Token),
    /// A macro reaches itself; the chain of macros being expanded, then the macro met again.
    MacroSelfReference(Vec<Macro>, Macro),
    /// A macro is referenced but never defined.
    MacroNotFound(Macro),
    /// A size operand other than 1, 2, 4 or 8.
    InvalidSize(u8),
    /// An offset operand above 15.
    InvalidOffset(u8),
    /// A label defined twice.
    LabelAlreadyDefined(Label),
    /// An origin below the location counter: the counter, then the origin.
    OriginBackward(u8, u8),
    /// An origin that depends on a label not yet defined.
    OriginUnresolved(Label),
    /// `@org` or `@const` not preceded by a constant expression.
    NotConstant,
    /// `@dyn` not preceded by an instruction.
    DynamicNotInstruction,
    /// A label referenced but never defined.
    LabelNotFound(Label),
    /// The program is larger than memory: its size in bytes.
    ProgramTooLarge(usize),
}

/// The view of a label: its scope and its name.
pub open spec fn label_key(l: Label) -> (Option<usize>, Seq<char>) {
    (l.scope_id, l.identifier@)
}

impl Pos {
    pub fn copy(&self) -> (r: Pos)
        ensures
            r == *self,
    {
        Pos { scope: self.scope.clone(), index: self.index }
    }
}

impl Label {
    pub fn copy(&self) -> (r: Label)
        ensures
            r == *self,
    {
        Label { scope_id: self.scope_id, identifier: self.identifier.clone() }
    }

    /// Whether two labels name the same thing.
    pub fn same(&self, other: &Label) -> (r: bool)
        ensures
            r == (label_key(*self) == label_key(*other)),
    {
        let same_scope = match (self.scope_id, other.scope_id) {
            (None, None) => true,
            (Some(a), Some(b)) => a == b,
            _ => false,
        };
        same_scope && self.identifier == other.identifier
    }
}

impl Macro {
    pub fn copy(&self) -> (r: Macro)
        ensures
            r == *self,
    {
        Macro(self.0.clone())
    }
}

impl Token {
    pub fn copy(&self) -> (r: Token)
        ensures
            r == *self,
    {
        match self {
            Token::LabelDef(l) => Token::LabelDef(l.copy()),
            Token::LabelRef(l) => Token::LabelRef(l.copy()),
            Token::MacroDef(m) => Token::MacroDef(m.copy()),
            Token::MacroRef(m) => Token::MacroRef(m.copy()),
            Token::AtConst => Token::AtConst,
            Token::AtDyn => Token::AtDyn,
            Token::AtOrg => Token::AtOrg,
            Token::DDD(n) => Token::DDD(*n),
            Token::XXX(n) => Token::XXX(*n),
            Token::LdO(n) => Token::LdO(*n),
            Token::StO(n) => Token::StO(*n),
            Token::Add => Token::Add,
            Token::Adc => Token::Adc,
            Token::AddS(n) => Token::AddS(*n),
            Token::AdcS(n) => Token::AdcS(*n),
            Token::Sub => Token::Sub,
            Token::Sbc => Token::Sbc,
            Token::SubS(n) => Token::SubS(*n),
            Token::SbcS(n) => Token::SbcS(*n),
            Token::Shf => Token::Shf,
            Token::Sfc => Token::Sfc,
            Token::ShfS(n) => Token::ShfS(*n),
            Token::SfcS(n) => Token::SfcS(*n),
            Token::Rot => Token::Rot,
            Token::RotS(n) => Token::RotS(*n),
            Token::Iff => Token::Iff,
            Token::IffS(n) => Token::IffS(*n),
            Token::Orr => Token::Orr,
            Token::OrrS(n) => Token::OrrS(*n),
            Token::And => Token::And,
            Token::AndS(n) => Token::AndS(*n),
            Token::Xor => Token::Xor,
            Token::XorS(n) => Token::XorS(*n),
            Token::Xnd => Token::Xnd,
            Token::XndS(n) => Token::XndS(*n),
            Token::Adn => Token::Adn,
            Token::Sbn => Token::Sbn,
            Token::Inc => Token::Inc,
            Token::Dec => Token::Dec,
            Token::Neg => Token::Neg,
            Token::Not => Token::Not,
            Token::Buf => Token::Buf,
            Token::Nop => Token::Nop,
            Token::Clc => Token::Clc,
            Token::Sec => Token::Sec,
            Token::Flc => Token::Flc,
            Token::Swp => Token::Swp,
            Token::Pop => Token::Pop,
            Token::Lda => Token::Lda,
            Token::Sta => Token::Sta,
            Token::Ldi => Token::Ldi,
            Token::Sti => Token::Sti,
            Token::Lds => Token::Lds,
            Token::Sts => Token::Sts,
        }
    }
}

} // verus!
