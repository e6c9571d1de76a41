use vstd::prelude::*;

verus! {

// The syntax tree of the C front-end of the toolchain, and the typed representation it lowers
// to before it emits assembly source for the assembler.

/// A named object of a C type.
#[derive(PartialEq, Debug)]
pub struct Object(pub Type, pub String);

/// A C type.
#[derive(PartialEq, Debug)]
pub enum Type {
    Void,
    Bool,
    Char,
    SignedChar,
    UnsignedChar,
    Short,
    UnsignedShort,
    Int,
    UnsignedInt,
    Long,
    UnsignedLong,
    LongLong,
    UnsignedLongLong,
    Array(Box<Type>),
    Structure(Vec<Object>),
    Union(Vec<Object>),
    Enumeration(Vec<String>),
    /// A macro: return type, name, parameter types, whether it is variadic.
    Macro(Box<Type>, String, Vec<Type>, bool),
    /// A function: return type, parameter types, whether it is variadic.
    Function(Box<Type>, Vec<Type>, bool),
    Pointer(Box<Type>),
}

/// A translation unit.
#[derive(PartialEq, Debug)]
pub struct Program(pub Vec<Global>);

/// A top-level declaration or definition.
#[derive(PartialEq, Debug)]
pub enum Global {
    FunctionDeclaration(bool, Object, Vec<Object>, bool),
    FunctionDefinition(bool, Object, Vec<Object>, bool, Statement),
    GlobalDeclaration(Object),
    GlobalDefinition(Object, Expression),
    GlobalAssembly(String),
}

/// A C expression.
#[derive(PartialEq, Debug)]
pub enum Expression {
    Positive(Box<Expression>),
    Negation(Box<Expression>),
    LogicalNegation(Box<Expression>),
    BitwiseComplement(Box<Expression>),
    Addition(Box<Expression>, Box<Expression>),
    Subtraction(Box<Expression>, Box<Expression>),
    Multiplication(Box<Expression>, Box<Expression>),
    Division(Box<Expression>, Box<Expression>),
    Modulo(Box<Expression>, Box<Expression>),
    LogicalAnd(Box<Expression>, Box<Expression>),
    LogicalOr(Box<Expression>, Box<Expression>),
    BitwiseAnd(Box<Expression>, Box<Expression>),
    BitwiseExclusiveOr(Box<Expression>, Box<Expression>),
    BitwiseInclusiveOr(Box<Expression>, Box<Expression>),
    LeftShift(Box<Expression>, Box<Expression>),
    RightShift(Box<Expression>, Box<Expression>),
    EqualTo(Box<Expression>, Box<Expression>),
    NotEqualTo(Box<Expression>, Box<Expression>),
    LessThan(Box<Expression>, Box<Expression>),
    LessThanOrEqualTo(Box<Expression>, Box<Expression>),
    GreaterThan(Box<Expression>, Box<Expression>),
    GreaterThanOrEqualTo(Box<Expression>, Box<Expression>),
    Conditional(Box<Expression>, Box<Expression>, Box<Expression>),
    Cast(Type, Box<Expression>),
    IntegerConstant(u8),
    CharacterConstant(char),
    StringLiteral(String),
    Identifier(String),
    FunctionCall(Box<Expression>, Vec<Expression>),
}

/// A C statement.
#[derive(PartialEq, Debug)]
pub enum Statement {
    Expression(Expression),
    Compound(Vec<Statement>),
    If(Expression, Box<Statement>, Option<Box<Statement>>),
    While(Expression, Box<Statement>),
    Return(Option<Expression>),
    Assembly(String),
}

/// A typed translation unit.
#[derive(PartialEq, Debug)]
pub struct TypedProgram(pub Vec<TypedGlobal>);

/// A typed top-level item.
#[derive(PartialEq, Debug)]
pub enum TypedGlobal {
    Data(String, Vec<TypedExpression>),
    Macro(String, TypedStatement),
    Function(String, TypedStatement),
    Assembly(String),
}

/// A typed expression; the prefix gives the width of its value in bytes (`N0`, `N1`, `N8`
/// stand for none, a flag and a byte; `U8` for an unsigned byte).
#[derive(PartialEq, Debug)]
pub enum TypedExpression {
    N1BitwiseComplement(Box<TypedExpression>),
    N8BitwiseComplement(Box<TypedExpression>),
    N8Addition(Box<TypedExpression>, Box<TypedExpression>),
    N8Subtraction(Box<TypedExpression>, Box<TypedExpression>),
    U8Multiplication(Box<TypedExpression>, Box<TypedExpression>),
    U8Division(Box<TypedExpression>, Box<TypedExpression>),
    U8Modulo(Box<TypedExpression>, Box<TypedExpression>),
    N1EqualToN8(Box<TypedExpression>, Box<TypedExpression>),
    N1LessThanU8(Box<TypedExpression>, Box<TypedExpression>),
    N0CastN1(Box<TypedExpression>),
    N0CastN8(Box<TypedExpression>),
    N1CastN8(Box<TypedExpression>),
    N0Constant,
    N1Constant(bool),
    N8Constant(u8),
    /// A local variable, by its offset from the last local.
    N8GetLocal(usize),
    N8AddrLocal(usize),
    N8GetGlobal(String),
    N8AddrGlobal(String),
    N0MacroCall(String, Vec<TypedExpression>),
    N1MacroCall(String, Vec<TypedExpression>),
    N8MacroCall(String, Vec<TypedExpression>),
    N0FunctionCall(Box<TypedExpression>, Vec<TypedExpression>),
    N1FunctionCall(Box<TypedExpression>, Vec<TypedExpression>),
    N8FunctionCall(Box<TypedExpression>, Vec<TypedExpression>),
}

/// A typed statement. The returns carry the number of parameters and of locals to pop.
#[derive(PartialEq, Debug)]
pub enum TypedStatement {
    ExpressionN0(TypedExpression),
    Compound(Vec<TypedStatement>),
    IfN1(String, TypedExpression, Box<TypedStatement>, Option<Box<TypedStatement>>),
    WhileN1(String, TypedExpression, Box<TypedStatement>),
    MacroReturnN0(usize, usize, Option<TypedExpression>),
    MacroReturnN1(usize, usize, Option<TypedExpression>),
    MacroReturnN8(usize, usize, Option<TypedExpression>),
    FunctionReturnN0(usize, usize, Option<TypedExpression>),
    FunctionReturnN1(usize, usize, Option<TypedExpression>),
    FunctionReturnN8(usize, usize, Option<TypedExpression>),
    InitLocalN0(Option<TypedExpression>),
    InitLocalN1(Option<TypedExpression>),
    InitLocalN8(Option<TypedExpression>),
    Assembly(String),
}

} // verus!
