//! Source positions, errors, tokens and the abstract syntax tree.
use vstd::prelude::*;

verus! {

/// A position in a source file: line, column and length of the span.
#[derive(Debug, Clone, Copy, PartialEq, Eq, Structural)]
pub struct Span {
    pub line: usize,
    pub column: usize,
    pub length: usize,
}

/// An error produced by the lexer, the parser or the semantic analysis.
#[derive(Debug, Clone, PartialEq)]
pub struct CompilerError {
    pub file: String,
    pub message: String,
    pub span: Span,
}

/// What a `CompilerError` says, with its strings taken as character sequences.
pub struct ErrorView {
    pub file: Seq<char>,
    pub message: Seq<char>,
    pub span: Span,
}

impl View for CompilerError {
    type V = ErrorView;

    open spec fn view(&self) -> ErrorView {
        ErrorView { file: self.file@, message: self.message@, span: self.span }
    }
}

/// The base types of the language.
#[derive(Debug, Clone, Copy, PartialEq, Eq, Structural)]
pub enum Type {
    Int,
    Float,
    Text,
    Void,
}

impl View for Type {
    type V = Type;

    open spec fn view(&self) -> Type {
        *self
    }
}

/// A literal value. A decimal value is held by the bit pattern of its
/// 64-bit IEEE-754 representation.
#[derive(Debug, Clone, PartialEq)]
pub enum Value {
    Int(i64),
    Float(u64),
    String(String),
}

/// The arithmetic operators.
#[derive(Debug, Clone, Copy, PartialEq, Eq, Structural)]
pub enum TokenOperation {
    Add,
    Subtract,
    Multiply,
    Divide,
}

/// An expression with its position.
#[derive(Debug, PartialEq)]
pub struct Expression {
    pub kind: ExpressionKind,
    pub span: Span,
}

/// The shapes of expressions.
#[derive(Debug, PartialEq)]
pub enum ExpressionKind {
    Value(Value),
    Variable(String),
    FunctionCall(FunctionCall),
    Operation(Operation),
}

/// A binary operation `left operator right`.
#[derive(Debug, PartialEq)]
pub struct Operation {
    pub left: Box<Expression>,
    pub operator: TokenOperation,
    pub right: Box<Expression>,
    pub span: Span,
}

/// A call `name(arguments)`.
#[derive(Debug, PartialEq)]
pub struct FunctionCall {
    pub name: String,
    pub arguments: Vec<Expression>,
    pub span: Span,
}

/// A variable declaration, with an optional initial value.
#[derive(Debug, PartialEq)]
pub struct Variable {
    pub name: String,
    pub var_type: Type,
    pub value: Option<Expression>,
    pub span: Span,
}

/// A function parameter.
#[derive(Debug, Clone, PartialEq)]
pub struct Argument {
    pub name: String,
    pub arg_type: Type,
    pub span: Span,
}

/// A `retourner` statement.
#[derive(Debug, PartialEq)]
pub struct ReturnStatement {
    pub value: Option<Expression>,
    pub span: Span,
}

/// The statements of a function body.
#[derive(Debug, PartialEq)]
pub enum Statement {
    VariableDeclaration(Variable),
    Return(ReturnStatement),
    Expression(Expression),
}

/// A function definition.
#[derive(Debug, PartialEq)]
pub struct Function {
    pub name: String,
    pub parameters: Vec<Argument>,
    pub return_type: Type,
    pub body: Vec<Statement>,
    pub span: Span,
}

/// A top-level item of a source file.
#[derive(Debug, PartialEq)]
pub enum FileItem {
    Function(Function),
    Variable(Variable),
}

/// A parsed source file.
#[derive(Debug, PartialEq)]
pub struct SourceFile {
    pub path: String,
    pub content: String,
    pub items: Vec<FileItem>,
}

/// A whole program: its source files.
#[derive(Debug, PartialEq)]
pub struct Program {
    pub files: Vec<SourceFile>,
}

// ---------------------------------------------------------------------------
// The syntax tree as mathematical values: texts as character sequences,
// vectors as sequences.
/// A literal value.
pub enum ValueView {
    Int(i64),
    Float(u64),
    String(Seq<char>),
}

/// An expression.
pub struct ExprView {
    pub kind: ExprKindView,
    pub span: Span,
}

/// The shapes of expressions.
pub enum ExprKindView {
    Value(ValueView),
    Variable(Seq<char>),
    FunctionCall(CallView),
    Operation(OperationView),
}

/// A call.
pub struct CallView {
    pub name: Seq<char>,
    pub arguments: Seq<ExprView>,
    pub span: Span,
}

/// A binary operation.
pub struct OperationView {
    pub left: Box<ExprView>,
    pub operator: TokenOperation,
    pub right: Box<ExprView>,
    pub span: Span,
}

/// A variable declaration.
pub struct VariableView {
    pub name: Seq<char>,
    pub var_type: Type,
    pub value: Option<ExprView>,
    pub span: Span,
}

/// A function parameter.
pub struct ArgumentView {
    pub name: Seq<char>,
    pub arg_type: Type,
    pub span: Span,
}

/// A return statement.
pub struct ReturnView {
    pub value: Option<ExprView>,
    pub span: Span,
}

/// A statement.
pub enum StatementView {
    VariableDeclaration(VariableView),
    Return(ReturnView),
    Expression(ExprView),
}

/// A function definition.
pub struct FunctionView {
    pub name: Seq<char>,
    pub parameters: Seq<ArgumentView>,
    pub return_type: Type,
    pub body: Seq<StatementView>,
    pub span: Span,
}

/// A top-level item.
pub enum FileItemView {
    Function(FunctionView),
    Variable(VariableView),
}

/// A parsed source file.
pub struct SourceFileView {
    pub path: Seq<char>,
    pub content: Seq<char>,
    pub items: Seq<FileItemView>,
}

/// A program.
pub struct ProgramView {
    pub files: Seq<SourceFileView>,
}

impl View for Value {
    type V = ValueView;

    open spec fn view(&self) -> ValueView {
        match self {
            Value::Int(v) => ValueView::Int(*v),
            Value::Float(v) => ValueView::Float(*v),
            Value::String(s) => ValueView::String(s@),
        }
    }
}

/// The mathematical value of an expression.
pub open spec fn expr_view(e: Expression) -> ExprView
    decreases e,
{
    ExprView {
        kind: match e.kind {
            ExpressionKind::Value(v) => ExprKindView::Value(v@),
            ExpressionKind::Variable(n) => ExprKindView::Variable(n@),
            ExpressionKind::FunctionCall(c) => ExprKindView::FunctionCall(
                CallView { name: c.name@, arguments: exprs_view(c.arguments@), span: c.span },
            ),
            ExpressionKind::Operation(o) => ExprKindView::Operation(
                OperationView {
                    left: Box::new(expr_view(*o.left)),
                    operator: o.operator,
                    right: Box::new(expr_view(*o.right)),
                    span: o.span,
                },
            ),
        },
        span: e.span,
    }
}

/// The mathematical values of a sequence of expressions.
pub open spec fn exprs_view(s: Seq<Expression>) -> Seq<ExprView>
    decreases s,
{
    if s.len() == 0 {
        seq![]
    } else {
        exprs_view(s.drop_last()).push(expr_view(s.last()))
    }
}

/// The values of a sequence of expressions are those of its elements.
pub proof fn lemma_exprs_view(s: Seq<Expression>)
    ensures
        exprs_view(s).len() == s.len(),
        forall|i: int| 0 <= i < s.len() ==> #[trigger] exprs_view(s)[i] == expr_view(s[i]),
    decreases s.len(),
{
    if s.len() > 0 {
        lemma_exprs_view(s.drop_last());
    }
}

/// The mathematical value of an optional expression.
pub open spec fn opt_expr_view(e: Option<Expression>) -> Option<ExprView> {
    match e {
        Some(x) => Some(expr_view(x)),
        None => None,
    }
}

impl View for Expression {
    type V = ExprView;

    open spec fn view(&self) -> ExprView {
        expr_view(*self)
    }
}

impl View for Variable {
    type V = VariableView;

    open spec fn view(&self) -> VariableView {
        VariableView {
            name: self.name@,
            var_type: self.var_type,
            value: opt_expr_view(self.value),
            span: self.span,
        }
    }
}

impl View for Argument {
    type V = ArgumentView;

    open spec fn view(&self) -> ArgumentView {
        ArgumentView { name: self.name@, arg_type: self.arg_type, span: self.span }
    }
}

impl View for ReturnStatement {
    type V = ReturnView;

    open spec fn view(&self) -> ReturnView {
        ReturnView { value: opt_expr_view(self.value), span: self.span }
    }
}

impl View for Statement {
    type V = StatementView;

    open spec fn view(&self) -> StatementView {
        match self {
            Statement::VariableDeclaration(v) => StatementView::VariableDeclaration(v@),
            Statement::Return(r) => StatementView::Return(r@),
            Statement::Expression(e) => StatementView::Expression(e@),
        }
    }
}

impl View for Function {
    type V = FunctionView;

    open spec fn view(&self) -> FunctionView {
        FunctionView {
            name: self.name@,
            parameters: self.parameters@.map_values(|a: Argument| a@),
            return_type: self.return_type,
            body: self.body@.map_values(|s: Statement| s@),
            span: self.span,
        }
    }
}

impl View for FileItem {
    type V = FileItemView;

    open spec fn view(&self) -> FileItemView {
        match self {
            FileItem::Function(f) => FileItemView::Function(f@),
            FileItem::Variable(v) => FileItemView::Variable(v@),
        }
    }
}

impl View for SourceFile {
    type V = SourceFileView;

    open spec fn view(&self) -> SourceFileView {
        SourceFileView {
            path: self.path@,
            content: self.content@,
            items: self.items@.map_values(|i: FileItem| i@),
        }
    }
}

impl View for Program {
    type V = ProgramView;

    open spec fn view(&self) -> ProgramView {
        ProgramView { files: self.files@.map_values(|f: SourceFile| f@) }
    }
}

/// The kinds of tokens the lexer produces.
#[derive(Debug, PartialEq)]
pub enum TokenType {
    Function,
    Return,
    TypeInt,
    TypeFloat,
    TypeText,
    TypeVoid,
    Identifier(String),
    Number(String),
    StringLiteral(String),
    Plus,
    Minus,
    Multiply,
    Divide,
    Assign,
    LParen,
    RParen,
    LBrace,
    RBrace,
    Comma,
    Semicolon,
    EOF,
}

/// A token kind with its text taken as a character sequence.
pub enum TokenKind {
    Function,
    Return,
    TypeInt,
    TypeFloat,
    TypeText,
    TypeVoid,
    Identifier(Seq<char>),
    Number(Seq<char>),
    StringLiteral(Seq<char>),
    Plus,
    Minus,
    Multiply,
    Divide,
    Assign,
    LParen,
    RParen,
    LBrace,
    RBrace,
    Comma,
    Semicolon,
    EOF,
}

impl View for TokenType {
    type V = TokenKind;

    open spec fn view(&self) -> TokenKind {
        match self {
            TokenType::Function => TokenKind::Function,
            TokenType::Return => TokenKind::Return,
            TokenType::TypeInt => TokenKind::TypeInt,
            TokenType::TypeFloat => TokenKind::TypeFloat,
            TokenType::TypeText => TokenKind::TypeText,
            TokenType::TypeVoid => TokenKind::TypeVoid,
            TokenType::Identifier(s) => TokenKind::Identifier(s@),
            TokenType::Number(s) => TokenKind::Number(s@),
            TokenType::StringLiteral(s) => TokenKind::StringLiteral(s@),
            TokenType::Plus => TokenKind::Plus,
            TokenType::Minus => TokenKind::Minus,
            TokenType::Multiply => TokenKind::Multiply,
            TokenType::Divide => TokenKind::Divide,
            TokenType::Assign => TokenKind::Assign,
            TokenType::LParen => TokenKind::LParen,
            TokenType::RParen => TokenKind::RParen,
            TokenType::LBrace => TokenKind::LBrace,
            TokenType::RBrace => TokenKind::RBrace,
            TokenType::Comma => TokenKind::Comma,
            TokenType::Semicolon => TokenKind::Semicolon,
            TokenType::EOF => TokenKind::EOF,
        }
    }
}

impl Clone for TokenType {
    fn clone(&self) -> (r: Self)
        ensures
            r == *self,
    {
        match self {
            TokenType::Function => TokenType::Function,
            TokenType::Return => TokenType::Return,
            TokenType::TypeInt => TokenType::TypeInt,
            TokenType::TypeFloat => TokenType::TypeFloat,
            TokenType::TypeText => TokenType::TypeText,
            TokenType::TypeVoid => TokenType::TypeVoid,
            TokenType::Identifier(s) => TokenType::Identifier(s.clone()),
            TokenType::Number(s) => TokenType::Number(s.clone()),
            TokenType::StringLiteral(s) => TokenType::StringLiteral(s.clone()),
            TokenType::Plus => TokenType::Plus,
            TokenType::Minus => TokenType::Minus,
            TokenType::Multiply => TokenType::Multiply,
            TokenType::Divide => TokenType::Divide,
            TokenType::Assign => TokenType::Assign,
            TokenType::LParen => TokenType::LParen,
            TokenType::RParen => TokenType::RParen,
            TokenType::LBrace => TokenType::LBrace,
            TokenType::RBrace => TokenType::RBrace,
            TokenType::Comma => TokenType::Comma,
            TokenType::Semicolon => TokenType::Semicolon,
            TokenType::EOF => TokenType::EOF,
        }
    }
}

/// A token: its kind and where it stands.
#[derive(Debug, PartialEq)]
pub struct Token {
    pub token_type: TokenType,
    pub span: Span,
}

/// What a token is: its kind as a `TokenKind`, and its span.
pub struct TokenView {
    pub kind: TokenKind,
    pub span: Span,
}

impl View for Token {
    type V = TokenView;

    open spec fn view(&self) -> TokenView {
        TokenView { kind: self.token_type@, span: self.span }
    }
}

impl Clone for Token {
    fn clone(&self) -> (r: Self)
        ensures
            r == *self,
    {
        Token { token_type: self.token_type.clone(), span: self.span }
    }
}

} // verus!
