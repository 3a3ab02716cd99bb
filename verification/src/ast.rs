//! The parser: from tokens to the syntax tree of a source file.
use vstd::prelude::*;
use crate::structure::{
    Span, CompilerError, ErrorView, Type, Value, ValueView, TokenOperation, Expression,
    ExpressionKind, ExprView, ExprKindView, Operation, OperationView, FunctionCall, CallView,
    Variable, VariableView, Argument, ArgumentView, ReturnStatement, ReturnView, Statement,
    StatementView, Function, FunctionView, FileItem, FileItemView, SourceFile, SourceFileView,
    Program, ProgramView, TokenType, Token, exprs_view, };

verus! {

broadcast use vstd::string::group_string_axioms;

// ---------------------------------------------------------------------------
// Reading decimal integers.
/// A character among `0` to `9`.
pub open spec fn is_ascii_digit(c: char) -> bool {
    '0' <= c && c <= '9'
}

/// The value of a sequence of decimal digits.
pub open spec fn digits_value(s: Seq<char>) -> int
    decreases s.len(),
{
    if s.len() == 0 {
        0
    } else {
        digits_value(s.drop_last()) * 10 + (s.last() as int - '0' as int)
    }
}

/// What `str::parse::<i64>` gives: an optional `+` or `-` sign followed by
/// one or more decimal digits, whose value fits in an `i64`; `None` for any
/// other text.
pub open spec fn decimal_i64(s: Seq<char>) -> Option<i64> {
    let signed = s.len() > 0 && (s[0] == '-' || s[0] == '+');
    let digits = if signed {
        s.drop_first()
    } else {
        s
    };
    let magnitude = digits_value(digits);
    let v = if s.len() > 0 && s[0] == '-' {
        -magnitude
    } else {
        magnitude
    };
    if digits.len() > 0 && (forall|i: int| 0 <= i < digits.len() ==> is_ascii_digit(#[trigger] digits[i]))
        && i64::MIN <= v <= i64::MAX {
        Some(v as i64)
    } else {
        None
    }
}

/// `str::parse::<i64>`, as its documentation states it: an optional sign,
/// then only decimal digits, of a value in range.
#[verifier::external_body]
fn parse_i64(s: &str) -> (r: Option<i64>)
    ensures
        r == decimal_i64(s@),
{
    s.parse::<i64>().ok()
}

// ---------------------------------------------------------------------------
// The grammar, read over a sequence of tokens from a position. Each reader
// gives what it read (or the error met) and the position where it stopped.
/// A parse outcome: the value read or the error, and the position reached.
pub type Parsed<T> = (Result<T, ErrorView>, int);

/// The variant of a token kind, as a number.
pub open spec fn kind_tag(k: TokenType) -> nat {
    match k {
        TokenType::Function => 0,
        TokenType::Return => 1,
        TokenType::TypeInt => 2,
        TokenType::TypeFloat => 3,
        TokenType::TypeText => 4,
        TokenType::TypeVoid => 5,
        TokenType::Identifier(_) => 6,
        TokenType::Number(_) => 7,
        TokenType::StringLiteral(_) => 8,
        TokenType::Plus => 9,
        TokenType::Minus => 10,
        TokenType::Multiply => 11,
        TokenType::Divide => 12,
        TokenType::Assign => 13,
        TokenType::LParen => 14,
        TokenType::RParen => 15,
        TokenType::LBrace => 16,
        TokenType::RBrace => 17,
        TokenType::Comma => 18,
        TokenType::Semicolon => 19,
        TokenType::EOF => 20,
    }
}

/// The token at `p` is the end token.
pub open spec fn at_end(t: Seq<Token>, p: int) -> bool {
    t[p].token_type is EOF
}

/// The token at `p` is of the same variant as `k`.
pub open spec fn check_at(t: Seq<Token>, p: int, k: TokenType) -> bool {
    kind_tag(t[p].token_type) == kind_tag(k)
}

/// The position after moving one token forward: it stays on the end token.
pub open spec fn adv(t: Seq<Token>, p: int) -> int {
    if at_end(t, p) {
        p
    } else {
        p + 1
    }
}

/// The token that moving forward from `p` hands back: the one just passed,
/// or, on the end token, the one before it.
pub open spec fn taken(t: Seq<Token>, p: int) -> Token {
    t[adv(t, p) - 1]
}

/// An error of file `file` with the given message and position.
pub open spec fn error_at(file: Seq<char>, message: Seq<char>, span: Span) -> ErrorView {
    ErrorView { file, message, span }
}

/// Takes a token of the variant of `k`, or gives `message` at the token found.
pub open spec fn consume_at(t: Seq<Token>, p: int, k: TokenType, message: Seq<char>, file: Seq<char>) -> Parsed<Token> {
    if check_at(t, p, k) {
        (Ok(taken(t, p)), adv(t, p))
    } else {
        (Err(error_at(file, message, t[p].span)), p)
    }
}

/// A type keyword.
pub open spec fn type_at(t: Seq<Token>, p: int, file: Seq<char>) -> Parsed<Type> {
    let q = adv(t, p);
    let r = match taken(t, p).token_type {
        TokenType::TypeInt => Ok(Type::Int),
        TokenType::TypeFloat => Ok(Type::Float),
        TokenType::TypeText => Ok(Type::Text),
        TokenType::TypeVoid => Ok(Type::Void),
        _ => Err(error_at(file, "type attendu"@, taken(t, p).span)),
    };
    (r, q)
}

/// A primary expression: a number, a text, a variable or a call.
pub open spec fn primary_at(t: Seq<Token>, p: int, file: Seq<char>) -> Parsed<ExprView>
    decreases t.len() - p, 1int,
    when 0 <= p < t.len()
{
    let q = adv(t, p);
    let tok = taken(t, p);
    match tok.token_type {
        TokenType::Number(v) => {
            let n = match decimal_i64(v@) {
                Some(x) => x,
                None => 0i64,
            };
            (Ok(ExprView { kind: ExprKindView::Value(ValueView::Int(n)), span: tok.span }), q)
        },
        TokenType::StringLiteral(v) => (
            Ok(ExprView { kind: ExprKindView::Value(ValueView::String(v@)), span: tok.span }),
            q,
        ),
        TokenType::Identifier(name) => if check_at(t, q, TokenType::LParen) {
            call_at(t, q, name@, tok.span, file)
        } else {
            (Ok(ExprView { kind: ExprKindView::Variable(name@), span: tok.span }), q)
        },
        _ => (Err(error_at(file, "expression invalide"@, tok.span)), q),
    }
}

/// The rest of a call, from its opening parenthesis.
pub open spec fn call_at(t: Seq<Token>, p: int, name: Seq<char>, span: Span, file: Seq<char>) -> Parsed<ExprView>
    decreases t.len() - p, 0int,
    when 0 <= p < t.len()
{
    let (open, p1) = consume_at(t, p, TokenType::LParen, "'(' attendu après le nom de fonction"@, file);
    match open {
        Err(e) => (Err(e), p1),
        Ok(_) => {
            let (args, p2) = arguments_at(t, p1, seq![], file);
            match args {
                Err(e) => (Err(e), p2),
                Ok(a) => {
                    let (close, p3) = consume_at(t, p2, TokenType::RParen, "')' attendu"@, file);
                    match close {
                        Err(e) => (Err(e), p3),
                        Ok(_) => (
                            Ok(
                                ExprView {
                                    kind: ExprKindView::FunctionCall(
                                        CallView { name, arguments: a, span },
                                    ),
                                    span,
                                },
                            ),
                            p3,
                        ),
                    }
                },
            }
        },
    }
}

/// The arguments of a call after those already read (`acc`), up to the
/// closing parenthesis (not taken), separated by commas.
pub open spec fn arguments_at(t: Seq<Token>, p: int, acc: Seq<ExprView>, file: Seq<char>) -> Parsed<Seq<ExprView>>
    decreases t.len() - p, 3int,
    when 0 <= p < t.len()
{
    if check_at(t, p, TokenType::RParen) {
        (Ok(acc), p)
    } else {
        let (r, q) = expression_at(t, p, file);
        match r {
            Err(e) => (Err(e), q),
            Ok(e) => if 0 <= q < t.len() && check_at(t, q, TokenType::Comma) {
                let q2 = adv(t, q);
                if p < q2 < t.len() {
                    arguments_at(t, q2, acc.push(e), file)
                } else {
                    (Ok(acc.push(e)), q2)
                }
            } else {
                (Ok(acc.push(e)), q)
            },
        }
    }
}

/// An expression: primaries joined by `+` and `-`, grouped from the left.
pub open spec fn expression_at(t: Seq<Token>, p: int, file: Seq<char>) -> Parsed<ExprView>
    decreases t.len() - p, 2int,
    when 0 <= p < t.len()
{
    let (r, q) = primary_at(t, p, file);
    match r {
        Err(e) => (Err(e), q),
        Ok(left) => if p <= q < t.len() {
            operations_at(t, q, left, file)
        } else {
            (Ok(left), q)
        },
    }
}

/// The `+` and `-` operations that follow `left`, from `p`.
pub open spec fn operations_at(t: Seq<Token>, p: int, left: ExprView, file: Seq<char>) -> Parsed<ExprView>
    decreases t.len() - p, 0int,
    when 0 <= p < t.len()
{
    let k = t[p].token_type;
    if k is Plus || k is Minus {
        let op = if k is Plus {
            TokenOperation::Add
        } else {
            TokenOperation::Subtract
        };
        let q = adv(t, p);
        {
            let (r, q2) = primary_at(t, q, file);
            match r {
                Err(e) => (Err(e), q2),
                Ok(right) => {
                    let combined = ExprView {
                        kind: ExprKindView::Operation(
                            OperationView {
                                left: Box::new(left),
                                operator: op,
                                right: Box::new(right),
                                span: left.span,
                            },
                        ),
                        span: left.span,
                    };
                    if p < q2 < t.len() {
                        operations_at(t, q2, combined, file)
                    } else {
                        (Ok(combined), q2)
                    }
                },
            }
        }
    } else {
        (Ok(left), p)
    }
}

/// A `retourner` statement: the keyword, an expression and `;`.
pub open spec fn return_at(t: Seq<Token>, p: int, file: Seq<char>) -> Parsed<ReturnView> {
    let span = t[p].span;
    let (r, q) = expression_at(t, adv(t, p), file);
    match r {
        Err(e) => (Err(e), q),
        Ok(e) => {
            let (semi, q2) = consume_at(t, q, TokenType::Semicolon, "';' attendu"@, file);
            match semi {
                Err(err) => (Err(err), q2),
                Ok(_) => (Ok(ReturnView { value: Some(e), span }), q2),
            }
        },
    }
}

/// A variable declaration: a type, a name, an optional `= expression`, `;`.
pub open spec fn variable_at(t: Seq<Token>, p: int, file: Seq<char>) -> Parsed<VariableView> {
    let span = t[p].span;
    let (ty, q) = type_at(t, p, file);
    match ty {
        Err(e) => (Err(e), q),
        Ok(var_type) => {
            let q2 = adv(t, q);
            match taken(t, q).token_type {
                TokenType::Identifier(name) => {
                    let (value, q3): (Result<Option<ExprView>, ErrorView>, int) = if check_at(
                        t,
                        q2,
                        TokenType::Assign,
                    ) {
                        let (r, q4) = expression_at(t, adv(t, q2), file);
                        match r {
                            Err(e) => (Err(e), q4),
                            Ok(e) => (Ok(Some(e)), q4),
                        }
                    } else {
                        (Ok(None), q2)
                    };
                    match value {
                        Err(e) => (Err(e), q3),
                        Ok(v) => {
                            let (semi, q5) = consume_at(t, q3, TokenType::Semicolon, "';' attendu"@, file);
                            match semi {
                                Err(e) => (Err(e), q5),
                                Ok(_) => (
                                    Ok(VariableView { name: name@, var_type, value: v, span }),
                                    q5,
                                ),
                            }
                        },
                    }
                },
                _ => (Err(error_at(file, "nom de variable attendu"@, t[q2].span)), q2),
            }
        },
    }
}

/// A statement: a `retourner`, a declaration (it starts with `entier`,
/// `decimal` or `Texte`), or an expression followed by `;`.
pub open spec fn statement_at(t: Seq<Token>, p: int, file: Seq<char>) -> Parsed<StatementView> {
    match t[p].token_type {
        TokenType::Return => {
            let (r, q) = return_at(t, p, file);
            match r {
                Err(e) => (Err(e), q),
                Ok(s) => (Ok(StatementView::Return(s)), q),
            }
        },
        TokenType::TypeInt | TokenType::TypeFloat | TokenType::TypeText => {
            let (r, q) = variable_at(t, p, file);
            match r {
                Err(e) => (Err(e), q),
                Ok(v) => (Ok(StatementView::VariableDeclaration(v)), q),
            }
        },
        _ => {
            let (r, q) = expression_at(t, p, file);
            match r {
                Err(e) => (Err(e), q),
                Ok(e) => {
                    let (semi, q2) = consume_at(t, q, TokenType::Semicolon, "';' attendu"@, file);
                    match semi {
                        Err(err) => (Err(err), q2),
                        Ok(_) => (Ok(StatementView::Expression(e)), q2),
                    }
                },
            }
        },
    }
}

/// The statements of a body after those already read (`acc`), up to `}`
/// or the end (not taken).
pub open spec fn body_at(t: Seq<Token>, p: int, acc: Seq<StatementView>, file: Seq<char>) -> Parsed<Seq<StatementView>>
    decreases t.len() - p,
    when 0 <= p < t.len()
{
    if check_at(t, p, TokenType::RBrace) || at_end(t, p) {
        (Ok(acc), p)
    } else {
        let (r, q) = statement_at(t, p, file);
        match r {
            Err(e) => (Err(e), q),
            Ok(st) => if p < q < t.len() {
                body_at(t, q, acc.push(st), file)
            } else {
                (Ok(acc.push(st)), q)
            },
        }
    }
}

/// The parameters after those already read (`acc`), up to `)` (not taken):
/// each a type and a name, followed by an optional comma.
pub open spec fn parameters_at(t: Seq<Token>, p: int, acc: Seq<ArgumentView>, file: Seq<char>) -> Parsed<Seq<ArgumentView>>
    decreases t.len() - p,
    when 0 <= p < t.len()
{
    if check_at(t, p, TokenType::RParen) {
        (Ok(acc), p)
    } else {
        let span = t[p].span;
        let (ty, q) = type_at(t, p, file);
        match ty {
            Err(e) => (Err(e), q),
            Ok(arg_type) => {
                let q2 = adv(t, q);
                match taken(t, q).token_type {
                    TokenType::Identifier(name) => {
                        let arg = ArgumentView { name: name@, arg_type, span };
                        let q3 = if check_at(t, q2, TokenType::Comma) {
                            adv(t, q2)
                        } else {
                            q2
                        };
                        if p < q3 < t.len() {
                            parameters_at(t, q3, acc.push(arg), file)
                        } else {
                            (Ok(acc.push(arg)), q3)
                        }
                    },
                    _ => (Err(error_at(file, "nom d'argument attendu"@, t[q2].span)), q2),
                }
            },
        }
    }
}

/// A function: `fonction`, a name, `(` parameters `)`, a return type,
/// `{` body `}`.
pub open spec fn function_at(t: Seq<Token>, p: int, file: Seq<char>) -> Parsed<FunctionView> {
    let start_span = t[p].span;
    let (kw, p1) = consume_at(t, p, TokenType::Function, "fonction"@, file);
    if kw is Err {
        (Err(kw->Err_0), p1)
    } else {
        let p2 = adv(t, p1);
        match taken(t, p1).token_type {
            TokenType::Identifier(name) => {
                let (lp, p3) = consume_at(t, p2, TokenType::LParen, "'(' attendu"@, file);
                if lp is Err {
                    (Err(lp->Err_0), p3)
                } else {
                    let (params, p4) = parameters_at(t, p3, seq![], file);
                    if params is Err {
                        (Err(params->Err_0), p4)
                    } else {
                        let (rp, p5) = consume_at(t, p4, TokenType::RParen, "')' attendu"@, file);
                        if rp is Err {
                            (Err(rp->Err_0), p5)
                        } else {
                            let (ret, p6) = type_at(t, p5, file);
                            if ret is Err {
                                (Err(ret->Err_0), p6)
                            } else {
                                let (lb, p7) = consume_at(t, p6, TokenType::LBrace, "'{' attendu"@, file);
                                if lb is Err {
                                    (Err(lb->Err_0), p7)
                                } else {
                                    let (body, p8) = body_at(t, p7, seq![], file);
                                    if body is Err {
                                        (Err(body->Err_0), p8)
                                    } else {
                                        let (rb, p9) = consume_at(t, p8, TokenType::RBrace, "'}' attendu"@, file);
                                        if rb is Err {
                                            (Err(rb->Err_0), p9)
                                        } else {
                                            (
                                                Ok(
                                                    FunctionView {
                                                        name: name@,
                                                        parameters: params->Ok_0,
                                                        return_type: ret->Ok_0,
                                                        body: body->Ok_0,
                                                        span: start_span,
                                                    },
                                                ),
                                                p9,
                                            )
                                        }
                                    }
                                }
                            }
                        }
                    }
                }
            },
            _ => (Err(error_at(file, "nom de fonction attendu"@, t[p2].span)), p2),
        }
    }
}

/// A top-level item: only functions are accepted.
pub open spec fn item_at(t: Seq<Token>, p: int, file: Seq<char>) -> Parsed<FileItemView> {
    if t[p].token_type is Function {
        let (r, q) = function_at(t, p, file);
        match r {
            Err(e) => (Err(e), q),
            Ok(f) => (Ok(FileItemView::Function(f)), q),
        }
    } else {
        (Err(error_at(file, "Item inattendu"@, t[p].span)), p)
    }
}

/// The items after those already read (`acc`), up to the end token.
pub open spec fn items_at(t: Seq<Token>, p: int, acc: Seq<FileItemView>, file: Seq<char>) -> Parsed<Seq<FileItemView>>
    decreases t.len() - p,
    when 0 <= p < t.len()
{
    if at_end(t, p) {
        (Ok(acc), p)
    } else {
        let (r, q) = item_at(t, p, file);
        match r {
            Err(e) => (Err(e), q),
            Ok(it) => if p < q < t.len() {
                items_at(t, q, acc.push(it), file)
            } else {
                (Ok(acc.push(it)), q)
            },
        }
    }
}

/// A source file: its items up to the end token, with the given path and
/// content.
pub open spec fn source_file_at(t: Seq<Token>, p: int, path: Seq<char>, content: Seq<char>, file: Seq<char>) -> Parsed<SourceFileView> {
    let (r, q) = items_at(t, p, seq![], file);
    match r {
        Ok(items) => (Ok(SourceFileView { path, content, items }), q),
        Err(e) => (Err(e), q),
    }
}

/// A program made of one source file, whose name is also its path.
pub open spec fn program_of(t: Seq<Token>, file: Seq<char>, content: Seq<char>) -> Result<ProgramView, ErrorView> {
    match source_file_at(t, 0, file, content, file).0 {
        Ok(sf) => Ok(ProgramView { files: seq![sf] }),
        Err(e) => Err(e),
    }
}

// ---------------------------------------------------------------------------
// The readers never move back and never pass the end token.
/// A position on a token with the end token at or after it, which is not
/// the end token at position 0.
pub open spec fn reachable(t: Seq<Token>, p: int) -> bool {
    &&& 0 <= p < t.len()
    &&& eof_ahead(t, p)
    &&& (p > 0 || !at_end(t, p))
}

/// Moving one token forward keeps a position reachable; it moves unless
/// on the end token.
pub proof fn lemma_adv(t: Seq<Token>, p: int)
    requires
        reachable(t, p),
    ensures
        reachable(t, adv(t, p)),
        !at_end(t, p) ==> adv(t, p) == p + 1,
        at_end(t, p) ==> adv(t, p) == p,
{
    if !at_end(t, p) {
        let i = choose|i: int| p <= i < t.len() && (#[trigger] t[i]).token_type is EOF;
        assert(p + 1 <= i);
        assert(eof_ahead(t, p + 1));
    }
}

/// A reader's stopping point relative to its start.
pub open spec fn moved_on(t: Seq<Token>, p: int, q: int) -> bool {
    p <= q && reachable(t, q)
}

proof fn lemma_consume(t: Seq<Token>, p: int, k: TokenType, message: Seq<char>, file: Seq<char>)
    requires
        reachable(t, p),
    ensures
        moved_on(t, p, consume_at(t, p, k, message, file).1),
        consume_at(t, p, k, message, file).0 is Ok && !(k is EOF) ==> consume_at(t, p, k, message, file).1 == p + 1,
{
    lemma_adv(t, p);
}

/// The primary, call, argument and expression readers never move back;
/// the primary and expression readers move forward when they start on a
/// token other than the end token.
pub proof fn lemma_primary_moves(t: Seq<Token>, p: int, file: Seq<char>)
    requires
        reachable(t, p),
    ensures
        moved_on(t, p, primary_at(t, p, file).1),
        !at_end(t, p) ==> p < primary_at(t, p, file).1,
    decreases t.len() - p, 1int,
{
    lemma_adv(t, p);
    let q = adv(t, p);
    if let TokenType::Identifier(name) = taken(t, p).token_type {
        if check_at(t, q, TokenType::LParen) {
            lemma_call_moves(t, q, name@, taken(t, p).span, file);
        }
    }
}

/// See `lemma_primary_moves`.
pub proof fn lemma_call_moves(t: Seq<Token>, p: int, name: Seq<char>, span: Span, file: Seq<char>)
    requires
        reachable(t, p),
    ensures
        moved_on(t, p, call_at(t, p, name, span, file).1),
    decreases t.len() - p, 0int,
{
    lemma_consume(t, p, TokenType::LParen, "'(' attendu après le nom de fonction"@, file);
    let (open, p1) = consume_at(t, p, TokenType::LParen, "'(' attendu après le nom de fonction"@, file);
    if open is Ok {
        lemma_arguments_moves(t, p1, seq![], file);
        let p2 = arguments_at(t, p1, seq![], file).1;
        lemma_consume(t, p2, TokenType::RParen, "')' attendu"@, file);
    }
}

/// See `lemma_primary_moves`.
pub proof fn lemma_arguments_moves(t: Seq<Token>, p: int, acc: Seq<ExprView>, file: Seq<char>)
    requires
        reachable(t, p),
    ensures
        moved_on(t, p, arguments_at(t, p, acc, file).1),
    decreases t.len() - p, 3int,
{
    if !check_at(t, p, TokenType::RParen) {
        lemma_expression_moves(t, p, file);
        let (r, q) = expression_at(t, p, file);
        if let Ok(e) = r {
            if check_at(t, q, TokenType::Comma) {
                lemma_adv(t, q);
                lemma_arguments_moves(t, adv(t, q), acc.push(e), file);
            }
        }
    }
}

/// See `lemma_primary_moves`.
pub proof fn lemma_expression_moves(t: Seq<Token>, p: int, file: Seq<char>)
    requires
        reachable(t, p),
    ensures
        moved_on(t, p, expression_at(t, p, file).1),
        !at_end(t, p) ==> p < expression_at(t, p, file).1,
    decreases t.len() - p, 2int,
{
    lemma_primary_moves(t, p, file);
    let (r, q) = primary_at(t, p, file);
    if let Ok(left) = r {
        lemma_operations_moves(t, q, left, file);
    }
}

/// See `lemma_primary_moves`.
pub proof fn lemma_operations_moves(t: Seq<Token>, p: int, left: ExprView, file: Seq<char>)
    requires
        reachable(t, p),
    ensures
        moved_on(t, p, operations_at(t, p, left, file).1),
    decreases t.len() - p, 0int,
{
    let k = t[p].token_type;
    if k is Plus || k is Minus {
        lemma_adv(t, p);
        let q = adv(t, p);
        lemma_primary_moves(t, q, file);
        let (r, q2) = primary_at(t, q, file);
        if let Ok(right) = r {
            let op = if k is Plus {
                TokenOperation::Add
            } else {
                TokenOperation::Subtract
            };
            let combined = ExprView {
                kind: ExprKindView::Operation(
                    OperationView { left: Box::new(left), operator: op, right: Box::new(right), span: left.span },
                ),
                span: left.span,
            };
            lemma_operations_moves(t, q2, combined, file);
        }
    }
}

/// The statement reader never moves back, and moves forward when it starts
/// on a token other than the end token.
pub proof fn lemma_statement_moves(t: Seq<Token>, p: int, file: Seq<char>)
    requires
        reachable(t, p),
    ensures
        moved_on(t, p, statement_at(t, p, file).1),
        !at_end(t, p) ==> p < statement_at(t, p, file).1,
{
    lemma_adv(t, p);
    match t[p].token_type {
        TokenType::Return => {
            lemma_expression_moves(t, adv(t, p), file);
            let q = expression_at(t, adv(t, p), file).1;
            lemma_consume(t, q, TokenType::Semicolon, "';' attendu"@, file);
        },
        TokenType::TypeInt | TokenType::TypeFloat | TokenType::TypeText => {
            let q = type_at(t, p, file).1;
            lemma_adv(t, q);
            let q2 = adv(t, q);
            lemma_adv(t, q2);
            if check_at(t, q2, TokenType::Assign) {
                lemma_expression_moves(t, adv(t, q2), file);
                let q4 = expression_at(t, adv(t, q2), file).1;
                lemma_consume(t, q4, TokenType::Semicolon, "';' attendu"@, file);
            } else {
                lemma_consume(t, q2, TokenType::Semicolon, "';' attendu"@, file);
            }
        },
        _ => {
            lemma_expression_moves(t, p, file);
            let q = expression_at(t, p, file).1;
            lemma_consume(t, q, TokenType::Semicolon, "';' attendu"@, file);
        },
    }
}

/// The body reader never moves back.
pub proof fn lemma_body_moves(t: Seq<Token>, p: int, acc: Seq<StatementView>, file: Seq<char>)
    requires
        reachable(t, p),
    ensures
        moved_on(t, p, body_at(t, p, acc, file).1),
    decreases t.len() - p,
{
    if !(check_at(t, p, TokenType::RBrace) || at_end(t, p)) {
        lemma_statement_moves(t, p, file);
        let (r, q) = statement_at(t, p, file);
        if let Ok(st) = r {
            lemma_body_moves(t, q, acc.push(st), file);
        }
    }
}

/// The parameter reader never moves back.
pub proof fn lemma_parameters_moves(t: Seq<Token>, p: int, acc: Seq<ArgumentView>, file: Seq<char>)
    requires
        reachable(t, p),
    ensures
        moved_on(t, p, parameters_at(t, p, acc, file).1),
        parameters_at(t, p, acc, file).0 is Ok && !check_at(t, p, TokenType::RParen) ==> p < parameters_at(t, p, acc, file).1,
    decreases t.len() - p,
{
    if !check_at(t, p, TokenType::RParen) {
        lemma_adv(t, p);
        let q = type_at(t, p, file).1;
        lemma_adv(t, q);
        let q2 = adv(t, q);
        lemma_adv(t, q2);
        if let Ok(arg_type) = type_at(t, p, file).0 {
            if let TokenType::Identifier(name) = taken(t, q).token_type {
                let arg = ArgumentView { name: name@, arg_type, span: t[p].span };
                let q3 = if check_at(t, q2, TokenType::Comma) {
                    adv(t, q2)
                } else {
                    q2
                };
                if p < q3 {
                    lemma_parameters_moves(t, q3, acc.push(arg), file);
                }
            }
        }
    }
}

/// The function reader never moves back, and moves forward when it reads
/// a function.
pub proof fn lemma_function_moves(t: Seq<Token>, p: int, file: Seq<char>)
    requires
        reachable(t, p),
    ensures
        moved_on(t, p, function_at(t, p, file).1),
        function_at(t, p, file).0 is Ok ==> p < function_at(t, p, file).1,
{
    lemma_consume(t, p, TokenType::Function, "fonction"@, file);
    let (kw, p1) = consume_at(t, p, TokenType::Function, "fonction"@, file);
    if kw is Ok {
        lemma_adv(t, p1);
        let p2 = adv(t, p1);
        if let TokenType::Identifier(name) = taken(t, p1).token_type {
            lemma_consume(t, p2, TokenType::LParen, "'(' attendu"@, file);
            let (lp, p3) = consume_at(t, p2, TokenType::LParen, "'(' attendu"@, file);
            if lp is Ok {
                lemma_parameters_moves(t, p3, seq![], file);
                let (params, p4) = parameters_at(t, p3, seq![], file);
                if params is Ok {
                    lemma_consume(t, p4, TokenType::RParen, "')' attendu"@, file);
                    let (rp, p5) = consume_at(t, p4, TokenType::RParen, "')' attendu"@, file);
                    if rp is Ok {
                        lemma_adv(t, p5);
                        let p6 = type_at(t, p5, file).1;
                        lemma_consume(t, p6, TokenType::LBrace, "'{' attendu"@, file);
                        let (lb, p7) = consume_at(t, p6, TokenType::LBrace, "'{' attendu"@, file);
                        if lb is Ok {
                            lemma_body_moves(t, p7, seq![], file);
                            let p8 = body_at(t, p7, seq![], file).1;
                            lemma_consume(t, p8, TokenType::RBrace, "'}' attendu"@, file);
                        }
                    }
                }
            }
        }
    }
}

/// The readers of a source file never move back nor pass the end token:
/// from any position with the end token at or after it, reading the items
/// stops at a position at or after the start, on a token, with the end
/// token at or after it. The bounds that the readers' definitions test
/// before going on therefore always hold.
pub proof fn lemma_items_moves(t: Seq<Token>, p: int, acc: Seq<FileItemView>, file: Seq<char>)
    requires
        0 <= p < t.len(),
        eof_ahead(t, p),
    ensures
        p <= items_at(t, p, acc, file).1 < t.len(),
        eof_ahead(t, items_at(t, p, acc, file).1),
    decreases t.len() - p,
{
    if !at_end(t, p) {
        if t[p].token_type is Function {
            lemma_function_moves(t, p, file);
            let (r, q) = function_at(t, p, file);
            if let Ok(f) = r {
                lemma_items_moves(t, q, acc.push(FileItemView::Function(f)), file);
            }
        }
    }
}

// ---------------------------------------------------------------------------
// The parser.
/// The tokens hold an end token at `p` or after it.
pub open spec fn eof_ahead(t: Seq<Token>, p: int) -> bool {
    exists|i: int| p <= i < t.len() && (#[trigger] t[i]).token_type is EOF
}

/// An executable result agrees with what the grammar gives.
pub open spec fn agrees<T: View>(r: Result<T, CompilerError>, s: Result<T::V, ErrorView>) -> bool {
    match r {
        Ok(v) => s == Ok::<T::V, ErrorView>(v@),
        Err(e) => s == Err::<T::V, ErrorView>(e@),
    }
}

/// Reads a source file from a sequence of tokens.
#[derive(Debug)]
pub struct Parser {
    pub tokens: Vec<Token>,
    pub current: usize,
    pub file: String,
}

/// The variant of a token kind, as a number.
fn kind_tag_of(k: &TokenType) -> (n: u8)
    ensures
        n == kind_tag(*k),
{
    match k {
        TokenType::Function => 0,
        TokenType::Return => 1,
        TokenType::TypeInt => 2,
        TokenType::TypeFloat => 3,
        TokenType::TypeText => 4,
        TokenType::TypeVoid => 5,
        TokenType::Identifier(_) => 6,
        TokenType::Number(_) => 7,
        TokenType::StringLiteral(_) => 8,
        TokenType::Plus => 9,
        TokenType::Minus => 10,
        TokenType::Multiply => 11,
        TokenType::Divide => 12,
        TokenType::Assign => 13,
        TokenType::LParen => 14,
        TokenType::RParen => 15,
        TokenType::LBrace => 16,
        TokenType::RBrace => 17,
        TokenType::Comma => 18,
        TokenType::Semicolon => 19,
        TokenType::EOF => 20,
    }
}

impl Parser {
    /// The parser stands on a token with an end token at or after it, and
    /// it has moved, or stands on a token other than the end token.
    pub open spec fn ready(&self) -> bool {
        &&& self.current < self.tokens@.len()
        &&& eof_ahead(self.tokens@, self.current as int)
        &&& (self.current > 0 || !at_end(self.tokens@, self.current as int))
    }

    /// Same tokens and file name as `other`.
    pub open spec fn same_input(&self, other: Parser) -> bool {
        self.tokens@ == other.tokens@ && self.file@ == other.file@
    }

    fn peek(&self) -> (t: &Token)
        requires
            self.current < self.tokens@.len(),
        ensures
            *t == self.tokens@[self.current as int],
    {
        &self.tokens[self.current]
    }

    fn previous(&self) -> (t: &Token)
        requires
            0 < self.current <= self.tokens@.len(),
        ensures
            *t == self.tokens@[self.current - 1],
    {
        &self.tokens[self.current - 1]
    }

    fn is_at_end(&self) -> (b: bool)
        requires
            self.current < self.tokens@.len(),
        ensures
            b == at_end(self.tokens@, self.current as int),
    {
        matches!(self.peek().token_type, TokenType::EOF)
    }

    fn check(&self, token: &TokenType) -> (b: bool)
        requires
            self.current < self.tokens@.len(),
        ensures
            b == check_at(self.tokens@, self.current as int, *token),
    {
        kind_tag_of(&self.peek().token_type) == kind_tag_of(token)
    }

    /// Moves one token forward, unless on the end token, and hands back the
    /// token passed (or the one before the end token).
    fn advance(&mut self) -> (t: Token)
        requires
            old(self).ready(),
        ensures
            final(self).same_input(*old(self)),
            final(self).ready(),
            final(self).current == adv(old(self).tokens@, old(self).current as int),
            t == taken(old(self).tokens@, old(self).current as int),
    {
        if !self.is_at_end() {
            proof {
                let i = choose|i: int|
                    self.current <= i < self.tokens@.len() && (#[trigger] self.tokens@[i]).token_type is EOF;
                assert(self.current + 1 <= i);
                assert(self.tokens@.len() == self.tokens.len());
            }
            self.current += 1;
        }
        self.previous().clone()
    }

    fn consume(&mut self, expected: TokenType, message: &str) -> (r: Result<Token, CompilerError>)
        requires
            old(self).ready(),
        ensures
            final(self).same_input(*old(self)),
            final(self).ready(),
            ({
                let (s, q) = consume_at(old(self).tokens@, old(self).current as int, expected, message@, old(self).file@);
                &&& final(self).current == q
                &&& match r {
                    Ok(tok) => s == Ok::<Token, ErrorView>(tok),
                    Err(e) => s == Err::<Token, ErrorView>(e@),
                }
            }),
    {
        if self.check(&expected) {
            return Ok(self.advance());
        }
        Err(
            CompilerError {
                file: self.file.clone(),
                message: message.to_string(),
                span: self.peek().span,
            },
        )
    }

    fn parse_type(&mut self) -> (r: Result<Type, CompilerError>)
        requires
            old(self).ready(),
        ensures
            final(self).same_input(*old(self)),
            final(self).ready(),
            ({
                let (s, q) = type_at(old(self).tokens@, old(self).current as int, old(self).file@);
                final(self).current == q && agrees(r, s)
            }),
    {
        let token = self.advance().token_type;
        match token {
            TokenType::TypeInt => Ok(Type::Int),
            TokenType::TypeFloat => Ok(Type::Float),
            TokenType::TypeText => Ok(Type::Text),
            TokenType::TypeVoid => Ok(Type::Void),
            _ => Err(
                CompilerError {
                    file: self.file.clone(),
                    message: "type attendu".to_string(),
                    span: self.previous().span,
                },
            ),
        }
    }

    fn parse_expression(&mut self) -> (r: Result<Expression, CompilerError>)
        requires
            old(self).ready(),
        ensures
            final(self).same_input(*old(self)),
            final(self).ready(),
            old(self).current <= final(self).current,
            !at_end(old(self).tokens@, old(self).current as int) ==> old(self).current < final(self).current,
            ({
                let (s, q) = expression_at(old(self).tokens@, old(self).current as int, old(self).file@);
                final(self).current == q && agrees(r, s)
            }),
        decreases old(self).tokens@.len() - old(self).current, 2int,
    {
        let ghost t = self.tokens@;
        let ghost f = self.file@;
        let ghost p0 = self.current as int;
        let mut left = self.parse_primary()?;
        while matches!(self.peek().token_type, TokenType::Plus | TokenType::Minus)
            invariant
                self.ready(),
                self.tokens@ == t,
                self.file@ == f,
                p0 <= self.current,
                !at_end(t, p0) ==> p0 < self.current,
                0 <= p0 < t.len(),
                t == old(self).tokens@,
                f == old(self).file@,
                p0 == old(self).current,
                expression_at(t, p0, f) == operations_at(t, self.current as int, left@, f),
            decreases t.len() - self.current,
        {
            let ghost p1 = self.current as int;
            let operator = match self.advance().token_type {
                TokenType::Plus => TokenOperation::Add,
                _ => TokenOperation::Subtract,
            };
            let right = self.parse_primary()?;
            let span = left.span;
            left = Expression {
                span,
                kind: ExpressionKind::Operation(
                    Operation { left: Box::new(left), operator, right: Box::new(right), span },
                ),
            };
        }
        Ok(left)
    }

    fn parse_primary(&mut self) -> (r: Result<Expression, CompilerError>)
        requires
            old(self).ready(),
        ensures
            final(self).same_input(*old(self)),
            final(self).ready(),
            old(self).current <= final(self).current,
            !at_end(old(self).tokens@, old(self).current as int) ==> old(self).current < final(self).current,
            ({
                let (s, q) = primary_at(old(self).tokens@, old(self).current as int, old(self).file@);
                final(self).current == q && agrees(r, s)
            }),
        decreases old(self).tokens@.len() - old(self).current, 1int,
    {
        let token = self.advance();
        match token.token_type {
            TokenType::Number(value) => {
                let number = match parse_i64(value.as_str()) {
                    Some(n) => n,
                    None => 0,
                };
                Ok(Expression { span: token.span, kind: ExpressionKind::Value(Value::Int(number)) })
            },
            TokenType::StringLiteral(value) => {
                Ok(Expression { span: token.span, kind: ExpressionKind::Value(Value::String(value)) })
            },
            TokenType::Identifier(name) => {
                if self.check(&TokenType::LParen) {
                    return self.parse_function_call(name, token.span);
                }
                Ok(Expression { span: token.span, kind: ExpressionKind::Variable(name) })
            },
            _ => Err(
                CompilerError {
                    file: self.file.clone(),
                    message: "expression invalide".to_string(),
                    span: token.span,
                },
            ),
        }
    }

    fn parse_function_call(&mut self, name: String, span: Span) -> (r: Result<Expression, CompilerError>)
        requires
            old(self).ready(),
        ensures
            final(self).same_input(*old(self)),
            final(self).ready(),
            old(self).current <= final(self).current,
            ({
                let (s, q) = call_at(old(self).tokens@, old(self).current as int, name@, span, old(self).file@);
                final(self).current == q && agrees(r, s)
            }),
        decreases old(self).tokens@.len() - old(self).current, 0int,
    {
        let ghost t = self.tokens@;
        let ghost f = self.file@;
        self.consume(TokenType::LParen, "'(' attendu après le nom de fonction")?;
        let ghost p1 = self.current as int;
        let mut arguments: Vec<Expression> = Vec::new();
        while !self.check(&TokenType::RParen)
            invariant_except_break
                self.ready(),
                self.tokens@ == t,
                self.file@ == f,
                p1 <= self.current,
                0 <= p1 < t.len(),
                t == old(self).tokens@,
                f == old(self).file@,
                old(self).current < p1,
                consume_at(t, old(self).current as int, TokenType::LParen, "'(' attendu après le nom de fonction"@, f).0 is Ok,
                consume_at(t, old(self).current as int, TokenType::LParen, "'(' attendu après le nom de fonction"@, f).1 == p1,
                arguments_at(t, p1, seq![], f) == arguments_at(t, self.current as int, exprs_view(arguments@), f),
            ensures
                self.ready(),
                self.tokens@ == t,
                self.file@ == f,
                p1 <= self.current,
                arguments_at(t, p1, seq![], f) == (Ok::<Seq<ExprView>, ErrorView>(exprs_view(arguments@)), self.current as int),
            decreases t.len() - self.current,
        {
            let ghost args_before = arguments@;
            let e = self.parse_expression()?;
            arguments.push(e);
            assert(arguments@.drop_last() =~= args_before);
            if self.check(&TokenType::Comma) {
                self.advance();
            } else {
                break;
            }
        }
        self.consume(TokenType::RParen, "')' attendu")?;
        Ok(
            Expression {
                span,
                kind: ExpressionKind::FunctionCall(FunctionCall { name, arguments, span }),
            },
        )
    }

    fn parse_return(&mut self) -> (r: Result<ReturnStatement, CompilerError>)
        requires
            old(self).ready(),
        ensures
            final(self).same_input(*old(self)),
            final(self).ready(),
            old(self).current <= final(self).current,
            !at_end(old(self).tokens@, old(self).current as int) ==> old(self).current < final(self).current,
            ({
                let (s, q) = return_at(old(self).tokens@, old(self).current as int, old(self).file@);
                final(self).current == q && agrees(r, s)
            }),
    {
        let span = self.peek().span;
        self.advance();
        let expr = self.parse_expression()?;
        self.consume(TokenType::Semicolon, "';' attendu")?;
        Ok(ReturnStatement { value: Some(expr), span })
    }

    fn parse_variable(&mut self) -> (r: Result<Variable, CompilerError>)
        requires
            old(self).ready(),
        ensures
            final(self).same_input(*old(self)),
            final(self).ready(),
            old(self).current <= final(self).current,
            !at_end(old(self).tokens@, old(self).current as int) ==> old(self).current < final(self).current,
            ({
                let (s, q) = variable_at(old(self).tokens@, old(self).current as int, old(self).file@);
                final(self).current == q && agrees(r, s)
            }),
    {
        let span = self.peek().span;
        let var_type = self.parse_type()?;
        let name = match self.advance().token_type {
            TokenType::Identifier(name) => name,
            _ => {
                return Err(
                    CompilerError {
                        file: self.file.clone(),
                        message: "nom de variable attendu".to_string(),
                        span: self.peek().span,
                    },
                );
            },
        };
        let mut value: Option<Expression> = None;
        if self.check(&TokenType::Assign) {
            self.advance();
            value = Some(self.parse_expression()?);
        }
        self.consume(TokenType::Semicolon, "';' attendu")?;
        Ok(Variable { name, var_type, value, span })
    }

    fn parse_statement(&mut self) -> (r: Result<Statement, CompilerError>)
        requires
            old(self).ready(),
        ensures
            final(self).same_input(*old(self)),
            final(self).ready(),
            old(self).current <= final(self).current,
            !at_end(old(self).tokens@, old(self).current as int) ==> old(self).current < final(self).current,
            ({
                let (s, q) = statement_at(old(self).tokens@, old(self).current as int, old(self).file@);
                final(self).current == q && agrees(r, s)
            }),
    {
        match &self.peek().token_type {
            TokenType::Return => {
                return Ok(Statement::Return(self.parse_return()?));
            },
            TokenType::TypeInt | TokenType::TypeFloat | TokenType::TypeText => {
                return Ok(Statement::VariableDeclaration(self.parse_variable()?));
            },
            _ => {},
        }
        let expr = self.parse_expression()?;
        self.consume(TokenType::Semicolon, "';' attendu")?;
        Ok(Statement::Expression(expr))
    }

    fn parse_body(&mut self) -> (r: Result<Vec<Statement>, CompilerError>)
        requires
            old(self).ready(),
        ensures
            final(self).same_input(*old(self)),
            final(self).ready(),
            old(self).current <= final(self).current,
            ({
                let (s, q) = body_at(old(self).tokens@, old(self).current as int, seq![], old(self).file@);
                &&& final(self).current == q
                &&& match r {
                    Ok(v) => s == Ok::<Seq<StatementView>, ErrorView>(v@.map_values(|st: Statement| st@)),
                    Err(e) => s == Err::<Seq<StatementView>, ErrorView>(e@),
                }
            }),
    {
        let ghost t = self.tokens@;
        let ghost f = self.file@;
        let ghost p0 = self.current as int;
        let mut statements: Vec<Statement> = Vec::new();
        assert(statements@.map_values(|st: Statement| st@) =~= Seq::<StatementView>::empty());
        while !self.check(&TokenType::RBrace) && !self.is_at_end()
            invariant
                self.ready(),
                self.tokens@ == t,
                self.file@ == f,
                t == old(self).tokens@,
                f == old(self).file@,
                p0 == old(self).current,
                p0 <= self.current,
                body_at(t, p0, seq![], f) == body_at(t, self.current as int, statements@.map_values(|st: Statement| st@), f),
            decreases t.len() - self.current,
        {
            let ghost before = statements@;
            let st = self.parse_statement()?;
            statements.push(st);
            assert(statements@.map_values(|st: Statement| st@) =~= before.map_values(|st: Statement| st@).push(st@));
        }
        Ok(statements)
    }

    fn parse_parameters(&mut self) -> (r: Result<Vec<Argument>, CompilerError>)
        requires
            old(self).ready(),
        ensures
            final(self).same_input(*old(self)),
            final(self).ready(),
            old(self).current <= final(self).current,
            ({
                let (s, q) = parameters_at(old(self).tokens@, old(self).current as int, seq![], old(self).file@);
                &&& final(self).current == q
                &&& match r {
                    Ok(v) => s == Ok::<Seq<ArgumentView>, ErrorView>(v@.map_values(|a: Argument| a@)),
                    Err(e) => s == Err::<Seq<ArgumentView>, ErrorView>(e@),
                }
            }),
    {
        let ghost t = self.tokens@;
        let ghost f = self.file@;
        let ghost p0 = self.current as int;
        let mut params: Vec<Argument> = Vec::new();
        assert(params@.map_values(|a: Argument| a@) =~= Seq::<ArgumentView>::empty());
        while !self.check(&TokenType::RParen)
            invariant
                self.ready(),
                self.tokens@ == t,
                self.file@ == f,
                t == old(self).tokens@,
                f == old(self).file@,
                p0 == old(self).current,
                p0 <= self.current,
                parameters_at(t, p0, seq![], f) == parameters_at(t, self.current as int, params@.map_values(|a: Argument| a@), f),
            decreases t.len() - self.current,
        {
            let arg_span = self.peek().span;
            let arg_type = self.parse_type()?;
            let name = match self.advance().token_type {
                TokenType::Identifier(name) => name,
                _ => {
                    return Err(
                        CompilerError {
                            file: self.file.clone(),
                            message: "nom d'argument attendu".to_string(),
                            span: self.peek().span,
                        },
                    );
                },
            };
            let ghost before = params@;
            let arg = Argument { name, arg_type, span: arg_span };
            params.push(arg);
            assert(params@.map_values(|a: Argument| a@) =~= before.map_values(|a: Argument| a@).push(params@.last()@));
            if self.check(&TokenType::Comma) {
                self.advance();
            }
        }
        Ok(params)
    }

    fn parse_function(&mut self) -> (r: Result<Function, CompilerError>)
        requires
            old(self).ready(),
        ensures
            final(self).same_input(*old(self)),
            final(self).ready(),
            old(self).current <= final(self).current,
            r is Ok ==> old(self).current < final(self).current,
            ({
                let (s, q) = function_at(old(self).tokens@, old(self).current as int, old(self).file@);
                final(self).current == q && agrees(r, s)
            }),
    {
        let start_span = self.peek().span;
        self.consume(TokenType::Function, "fonction")?;
        let name = match self.advance().token_type {
            TokenType::Identifier(name) => name,
            _ => {
                return Err(
                    CompilerError {
                        file: self.file.clone(),
                        message: "nom de fonction attendu".to_string(),
                        span: self.peek().span,
                    },
                );
            },
        };
        self.consume(TokenType::LParen, "'(' attendu")?;
        let parameters = self.parse_parameters()?;
        self.consume(TokenType::RParen, "')' attendu")?;
        let return_type_parse = self.parse_type()?;
        self.consume(TokenType::LBrace, "'{' attendu")?;
        let body = self.parse_body()?;
        self.consume(TokenType::RBrace, "'}' attendu")?;
        Ok(Function { name, parameters, return_type: return_type_parse, body, span: start_span })
    }

    fn parse_item(&mut self) -> (r: Result<FileItem, CompilerError>)
        requires
            old(self).ready(),
        ensures
            final(self).same_input(*old(self)),
            final(self).ready(),
            old(self).current <= final(self).current,
            r is Ok ==> old(self).current < final(self).current,
            ({
                let (s, q) = item_at(old(self).tokens@, old(self).current as int, old(self).file@);
                final(self).current == q && agrees(r, s)
            }),
    {
        match &self.peek().token_type {
            TokenType::Function => {
                return Ok(FileItem::Function(self.parse_function()?));
            },
            _ => {},
        }
        Err(
            CompilerError {
                file: self.file.clone(),
                message: "Item inattendu".to_string(),
                span: self.peek().span,
            },
        )
    }

    /// Reads the items of a source file up to the end token: only
    /// functions are accepted. On success the parser stands on the end
    /// token; on an error, where the error was met.
    pub fn parse(&mut self, path: String, content: String) -> (r: Result<SourceFile, CompilerError>)
        requires
            old(self).current < old(self).tokens@.len(),
            eof_ahead(old(self).tokens@, old(self).current as int),
        ensures
            final(self).same_input(*old(self)),
            ({
                let (s, q) = source_file_at(old(self).tokens@, old(self).current as int, path@, content@, old(self).file@);
                final(self).current == q && agrees(r, s)
            }),
    {
        self.parse_source_file(path, content)
    }

    fn parse_source_file(&mut self, path: String, content: String) -> (r: Result<SourceFile, CompilerError>)
        requires
            old(self).current < old(self).tokens@.len(),
            eof_ahead(old(self).tokens@, old(self).current as int),
        ensures
            final(self).same_input(*old(self)),
            ({
                let (s, q) = source_file_at(old(self).tokens@, old(self).current as int, path@, content@, old(self).file@);
                final(self).current == q && agrees(r, s)
            }),
    {
        let ghost t = self.tokens@;
        let ghost f = self.file@;
        let ghost p0 = self.current as int;
        let mut items: Vec<FileItem> = Vec::new();
        assert(items@.map_values(|i: FileItem| i@) =~= Seq::<FileItemView>::empty());
        while !self.is_at_end()
            invariant
                self.current < self.tokens@.len(),
                eof_ahead(self.tokens@, self.current as int),
                self.current > p0 || self.current == p0,
                self.tokens@ == t,
                self.file@ == f,
                t == old(self).tokens@,
                f == old(self).file@,
                p0 == old(self).current,
                0 <= p0 < t.len(),
                items_at(t, p0, seq![], f) == items_at(t, self.current as int, items@.map_values(|i: FileItem| i@), f),
            decreases t.len() - self.current,
        {
            let ghost before = items@;
            let item = self.parse_item()?;
            items.push(item);
            assert(items@.map_values(|i: FileItem| i@) =~= before.map_values(|i: FileItem| i@).push(items@.last()@));
        }
        Ok(SourceFile { path, content, items })
    }
}

/// Parses the tokens of one file into a program of that single file, whose
/// path is `file`.
pub fn parse_all_tokens(tokens: Vec<Token>, file: String, content: String) -> (r: Result<Program, CompilerError>)
    requires
        0 < tokens@.len(),
        eof_ahead(tokens@, 0),
    ensures
        agrees(r, program_of(tokens@, file@, content@)),
{
    let mut parser = Parser { tokens, current: 0, file: file.clone() };
    let mut files: Vec<SourceFile> = Vec::new();
    let source_file = parser.parse_source_file(file, content)?;
    files.push(source_file);
    let ghost sf = files@[0]@;
    assert(files@.map_values(|f: SourceFile| f@) =~= seq![sf]);
    Ok(Program { files })
}

// ---------------------------------------------------------------------------
// Type keywords.
/// The keyword that names a type: `entier`, `decimal`, `Texte`, `vide`.
pub open spec fn type_keyword(ty: Type) -> Seq<char> {
    match ty {
        Type::Int => "entier"@,
        Type::Float => "decimal"@,
        Type::Text => "Texte"@,
        Type::Void => "vide"@,
    }
}

/// The word that names a type reads back as that type: a token that the
/// lexer makes of the keyword of type `ty` is read by the parser as `ty`,
/// moving one token forward; so distinct type keywords give distinct types.
pub proof fn lemma_type_keyword_read(t: Seq<Token>, p: int, file: Seq<char>, ty: Type)
    requires
        0 <= p < t.len(),
        t[p].token_type@ == crate::lexer::keyword_kind(type_keyword(ty)),
    ensures
        type_at(t, p, file) == (Ok::<Type, ErrorView>(ty), p + 1),
{
    reveal_strlit("fonction");
    reveal_strlit("retourner");
    reveal_strlit("entier");
    reveal_strlit("decimal");
    reveal_strlit("Texte");
    reveal_strlit("vide");
    let words = seq!["fonction"@, "retourner"@, "entier"@, "decimal"@, "Texte"@, "vide"@];
    assert(words[0][0] == 'f' && words[1][0] == 'r' && words[2][0] == 'e' && words[3][0] == 'd'
        && words[4][0] == 'T' && words[5][0] == 'v');
    assert forall|i: int, j: int| 0 <= i < j < 6 implies words[i] != words[j] by {
        assert(words[i][0] != words[j][0]);
    }
    assert(!at_end(t, p));
}

/// A token that is no type keyword (nor the end token) is refused where a
/// type is expected.
pub proof fn lemma_non_type_refused(t: Seq<Token>, p: int, file: Seq<char>)
    requires
        0 <= p < t.len(),
        !(t[p].token_type is EOF),
        !(t[p].token_type is TypeInt || t[p].token_type is TypeFloat || t[p].token_type is TypeText
            || t[p].token_type is TypeVoid),
    ensures
        type_at(t, p, file).0 is Err,
{
}

} // verus!
