//! The lexer: from the characters of a line to tokens.
use vstd::prelude::*;
use crate::text::{string_push, str_eq};
use crate::structure::{Span, CompilerError, ErrorView, TokenType, TokenKind, Token, TokenView};

verus! {

broadcast use vstd::string::group_string_axioms;

// ---------------------------------------------------------------------------
// Character classes of `char`, which follow the Unicode tables of std.
/// A character of the ASCII range.
pub open spec fn is_ascii_char(c: char) -> bool {
    (c as u32) < 128
}

/// The Unicode `White_Space` property, which `char::is_whitespace` answers:
/// tab, line feed, vertical tab, form feed, carriage return, space, next
/// line, no-break space, ogham space mark, the spaces U+2000 to U+200A,
/// the line and paragraph separators, the narrow no-break space, the
/// medium mathematical space and the ideographic space.
pub open spec fn char_whitespace(c: char) -> bool {
    let n = c as u32;
    ||| 0x09 <= n <= 0x0D
    ||| n == 0x20
    ||| n == 0x85
    ||| n == 0xA0
    ||| n == 0x1680
    ||| 0x2000 <= n <= 0x200A
    ||| n == 0x2028
    ||| n == 0x2029
    ||| n == 0x202F
    ||| n == 0x205F
    ||| n == 0x3000
}

/// What `char::is_alphabetic` answers for a character beyond ASCII: the
/// Unicode `Alphabetic` property.
pub uninterp spec fn char_alphabetic(c: char) -> bool;

/// What `char::is_numeric` answers for a character beyond ASCII: the
/// Unicode general categories of numbers.
pub uninterp spec fn char_numeric(c: char) -> bool;

/// An alphabetic character: within ASCII the letters `a`-`z` and `A`-`Z`.
pub open spec fn alphabetic(c: char) -> bool {
    if is_ascii_char(c) {
        ('a' <= c && c <= 'z') || ('A' <= c && c <= 'Z')
    } else {
        char_alphabetic(c)
    }
}

/// A numeric character: within ASCII the digits `0`-`9`.
pub open spec fn numeric(c: char) -> bool {
    if is_ascii_char(c) {
        '0' <= c && c <= '9'
    } else {
        char_numeric(c)
    }
}

/// `char::is_whitespace`: true exactly for the `White_Space` characters.
#[verifier::external_body]
fn is_whitespace(c: char) -> (r: bool)
    ensures
        r == char_whitespace(c),
{
    c.is_whitespace()
}

/// `char::is_alphabetic`: within ASCII true exactly for the letters, as
/// the Unicode `Alphabetic` property holds there; beyond ASCII its result
/// is named, not stated.
#[verifier::external_body]
fn is_alphabetic(c: char) -> (r: bool)
    ensures
        r == alphabetic(c),
        !is_ascii_char(c) ==> r == char_alphabetic(c),
{
    c.is_alphabetic()
}

/// `char::is_numeric`: within ASCII true exactly for the digits `0`-`9`;
/// beyond ASCII its result is named, not stated.
#[verifier::external_body]
fn is_numeric(c: char) -> (r: bool)
    ensures
        r == numeric(c),
        !is_ascii_char(c) ==> r == char_numeric(c),
{
    c.is_numeric()
}

/// `char::is_alphanumeric`: true where `is_alphabetic` or `is_numeric` is,
/// as its documentation says.
#[verifier::external_body]
fn is_alphanumeric(c: char) -> (r: bool)
    ensures
        r == (alphabetic(c) || numeric(c)),
        !is_ascii_char(c) ==> r == (char_alphabetic(c) || char_numeric(c)),
{
    c.is_alphanumeric()
}

// ---------------------------------------------------------------------------
// What the lexer reads, stated over the characters of a line.
/// The first position at or after `i` that does not hold whitespace.
pub open spec fn skip_whitespace(s: Seq<char>, i: int) -> int
    decreases s.len() - i,
{
    if 0 <= i < s.len() && char_whitespace(s[i]) {
        skip_whitespace(s, i + 1)
    } else {
        i
    }
}

/// The characters from `i` up to `j`, or none where that is not a range
/// of `s`.
pub open spec fn chars_between(s: Seq<char>, i: int, j: int) -> Seq<char> {
    if 0 <= i <= j <= s.len() {
        s.subrange(i, j)
    } else {
        seq![]
    }
}

/// A character that may continue a word: alphabetic, numeric or `_`.
pub open spec fn is_word_char(c: char) -> bool {
    alphabetic(c) || numeric(c) || c == '_'
}

/// The first position at or after `i` that does not continue a word.
pub open spec fn word_end(s: Seq<char>, i: int) -> int
    decreases s.len() - i,
{
    if 0 <= i < s.len() && is_word_char(s[i]) {
        word_end(s, i + 1)
    } else {
        i
    }
}

/// The first position at or after `i` that is not numeric.
pub open spec fn number_end(s: Seq<char>, i: int) -> int
    decreases s.len() - i,
{
    if 0 <= i < s.len() && numeric(s[i]) {
        number_end(s, i + 1)
    } else {
        i
    }
}

/// The first position at or after `i` that holds `"`, or the end.
pub open spec fn quote_end(s: Seq<char>, i: int) -> int
    decreases s.len() - i,
{
    if 0 <= i < s.len() && s[i] != '"' {
        quote_end(s, i + 1)
    } else {
        i
    }
}

/// The kind of token a word is: one of the six keywords, else an identifier.
pub open spec fn keyword_kind(w: Seq<char>) -> TokenKind {
    if w == "fonction"@ {
        TokenKind::Function
    } else if w == "retourner"@ {
        TokenKind::Return
    } else if w == "entier"@ {
        TokenKind::TypeInt
    } else if w == "decimal"@ {
        TokenKind::TypeFloat
    } else if w == "Texte"@ {
        TokenKind::TypeText
    } else if w == "vide"@ {
        TokenKind::TypeVoid
    } else {
        TokenKind::Identifier(w)
    }
}

/// The token a single symbol character stands for, if it is one.
pub open spec fn symbol_kind(c: char) -> Option<TokenKind> {
    if c == '(' {
        Some(TokenKind::LParen)
    } else if c == ')' {
        Some(TokenKind::RParen)
    } else if c == '{' {
        Some(TokenKind::LBrace)
    } else if c == '}' {
        Some(TokenKind::RBrace)
    } else if c == ',' {
        Some(TokenKind::Comma)
    } else if c == ';' {
        Some(TokenKind::Semicolon)
    } else if c == '+' {
        Some(TokenKind::Plus)
    } else if c == '-' {
        Some(TokenKind::Minus)
    } else if c == '*' {
        Some(TokenKind::Multiply)
    } else if c == '/' {
        Some(TokenKind::Divide)
    } else if c == '=' {
        Some(TokenKind::Assign)
    } else {
        None
    }
}

/// The message for a character that starts no token.
pub open spec fn unexpected_char_message(c: char) -> Seq<char> {
    "Caractère inattendu '"@.push(c).push('\'')
}

/// The token that starts at or after position `cur` of line `line` (after
/// whitespace), or the error found there, with the position where reading
/// stopped.
pub open spec fn token_at(s: Seq<char>, cur: int, line: usize, file: Seq<char>) -> (
    Result<TokenView, ErrorView>,
    int,
) {
    let start = skip_whitespace(s, cur);
    if start >= s.len() {
        (
            Ok(TokenView { kind: TokenKind::EOF, span: Span { line, column: start as usize, length: 0 } }),
            start,
        )
    } else {
        let c = s[start];
        if c == '"' {
            let end = quote_end(s, start + 1);
            if end >= s.len() {
                (
                    Err(
                        ErrorView {
                            file,
                            message: "String non fermée"@,
                            span: Span { line, column: start as usize, length: 1 },
                        },
                    ),
                    end,
                )
            } else {
                (
                    Ok(
                        TokenView {
                            kind: TokenKind::StringLiteral(s.subrange(start + 1, end)),
                            span: Span {
                                line,
                                column: start as usize,
                                length: (end + 1 - start) as usize,
                            },
                        },
                    ),
                    end + 1,
                )
            }
        } else if alphabetic(c) || c == '_' {
            let end = word_end(s, start);
            (
                Ok(
                    TokenView {
                        kind: keyword_kind(s.subrange(start, end)),
                        span: Span { line, column: start as usize, length: (end - start) as usize },
                    },
                ),
                end,
            )
        } else if numeric(c) {
            let end = number_end(s, start);
            (
                Ok(
                    TokenView {
                        kind: TokenKind::Number(s.subrange(start, end)),
                        span: Span { line, column: start as usize, length: (end - start) as usize },
                    },
                ),
                end,
            )
        } else {
            match symbol_kind(c) {
                Some(k) => (
                    Ok(TokenView { kind: k, span: Span { line, column: start as usize, length: 1 } }),
                    start + 1,
                ),
                None => (
                    Err(
                        ErrorView {
                            file,
                            message: unexpected_char_message(c),
                            span: Span { line, column: start as usize, length: 1 },
                        },
                    ),
                    start + 1,
                ),
            }
        }
    }
}

/// The tokens of a line from position `cur` on, up to (and without) the
/// end-of-line token, or the first error.
pub open spec fn tokens_from(s: Seq<char>, cur: int, line: usize, file: Seq<char>) -> Result<
    Seq<TokenView>,
    ErrorView,
>
    decreases s.len() - cur,
{
    if cur < 0 {
        Ok(seq![])
    } else {
        let (r, p) = token_at(s, cur, line, file);
        match r {
            Err(e) => Err(e),
            Ok(t) => if t.kind is EOF {
                Ok(seq![])
            } else {
                proof {
                    lemma_token_progress(s, cur, line, file);
                }
                match tokens_from(s, p, line, file) {
                    Ok(ts) => Ok(seq![t] + ts),
                    Err(e) => Err(e),
                }
            },
        }
    }
}

/// The tokens of a whole line.
pub open spec fn line_tokens(s: Seq<char>, line: usize, file: Seq<char>) -> Result<
    Seq<TokenView>,
    ErrorView,
> {
    tokens_from(s, 0, line, file)
}

/// `ts` put before the tokens of `r`, where `r` holds tokens.
pub open spec fn prepend_tokens(ts: Seq<TokenView>, r: Result<Seq<TokenView>, ErrorView>) -> Result<
    Seq<TokenView>,
    ErrorView,
> {
    match r {
        Ok(us) => Ok(ts + us),
        Err(e) => Err(e),
    }
}

/// The tokens of lines numbered from 1, one line after the other, or the
/// first error met.
pub open spec fn lines_tokens(lines: Seq<Seq<char>>, file: Seq<char>) -> Result<
    Seq<TokenView>,
    ErrorView,
>
    decreases lines.len(),
{
    if lines.len() == 0 {
        Ok(seq![])
    } else {
        match lines_tokens(lines.drop_last(), file) {
            Err(e) => Err(e),
            Ok(ts) => prepend_tokens(ts, line_tokens(lines.last(), lines.len() as usize, file)),
        }
    }
}

/// The end token that closes the tokens of a file.
pub open spec fn end_of_file() -> TokenView {
    TokenView { kind: TokenKind::EOF, span: Span { line: 0, column: 0, length: 0 } }
}

/// The tokens of a file given by its lines: those of each line, numbered
/// from 1, then the end token; or the first error met.
pub open spec fn file_tokens(lines: Seq<Seq<char>>, file: Seq<char>) -> Result<
    Seq<TokenView>,
    ErrorView,
> {
    match lines_tokens(lines, file) {
        Ok(ts) => Ok(ts.push(end_of_file())),
        Err(e) => Err(e),
    }
}

// ---------------------------------------------------------------------------
// Facts about the scanning positions.
/// A token other than the end-of-line token takes at least one character.
pub proof fn lemma_token_progress(s: Seq<char>, cur: int, line: usize, file: Seq<char>)
    requires
        0 <= cur,
    ensures
        ({
            let (r, p) = token_at(s, cur, line, file);
            (r is Ok && !(r->Ok_0.kind is EOF)) ==> cur < p <= s.len()
        }),
{
    lemma_skip_whitespace(s, cur);
    let start = skip_whitespace(s, cur);
    if start < s.len() {
        lemma_quote_end(s, start + 1);
        lemma_word_end(s, start + 1);
        lemma_number_end(s, start + 1);
        if alphabetic(s[start]) || s[start] == '_' {
            assert(is_word_char(s[start]));
        }
    }
}

proof fn lemma_skip_whitespace(s: Seq<char>, i: int)
    ensures
        i <= skip_whitespace(s, i),
        0 <= i <= s.len() ==> skip_whitespace(s, i) <= s.len(),
        forall|k: int| i <= k < skip_whitespace(s, i) ==> char_whitespace(#[trigger] s[k]),
    decreases s.len() - i,
{
    if 0 <= i < s.len() && char_whitespace(s[i]) {
        lemma_skip_whitespace(s, i + 1);
    }
}

proof fn lemma_word_end(s: Seq<char>, i: int)
    ensures
        i <= word_end(s, i),
        0 <= i <= s.len() ==> word_end(s, i) <= s.len(),
        forall|k: int| i <= k < word_end(s, i) ==> is_word_char(#[trigger] s[k]),
    decreases s.len() - i,
{
    if 0 <= i < s.len() && is_word_char(s[i]) {
        lemma_word_end(s, i + 1);
    }
}

proof fn lemma_number_end(s: Seq<char>, i: int)
    ensures
        i <= number_end(s, i),
        0 <= i <= s.len() ==> number_end(s, i) <= s.len(),
        forall|k: int| i <= k < number_end(s, i) ==> numeric(#[trigger] s[k]),
    decreases s.len() - i,
{
    if 0 <= i < s.len() && numeric(s[i]) {
        lemma_number_end(s, i + 1);
    }
}

proof fn lemma_quote_end(s: Seq<char>, i: int)
    ensures
        i <= quote_end(s, i),
        0 <= i <= s.len() ==> quote_end(s, i) <= s.len(),
        forall|k: int| i <= k < quote_end(s, i) ==> #[trigger] s[k] != '"',
    decreases s.len() - i,
{
    if 0 <= i < s.len() && s[i] != '"' {
        lemma_quote_end(s, i + 1);
    }
}

// ---------------------------------------------------------------------------
// Laws of the lexer.
/// The tokens of a line hold no end token, and each carries the line's
/// number.
pub proof fn lemma_line_tokens_shape(s: Seq<char>, cur: int, line: usize, file: Seq<char>)
    requires
        0 <= cur,
    ensures
        tokens_from(s, cur, line, file) matches Ok(ts) ==> forall|i: int|
            0 <= i < ts.len() ==> !(#[trigger] ts[i].kind is EOF) && ts[i].span.line == line,
    decreases s.len() - cur,
{
    let (r, p) = token_at(s, cur, line, file);
    if let Ok(t) = r {
        if !(t.kind is EOF) {
            lemma_token_progress(s, cur, line, file);
            lemma_line_tokens_shape(s, p, line, file);
            if let Ok(ts) = tokens_from(s, p, line, file) {
                assert forall|i: int| 0 <= i < seq![t].add(ts).len() implies !(#[trigger] seq![t].add(ts)[i].kind is EOF)
                    && seq![t].add(ts)[i].span.line == line by {
                    if i > 0 {
                        assert(seq![t].add(ts)[i] == ts[i - 1]);
                    }
                }
            }
        }
    }
}

/// The tokens of a file end with the one end token, and every token before
/// it carries the number of a line of the file, from 1.
pub proof fn lemma_file_tokens_shape(lines: Seq<Seq<char>>, file: Seq<char>)
    requires
        lines.len() <= usize::MAX,
    ensures
        file_tokens(lines, file) matches Ok(ts) ==> {
            &&& ts.len() > 0
            &&& ts.last() == end_of_file()
            &&& forall|i: int|
                0 <= i < ts.len() - 1 ==> !(#[trigger] ts[i].kind is EOF) && 1 <= ts[i].span.line
                    <= lines.len()
        },
{
    lemma_lines_tokens_shape(lines, file);
}

/// The tokens of lines numbered from 1 hold no end token, and each carries
/// the number of one of the lines.
pub proof fn lemma_lines_tokens_shape(lines: Seq<Seq<char>>, file: Seq<char>)
    requires
        lines.len() <= usize::MAX,
    ensures
        lines_tokens(lines, file) matches Ok(ts) ==> forall|i: int|
            0 <= i < ts.len() ==> !(#[trigger] ts[i].kind is EOF) && 1 <= ts[i].span.line <= lines.len(),
    decreases lines.len(),
{
    if lines.len() > 0 {
        lemma_lines_tokens_shape(lines.drop_last(), file);
        let n = lines.len() as usize;
        lemma_line_tokens_shape(lines.last(), 0, n, file);
        if let Ok(ts) = lines_tokens(lines.drop_last(), file) {
            if let Ok(us) = line_tokens(lines.last(), n, file) {
                assert forall|i: int| 0 <= i < (ts + us).len() implies !(#[trigger] (ts + us)[i].kind is EOF)
                    && 1 <= (ts + us)[i].span.line <= lines.len() by {
                    if i >= ts.len() {
                        assert((ts + us)[i] == us[i - ts.len()]);
                    } else {
                        assert((ts + us)[i] == ts[i]);
                    }
                }
            }
        }
    }
}

// ---------------------------------------------------------------------------
// The lexer.
/// Moves `current` past the whitespace that starts there.
pub fn pass_whitespace(chars: &[char], current: &mut usize)
    ensures
        *final(current) == skip_whitespace(chars@, *old(current) as int),
{
    while *current < chars.len() && is_whitespace(chars[*current])
        invariant
            skip_whitespace(chars@, *current as int) == skip_whitespace(chars@, *old(current) as int),
        decreases chars@.len() - *current,
    {
        *current += 1;
    }
}

/// Reads the word (alphabetic, numeric and `_` characters) that starts at
/// `current`, and moves `current` past it.
pub fn get_word(chars: &[char], current: &mut usize) -> (word: String)
    ensures
        *final(current) == word_end(chars@, *old(current) as int),
        word@ == chars_between(chars@, *old(current) as int, *final(current) as int),
{
    let mut word = String::new();
    let ghost start = *current as int;
    proof {
        lemma_word_end(chars@, start);
    }
    while *current < chars.len() && (is_alphanumeric(chars[*current]) || chars[*current] == '_')
        invariant
            0 <= start <= *current,
            word_end(chars@, *current as int) == word_end(chars@, start),
            word@ == chars_between(chars@, start, *current as int),
            *current == start || *current <= chars@.len(),
        decreases chars@.len() - *current,
    {
        assert(word@ =~= chars@.subrange(start, *current as int));
        string_push(&mut word, chars[*current]);
        *current += 1;
        assert(word@ =~= chars_between(chars@, start, *current as int));
    }
    word
}

/// Reads the numeric characters that start at `current`, and moves
/// `current` past them.
pub fn get_number(chars: &[char], current: &mut usize) -> (number: String)
    ensures
        *final(current) == number_end(chars@, *old(current) as int),
        number@ == chars_between(chars@, *old(current) as int, *final(current) as int),
{
    let mut number = String::new();
    let ghost start = *current as int;
    while *current < chars.len() && is_numeric(chars[*current])
        invariant
            0 <= start <= *current,
            number_end(chars@, *current as int) == number_end(chars@, start),
            number@ == chars_between(chars@, start, *current as int),
            *current == start || *current <= chars@.len(),
        decreases chars@.len() - *current,
    {
        assert(number@ =~= chars@.subrange(start, *current as int));
        string_push(&mut number, chars[*current]);
        *current += 1;
        assert(number@ =~= chars_between(chars@, start, *current as int));
    }
    number
}

/// Reads a text literal whose opening `"` stands at `current`: the
/// characters up to the closing `"`, and moves `current` past it; an error
/// where the line ends first, with `current` at the end of the line.
fn get_string(chars: &[char], current: &mut usize) -> (r: Result<String, String>)
    requires
        *old(current) < chars.len(),
    ensures
        ({
            let end = quote_end(chars@, *old(current) + 1);
            if end >= chars@.len() {
                &&& r is Err
                &&& r->Err_0@ == "String non fermée"@
                &&& *final(current) == end
            } else {
                &&& r is Ok
                &&& r->Ok_0@ == chars@.subrange(*old(current) + 1, end)
                &&& *final(current) == end + 1
            }
        }),
{
    let mut result = String::new();
    *current += 1;
    let ghost start = *current as int;
    proof {
        lemma_quote_end(chars@, start);
    }
    while *current < chars.len() && chars[*current] != '"'
        invariant
            0 <= start <= *current,
            quote_end(chars@, *current as int) == quote_end(chars@, start),
            *current <= chars.len(),
            result@ == chars@.subrange(start, *current as int),
        decreases chars@.len() - *current,
    {
        assert(result@ =~= chars@.subrange(start, *current as int));
        string_push(&mut result, chars[*current]);
        *current += 1;
        assert(result@ =~= chars@.subrange(start, *current as int));
    }
    if *current >= chars.len() {
        return Err("String non fermée".to_string());
    }
    *current += 1;
    Ok(result)
}

/// Reads the token that starts at `current` after whitespace, and moves
/// `current` past it: a text literal, a keyword or identifier, a number, a
/// symbol, or the end-of-line token where the line has no more; an error
/// for an unclosed text or a character that starts no token.
pub fn get_token(chars: &[char], current: &mut usize, line: usize, file: &str) -> (r: Result<
    Token,
    CompilerError,
>)
    ensures
        ({
            let (t, p) = token_at(chars@, *old(current) as int, line, file@);
            &&& *final(current) == p
            &&& match r {
                Ok(tok) => t == Ok::<TokenView, ErrorView>(tok@),
                Err(e) => t == Err::<TokenView, ErrorView>(e@),
            }
        }),
{
    pass_whitespace(chars, current);
    proof {
        lemma_skip_whitespace(chars@, *old(current) as int);
    }
    if *current >= chars.len() {
        return Ok(Token { token_type: TokenType::EOF, span: Span { line, column: *current, length: 0 } });
    }
    let start = *current;
    let c = chars[start];
    if c == '"' {
        proof {
            lemma_quote_end(chars@, start + 1);
        }
        match get_string(chars, current) {
            Err(message) => {
                return Err(
                    CompilerError {
                        file: file.to_string(),
                        message,
                        span: Span { line, column: start, length: 1 },
                    },
                );
            },
            Ok(string) => {
                return Ok(
                    Token {
                        token_type: TokenType::StringLiteral(string),
                        span: Span { line, column: start, length: *current - start },
                    },
                );
            },
        }
    }
    if is_alphabetic(c) || c == '_' {
        proof {
            lemma_word_end(chars@, start as int);
        }
        let word = get_word(chars, current);
        let token_type = if str_eq(word.as_str(), "fonction") {
            TokenType::Function
        } else if str_eq(word.as_str(), "retourner") {
            TokenType::Return
        } else if str_eq(word.as_str(), "entier") {
            TokenType::TypeInt
        } else if str_eq(word.as_str(), "decimal") {
            TokenType::TypeFloat
        } else if str_eq(word.as_str(), "Texte") {
            TokenType::TypeText
        } else if str_eq(word.as_str(), "vide") {
            TokenType::TypeVoid
        } else {
            TokenType::Identifier(word)
        };
        return Ok(Token { token_type, span: Span { line, column: start, length: *current - start } });
    }
    if is_numeric(c) {
        proof {
            lemma_number_end(chars@, start as int);
        }
        let number = get_number(chars, current);
        return Ok(
            Token {
                token_type: TokenType::Number(number),
                span: Span { line, column: start, length: *current - start },
            },
        );
    }
    *current += 1;
    let token_type = if c == '(' {
        TokenType::LParen
    } else if c == ')' {
        TokenType::RParen
    } else if c == '{' {
        TokenType::LBrace
    } else if c == '}' {
        TokenType::RBrace
    } else if c == ',' {
        TokenType::Comma
    } else if c == ';' {
        TokenType::Semicolon
    } else if c == '+' {
        TokenType::Plus
    } else if c == '-' {
        TokenType::Minus
    } else if c == '*' {
        TokenType::Multiply
    } else if c == '/' {
        TokenType::Divide
    } else if c == '=' {
        TokenType::Assign
    } else {
        let mut message = "Caractère inattendu '".to_string();
        string_push(&mut message, c);
        string_push(&mut message, '\'');
        return Err(
            CompilerError { file: file.to_string(), message, span: Span { line, column: start, length: 1 } },
        );
    };
    Ok(Token { token_type, span: Span { line, column: start, length: 1 } })
}

/// The tokens of one line, numbered `line_number`, without an end token;
/// or the first error met.
pub fn tokenize_line(line_content: &str, line_number: usize, file: &str) -> (r: Result<
    Vec<Token>,
    CompilerError,
>)
    ensures
        match r {
            Ok(ts) => line_tokens(line_content@, line_number, file@) == Ok::<
                Seq<TokenView>,
                ErrorView,
            >(ts@.map_values(|t: Token| t@)),
            Err(e) => line_tokens(line_content@, line_number, file@) == Err::<
                Seq<TokenView>,
                ErrorView,
            >(e@),
        },
{
    let chars: Vec<char> = chars_of(line_content);
    let mut current: usize = 0;
    let mut tokens: Vec<Token> = Vec::new();
    loop
        invariant
            chars@ == line_content@,
            current <= chars@.len(),
            line_tokens(line_content@, line_number, file@) == prepend_tokens(
                tokens@.map_values(|t: Token| t@),
                tokens_from(chars@, current as int, line_number, file@),
            ),
        decreases chars@.len() - current,
    {
        let ghost before = current as int;
        let token = get_token(chars.as_slice(), &mut current, line_number, file);
        proof {
            lemma_token_progress(chars@, before, line_number, file@);
        }
        let token = match token {
            Ok(t) => t,
            Err(e) => {
                return Err(e);
            },
        };
        if let TokenType::EOF = token.token_type {
            assert(tokens@.map_values(|t: Token| t@) + seq![] =~= tokens@.map_values(|t: Token| t@));
            return Ok(tokens);
        }
        let ghost old_tokens = tokens@.map_values(|t: Token| t@);
        let ghost tv = token@;
        tokens.push(token);
        proof {
            assert(tokens@.map_values(|t: Token| t@) =~= old_tokens.push(tv));
            match tokens_from(chars@, current as int, line_number, file@) {
                Ok(us) => {
                    assert(old_tokens + (seq![tv] + us) =~= old_tokens.push(tv) + us);
                },
                Err(_) => {},
            }
        }
    }
}

/// The tokens of a file given by its lines, numbered from 1, followed by the
/// end token; or the first error met.
pub fn tokenize_lines(lines: &[String], path: &str) -> (r: Result<Vec<Token>, CompilerError>)
    requires
        lines@.len() < usize::MAX,
    ensures
        match r {
            Ok(ts) => file_tokens(lines@.map_values(|l: String| l@), path@) == Ok::<
                Seq<TokenView>,
                ErrorView,
            >(ts@.map_values(|t: Token| t@)),
            Err(e) => file_tokens(lines@.map_values(|l: String| l@), path@) == Err::<
                Seq<TokenView>,
                ErrorView,
            >(e@),
        },
{
    let ghost lv = lines@.map_values(|l: String| l@);
    let mut tokens: Vec<Token> = Vec::new();
    let mut i: usize = 0;
    assert(lv.subrange(0, 0) =~= Seq::<Seq<char>>::empty());
    assert(tokens@.map_values(|t: Token| t@) =~= Seq::<TokenView>::empty());
    while i < lines.len()
        invariant
            i <= lines@.len() < usize::MAX,
            lv == lines@.map_values(|l: String| l@),
            lines_tokens(lv.subrange(0, i as int), path@) == Ok::<Seq<TokenView>, ErrorView>(
                tokens@.map_values(|t: Token| t@),
            ),
        decreases lines@.len() - i,
    {
        let ghost sub = lv.subrange(0, i + 1);
        assert(sub.drop_last() =~= lv.subrange(0, i as int));
        let mut line_tokens = match tokenize_line(lines[i].as_str(), i + 1, path) {
            Ok(ts) => ts,
            Err(e) => {
                proof {
                    lemma_lines_tokens_err(lv, i as int + 1, path@);
                }
                return Err(e);
            },
        };
        let ghost before = tokens@.map_values(|t: Token| t@);
        let ghost added = line_tokens@.map_values(|t: Token| t@);
        tokens.append(&mut line_tokens);
        assert(tokens@.map_values(|t: Token| t@) =~= before + added);
        i = i + 1;
    }
    assert(lv.subrange(0, i as int) =~= lv);
    let ghost before = tokens@.map_values(|t: Token| t@);
    tokens.push(Token { token_type: TokenType::EOF, span: Span { line: 0, column: 0, length: 0 } });
    assert(tokens@.map_values(|t: Token| t@) =~= before.push(end_of_file()));
    Ok(tokens)
}

/// Where the first `k` lines give an error, all the lines give that error.
proof fn lemma_lines_tokens_err(lines: Seq<Seq<char>>, k: int, file: Seq<char>)
    requires
        0 <= k <= lines.len(),
        lines_tokens(lines.subrange(0, k), file) is Err,
    ensures
        lines_tokens(lines, file) == lines_tokens(lines.subrange(0, k), file),
    decreases lines.len() - k,
{
    if k == lines.len() {
        assert(lines.subrange(0, k) =~= lines);
    } else {
        assert(lines.drop_last().subrange(0, k) =~= lines.subrange(0, k));
        lemma_lines_tokens_err(lines.drop_last(), k, file);
    }
}

/// The characters of a text, in order.
fn chars_of(text: &str) -> (chars: Vec<char>)
    ensures
        chars@ == text@,
{
    let mut chars: Vec<char> = Vec::new();
    for c in it: text.chars()
        invariant
            chars@ == it.seq().take(it.index() as int),
    {
        chars.push(c);
    }
    chars
}

/// A word runs as far as word characters go: from a position `i` of the
/// line, `word_end` passes every letter, digit and `_`, ASCII or not, and
/// stops on the first other character or at the end of the line.
pub proof fn lemma_word_is_longest(s: Seq<char>, i: int)
    requires
        0 <= i <= s.len(),
    ensures
        i <= word_end(s, i) <= s.len(),
        forall|k: int| i <= k < word_end(s, i) ==> is_word_char(#[trigger] s[k]),
        word_end(s, i) == s.len() || !is_word_char(s[word_end(s, i)]),
    decreases s.len() - i,
{
    if i < s.len() && is_word_char(s[i]) {
        lemma_word_is_longest(s, i + 1);
    }
}

/// A token that starts with a letter (any character that `char::is_alphabetic`
/// accepts, beyond ASCII too) or `_` is a word, never an error: it takes the
/// longest run of letters, digits and `_` from there, its span covers that
/// run, and it is the keyword that the run spells, or else an identifier of
/// that text.
pub proof fn lemma_word_token(s: Seq<char>, cur: int, line: usize, file: Seq<char>)
    requires
        0 <= cur,
        skip_whitespace(s, cur) < s.len(),
        alphabetic(s[skip_whitespace(s, cur)]) || s[skip_whitespace(s, cur)] == '_',
    ensures
        ({
            let start = skip_whitespace(s, cur);
            let (r, p) = token_at(s, cur, line, file);
            &&& r is Ok
            &&& start < p <= s.len()
            &&& forall|k: int| start <= k < p ==> is_word_char(#[trigger] s[k])
            &&& p == s.len() || !is_word_char(s[p])
            &&& r->Ok_0.span == Span { line, column: start as usize, length: (p - start) as usize }
            &&& r->Ok_0.kind == keyword_kind(s.subrange(start, p))
        }),
{
    let start = skip_whitespace(s, cur);
    lemma_skip_whitespace(s, cur);
    lemma_word_is_longest(s, start);
    assert(is_word_char(s[start]));
    lemma_word_is_longest(s, start + 1);
}

} // verus!
