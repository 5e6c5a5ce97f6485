//! The concrete syntax of the language, as functions on a text and a position
//! in it. Each gives the tree that starts at the position and the position
//! behind it, or `None` where the text does not continue with such a tree.
//!
//! Choices are ordered: the first alternative that matches is taken. White
//! space may stand before every token.
//!
//! Where a rule goes on behind a token, its definition asks that the token
//! ends behind the place where the rule began and within the text. That is
//! true of every token; it is written out so that the definitions are seen
//! to end.
//!
//! ```text
//! program   = function* end-of-text
//! function  = "fn" ident "(" (ident ("," ident)*)? ")" block
//! block     = "{" statement* "}"
//! statement = let ";" | return ";" | if | for | assign ";" | expr ";"
//! let       = "let" ident "=" expr
//! return    = "return" expr
//! if        = "if" expr block ("else" block)?
//! for       = "for" "(" let ";" expr ";" expr ")" block
//! assign    = ident "=" expr
//! expr      = expr1 (("+" | "-") expr)?
//! expr1     = expr2 (("*" | "/") expr1)?
//! expr2     = call | expr3
//! call      = ident "(" (expr ("," expr)*)? ")"
//! expr3     = number | string | ident | "(" expr ")"
//! ```

use vstd::prelude::*;
use crate::internal_representations::gast::{
    ExprView,
    FunctionView,
    Operator,
    ProgramView,
    StmtView,
};

verus! {

/// Whether the character is white space.
pub open spec fn is_space(c: char) -> bool {
    c == ' ' || c == '\n' || c == '\t' || c == '\r'
}

/// Whether the character is a decimal digit.
pub open spec fn is_digit(c: char) -> bool {
    '0' <= c && c <= '9'
}

/// Whether the character can begin an identifier.
pub open spec fn is_letter(c: char) -> bool {
    ('a' <= c && c <= 'z') || ('A' <= c && c <= 'Z') || c == '_'
}

/// Whether the character can stand inside an identifier.
pub open spec fn is_word(c: char) -> bool {
    is_letter(c) || is_digit(c)
}

/// The first position at or behind `pos` that holds no white space.
pub open spec fn skip_spaces(s: Seq<char>, pos: int) -> int
    decreases s.len() - pos,
{
    if 0 <= pos < s.len() && is_space(s[pos]) {
        skip_spaces(s, pos + 1)
    } else {
        pos
    }
}

/// The first position at or behind `pos` that holds no identifier character.
pub open spec fn word_end(s: Seq<char>, pos: int) -> int
    decreases s.len() - pos,
{
    if 0 <= pos < s.len() && is_word(s[pos]) {
        word_end(s, pos + 1)
    } else {
        pos
    }
}

/// The first position at or behind `pos` that holds no digit.
pub open spec fn digits_end(s: Seq<char>, pos: int) -> int
    decreases s.len() - pos,
{
    if 0 <= pos < s.len() && is_digit(s[pos]) {
        digits_end(s, pos + 1)
    } else {
        pos
    }
}

/// The first position at or behind `pos` that holds a double quote, or the
/// length of the text.
pub open spec fn quote_end(s: Seq<char>, pos: int) -> int
    decreases s.len() - pos,
{
    if 0 <= pos < s.len() && s[pos] != '"' {
        quote_end(s, pos + 1)
    } else {
        pos
    }
}

/// The number that the decimal digits write.
pub open spec fn digits_value(digits: Seq<char>) -> int
    decreases digits.len(),
{
    if digits.len() == 0 {
        0
    } else {
        digits_value(digits.drop_last()) * 10 + (digits.last() as int - '0' as int)
    }
}

/// The one-character token `c`.
pub open spec fn symbol(s: Seq<char>, pos: int, c: char) -> Option<int> {
    let p = skip_spaces(s, pos);
    if 0 <= p < s.len() && s[p] == c {
        Some(p + 1)
    } else {
        None
    }
}

/// The word `word`, not followed by an identifier character.
pub open spec fn keyword(s: Seq<char>, pos: int, word: Seq<char>) -> Option<int> {
    let p = skip_spaces(s, pos);
    let e = p + word.len();
    if 0 <= p && e <= s.len() && s.subrange(p, e) == word && !(e < s.len() && is_word(s[e])) {
        Some(e)
    } else {
        None
    }
}

/// An identifier: a letter or underscore, then letters, digits and
/// underscores.
pub open spec fn identifier(s: Seq<char>, pos: int) -> Option<(Seq<char>, int)> {
    let p = skip_spaces(s, pos);
    if 0 <= p < s.len() && is_letter(s[p]) {
        Some((s.subrange(p, word_end(s, p)), word_end(s, p)))
    } else {
        None
    }
}

/// A number: decimal digits whose value fits a 64-bit signed integer.
pub open spec fn number(s: Seq<char>, pos: int) -> Option<(i64, int)> {
    let p = skip_spaces(s, pos);
    if 0 <= p < s.len() && is_digit(s[p]) {
        let value = digits_value(s.subrange(p, digits_end(s, p)));
        if value <= i64::MAX {
            Some((value as i64, digits_end(s, p)))
        } else {
            None
        }
    } else {
        None
    }
}

/// A string: the characters between a double quote and the next one.
pub open spec fn string_literal(s: Seq<char>, pos: int) -> Option<(Seq<char>, int)> {
    let p = skip_spaces(s, pos);
    if 0 <= p < s.len() && s[p] == '"' && quote_end(s, p + 1) < s.len() {
        Some((s.subrange(p + 1, quote_end(s, p + 1)), quote_end(s, p + 1) + 1))
    } else {
        None
    }
}

/// The word that begins a function.
pub open spec fn word_fn() -> Seq<char> {
    seq!['f', 'n']
}

/// The word that begins a binding.
pub open spec fn word_let() -> Seq<char> {
    seq!['l', 'e', 't']
}

/// The word that begins a return.
pub open spec fn word_return() -> Seq<char> {
    seq!['r', 'e', 't', 'u', 'r', 'n']
}

/// The word that begins a conditional.
pub open spec fn word_if() -> Seq<char> {
    seq!['i', 'f']
}

/// The word that begins the second body of a conditional.
pub open spec fn word_else() -> Seq<char> {
    seq!['e', 'l', 's', 'e']
}

/// The word that begins a loop.
pub open spec fn word_for() -> Seq<char> {
    seq!['f', 'o', 'r']
}

/// `expr3 = number | string | ident | "(" expr ")"`
pub open spec fn expr3(s: Seq<char>, pos: int) -> Option<(ExprView, int)>
    decreases s.len() - pos, 0int,
{
    match number(s, pos) {
        Some((n, p)) => Some((ExprView::IntLiteral(n), p)),
        None => match string_literal(s, pos) {
            Some((text, p)) => Some((ExprView::StringLiteral(text), p)),
            None => match identifier(s, pos) {
                Some((name, p)) => Some((ExprView::Name(name), p)),
                None => match symbol(s, pos, '(') {
                    Some(p) if pos < p <= s.len() => match expr(s, p) {
                        Some((e, p2)) => match symbol(s, p2, ')') {
                            Some(p3) => Some((e, p3)),
                            None => None,
                        },
                        None => None,
                    },
                    _ => None,
                },
            },
        },
    }
}

/// The rest of an argument list behind its first expression:
/// `("," expr)*`.
pub open spec fn more_args(s: Seq<char>, pos: int) -> (Seq<ExprView>, int)
    decreases s.len() - pos, 6int,
{
    match symbol(s, pos, ',') {
        Some(p) if pos < p <= s.len() => match expr(s, p) {
            Some((e, p2)) if p < p2 <= s.len() => {
                let (rest, p3) = more_args(s, p2);
                (seq![e] + rest, p3)
            },
            _ => (Seq::empty(), pos),
        },
        _ => (Seq::empty(), pos),
    }
}

/// `(expr ("," expr)*)?`
pub open spec fn args(s: Seq<char>, pos: int) -> (Seq<ExprView>, int)
    decreases s.len() - pos, 7int,
{
    match expr(s, pos) {
        Some((e, p)) if pos < p <= s.len() => {
            let (rest, p2) = more_args(s, p);
            (seq![e] + rest, p2)
        },
        _ => (Seq::empty(), pos),
    }
}

/// `call = ident "(" args ")"`
pub open spec fn call_expr(s: Seq<char>, pos: int) -> Option<(ExprView, int)>
    decreases s.len() - pos, 1int,
{
    match identifier(s, pos) {
        Some((name, p)) => match symbol(s, p, '(') {
            Some(p2) if pos < p2 <= s.len() => {
                let (values, p3) = args(s, p2);
                match symbol(s, p3, ')') {
                    Some(p4) => Some((ExprView::Call(name, values), p4)),
                    None => None,
                }
            },
            _ => None,
        },
        None => None,
    }
}

/// `expr2 = call | expr3`
pub open spec fn expr2(s: Seq<char>, pos: int) -> Option<(ExprView, int)>
    decreases s.len() - pos, 2int,
{
    match call_expr(s, pos) {
        Some(found) => Some(found),
        None => expr3(s, pos),
    }
}

/// `expr1 = expr2 (("*" | "/") expr1)?`
pub open spec fn expr1(s: Seq<char>, pos: int) -> Option<(ExprView, int)>
    decreases s.len() - pos, 3int,
{
    match expr2(s, pos) {
        Some((left, p)) => {
            let op = match symbol(s, p, '*') {
                Some(p2) => Some((Operator::Mul, p2)),
                None => match symbol(s, p, '/') {
                    Some(p2) => Some((Operator::Div, p2)),
                    None => None,
                },
            };
            match op {
                Some((op, p2)) if pos < p2 <= s.len() => match expr1(s, p2) {
                    Some((right, p3)) => Some(
                        (ExprView::Binary(op, Box::new(left), Box::new(right)), p3),
                    ),
                    None => Some((left, p)),
                },
                _ => Some((left, p)),
            }
        },
        None => None,
    }
}

/// `expr = expr1 (("+" | "-") expr)?`
pub open spec fn expr(s: Seq<char>, pos: int) -> Option<(ExprView, int)>
    decreases s.len() - pos, 4int,
{
    match expr1(s, pos) {
        Some((left, p)) => {
            let op = match symbol(s, p, '+') {
                Some(p2) => Some((Operator::Add, p2)),
                None => match symbol(s, p, '-') {
                    Some(p2) => Some((Operator::Sub, p2)),
                    None => None,
                },
            };
            match op {
                Some((op, p2)) if pos < p2 <= s.len() => match expr(s, p2) {
                    Some((right, p3)) => Some(
                        (ExprView::Binary(op, Box::new(left), Box::new(right)), p3),
                    ),
                    None => Some((left, p)),
                },
                _ => Some((left, p)),
            }
        },
        None => None,
    }
}

/// `assign = ident "=" expr`
pub open spec fn assign_stmt(s: Seq<char>, pos: int) -> Option<(StmtView, int)> {
    match identifier(s, pos) {
        Some((name, p)) => match symbol(s, p, '=') {
            Some(p2) => match expr(s, p2) {
                Some((value, p3)) => Some((StmtView::Assign(name, value), p3)),
                None => None,
            },
            None => None,
        },
        None => None,
    }
}

/// `let = "let" ident "=" expr`
pub open spec fn let_stmt(s: Seq<char>, pos: int) -> Option<(StmtView, int)> {
    match keyword(s, pos, word_let()) {
        Some(p) => match identifier(s, p) {
            Some((name, p2)) => match symbol(s, p2, '=') {
                Some(p3) => match expr(s, p3) {
                    Some((value, p4)) => Some((StmtView::Let(name, value), p4)),
                    None => None,
                },
                None => None,
            },
            None => None,
        },
        None => None,
    }
}

/// `return = "return" expr`
pub open spec fn return_stmt(s: Seq<char>, pos: int) -> Option<(StmtView, int)> {
    match keyword(s, pos, word_return()) {
        Some(p) => match expr(s, p) {
            Some((value, p2)) => Some((StmtView::Return(value), p2)),
            None => None,
        },
        None => None,
    }
}

/// `if = "if" expr block ("else" block)?`. A conditional without `else` has
/// the empty sequence as its second body.
pub open spec fn if_stmt(s: Seq<char>, pos: int) -> Option<(StmtView, int)>
    decreases s.len() - pos, 8int,
{
    match keyword(s, pos, word_if()) {
        Some(p) => match expr(s, p) {
            Some((cond, p2)) if pos < p2 <= s.len() => match block(s, p2) {
                Some((then_body, p3)) => {
                    let otherwise = match keyword(s, p3, word_else()) {
                        Some(p4) if pos < p4 <= s.len() => block(s, p4),
                        _ => None,
                    };
                    match otherwise {
                        Some((else_body, p5)) => Some(
                            (StmtView::If(cond, then_body, else_body), p5),
                        ),
                        None => Some((StmtView::If(cond, then_body, Seq::empty()), p3)),
                    }
                },
                None => None,
            },
            _ => None,
        },
        None => None,
    }
}

/// `for = "for" "(" let ";" expr ";" expr ")" block`
pub open spec fn for_stmt(s: Seq<char>, pos: int) -> Option<(StmtView, int)>
    decreases s.len() - pos, 8int,
{
    match keyword(s, pos, word_for()) {
        Some(p) => match symbol(s, p, '(') {
            Some(p2) => match let_stmt(s, p2) {
                Some((init, p3)) => match symbol(s, p3, ';') {
                    Some(p4) => match expr(s, p4) {
                        Some((cond, p5)) => match symbol(s, p5, ';') {
                            Some(p6) => match expr(s, p6) {
                                Some((step, p7)) => match symbol(s, p7, ')') {
                                    Some(p8) if pos < p8 <= s.len() => match block(s, p8) {
                                        Some((body, p9)) => Some(
                                            (StmtView::For(Box::new(init), cond, step, body), p9),
                                        ),
                                        None => None,
                                    },
                                    _ => None,
                                },
                                None => None,
                            },
                            None => None,
                        },
                        None => None,
                    },
                    None => None,
                },
                None => None,
            },
            None => None,
        },
        None => None,
    }
}

/// A statement that must be followed by a semicolon, with the semicolon.
pub open spec fn terminated(s: Seq<char>, found: Option<(StmtView, int)>) -> Option<
    (StmtView, int),
> {
    match found {
        Some((stmt, p)) => match symbol(s, p, ';') {
            Some(p2) => Some((stmt, p2)),
            None => None,
        },
        None => None,
    }
}

/// `statement = let ";" | return ";" | if | for | assign ";" | expr ";"`
pub open spec fn statement(s: Seq<char>, pos: int) -> Option<(StmtView, int)>
    decreases s.len() - pos, 9int,
{
    match terminated(s, let_stmt(s, pos)) {
        Some(found) => Some(found),
        None => match terminated(s, return_stmt(s, pos)) {
            Some(found) => Some(found),
            None => match if_stmt(s, pos) {
                Some(found) => Some(found),
                None => match for_stmt(s, pos) {
                    Some(found) => Some(found),
                    None => match terminated(s, assign_stmt(s, pos)) {
                        Some(found) => Some(found),
                        None => terminated(
                            s,
                            match expr(s, pos) {
                                Some((e, p)) => Some((StmtView::Expr(e), p)),
                                None => None,
                            },
                        ),
                    },
                },
            },
        },
    }
}

/// `statement*`: statements as long as one matches.
pub open spec fn statements(s: Seq<char>, pos: int) -> (Seq<StmtView>, int)
    decreases s.len() - pos, 10int,
{
    match statement(s, pos) {
        Some((stmt, p)) if pos < p <= s.len() => {
            let (rest, p2) = statements(s, p);
            (seq![stmt] + rest, p2)
        },
        _ => (Seq::empty(), pos),
    }
}

/// `block = "{" statement* "}"`
pub open spec fn block(s: Seq<char>, pos: int) -> Option<(Seq<StmtView>, int)>
    decreases s.len() - pos, 11int,
{
    match symbol(s, pos, '{') {
        Some(p) if pos < p <= s.len() => {
            let (stmts, p2) = statements(s, p);
            match symbol(s, p2, '}') {
                Some(p3) => Some((stmts, p3)),
                None => None,
            }
        },
        _ => None,
    }
}

/// The rest of a parameter list behind its first name: `("," ident)*`.
pub open spec fn more_params(s: Seq<char>, pos: int) -> (Seq<Seq<char>>, int)
    decreases s.len() - pos,
{
    match symbol(s, pos, ',') {
        Some(p) => match identifier(s, p) {
            Some((name, p2)) if pos < p2 <= s.len() => {
                let (rest, p3) = more_params(s, p2);
                (seq![name] + rest, p3)
            },
            _ => (Seq::empty(), pos),
        },
        None => (Seq::empty(), pos),
    }
}

/// `(ident ("," ident)*)?`
pub open spec fn params(s: Seq<char>, pos: int) -> (Seq<Seq<char>>, int) {
    match identifier(s, pos) {
        Some((name, p)) => {
            let (rest, p2) = more_params(s, p);
            (seq![name] + rest, p2)
        },
        None => (Seq::empty(), pos),
    }
}

/// `function = "fn" ident "(" params ")" block`
pub open spec fn function(s: Seq<char>, pos: int) -> Option<(FunctionView, int)> {
    match keyword(s, pos, word_fn()) {
        Some(p) => match identifier(s, p) {
            Some((name, p2)) => match symbol(s, p2, '(') {
                Some(p3) => {
                    let (names, p4) = params(s, p3);
                    match symbol(s, p4, ')') {
                        Some(p5) => match block(s, p5) {
                            Some((body, p6)) => Some(
                                (FunctionView { name, args: names, body }, p6),
                            ),
                            None => None,
                        },
                        None => None,
                    }
                },
                None => None,
            },
            None => None,
        },
        None => None,
    }
}

/// `function*`: functions as long as one matches.
pub open spec fn functions(s: Seq<char>, pos: int) -> (Seq<FunctionView>, int)
    decreases s.len() - pos,
{
    match function(s, pos) {
        Some((f, p)) if pos < p <= s.len() => {
            let (rest, p2) = functions(s, p);
            (seq![f] + rest, p2)
        },
        _ => (Seq::empty(), pos),
    }
}

/// `program = function* end-of-text`: the functions of the text, where
/// nothing but white space follows the last of them.
pub open spec fn program(s: Seq<char>) -> Option<ProgramView> {
    let (found, p) = functions(s, 0);
    if skip_spaces(s, p) >= s.len() {
        Some(ProgramView { functions: found })
    } else {
        None
    }
}

} // verus!
