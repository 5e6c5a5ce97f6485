//! The parser: from source text to the syntax tree, by recursive descent.
//! Every function here computes the function of the same rule in `grammar`.

use vstd::prelude::*;
use vstd::string::StrSliceExecFns;
use crate::grammar;
use crate::internal_representations::gast::{
    Expr,
    ExprView,
    Function,
    FunctionView,
    Name,
    Operator,
    Program,
    ProgramView,
    Stmt,
    StmtView,
    exprs_view,
    functions_view,
    names_view,
    stmts_view,
};

verus! {

/// A source text, ready to be read character by character.
pub struct Parser {
    code: String,
    chars: Vec<char>,
}

impl Parser {
    #[verifier::type_invariant]
    spec fn chars_of_code(self) -> bool {
        self.chars@ == self.code@
    }

    /// The text that is parsed.
    pub closed spec fn text(&self) -> Seq<char> {
        self.code@
    }

    /// A parser of the text.
    pub fn new(code: String) -> (r: Self)
        ensures
            r.text() == code@,
    {
        let len = code.as_str().unicode_len();
        let mut chars: Vec<char> = Vec::new();
        let mut i: usize = 0;
        while i < len
            invariant
                i <= len,
                len == code@.len(),
                chars@ == code@.take(i as int),
            decreases len - i,
        {
            chars.push(code.as_str().get_char(i));
            assert(chars@ =~= code@.take(i + 1));
            i += 1;
        }
        assert(code@.take(len as int) =~= code@);
        Parser { code, chars }
    }

    /// The number of characters of the text.
    pub fn len(&self) -> (r: usize)
        ensures
            r == self.text().len(),
    {
        proof {
            use_type_invariant(self);
        }
        self.chars.len()
    }

    fn skip_spaces(&self, pos: usize) -> (r: usize)
        requires
            pos <= self.text().len(),
        ensures
            r == grammar::skip_spaces(self.text(), pos as int),
            pos <= r <= self.text().len(),
    {
        proof {
            use_type_invariant(self);
        }
        let mut i = pos;
        while i < self.chars.len() && is_space(self.chars[i])
            invariant
                pos <= i <= self.chars.len(),
                self.chars@ == self.text(),
                grammar::skip_spaces(self.text(), pos as int) == grammar::skip_spaces(
                    self.text(),
                    i as int,
                ),
            decreases self.chars.len() - i,
        {
            i += 1;
        }
        i
    }

    fn word_end(&self, pos: usize) -> (r: usize)
        requires
            pos <= self.text().len(),
        ensures
            r == grammar::word_end(self.text(), pos as int),
            pos <= r <= self.text().len(),
    {
        proof {
            use_type_invariant(self);
        }
        let mut i = pos;
        while i < self.chars.len() && is_word(self.chars[i])
            invariant
                pos <= i <= self.chars.len(),
                self.chars@ == self.text(),
                grammar::word_end(self.text(), pos as int) == grammar::word_end(
                    self.text(),
                    i as int,
                ),
            decreases self.chars.len() - i,
        {
            i += 1;
        }
        i
    }

    fn quote_end(&self, pos: usize) -> (r: usize)
        requires
            pos <= self.text().len(),
        ensures
            r == grammar::quote_end(self.text(), pos as int),
            pos <= r <= self.text().len(),
    {
        proof {
            use_type_invariant(self);
        }
        let mut i = pos;
        while i < self.chars.len() && self.chars[i] != '"'
            invariant
                pos <= i <= self.chars.len(),
                self.chars@ == self.text(),
                grammar::quote_end(self.text(), pos as int) == grammar::quote_end(
                    self.text(),
                    i as int,
                ),
            decreases self.chars.len() - i,
        {
            i += 1;
        }
        i
    }

    /// The text from `from` up to `to`.
    fn slice(&self, from: usize, to: usize) -> (r: String)
        requires
            from <= to <= self.text().len(),
        ensures
            r@ == self.text().subrange(from as int, to as int),
    {
        self.code.as_str().substring_char(from, to).to_owned()
    }

    fn symbol(&self, pos: usize, c: char) -> (r: Option<usize>)
        requires
            pos <= self.text().len(),
        ensures
            match r {
                Some(p) => Some(p as int) == grammar::symbol(self.text(), pos as int, c),
                None => grammar::symbol(self.text(), pos as int, c) is None,
            },
            r matches Some(p) ==> pos < p <= self.text().len(),
    {
        proof {
            use_type_invariant(self);
        }
        let p = self.skip_spaces(pos);
        if p < self.chars.len() && self.chars[p] == c {
            Some(p + 1)
        } else {
            None
        }
    }

    fn keyword(&self, pos: usize, word: &Vec<char>) -> (r: Option<usize>)
        requires
            pos <= self.text().len(),
        ensures
            match r {
                Some(p) => Some(p as int) == grammar::keyword(self.text(), pos as int, word@),
                None => grammar::keyword(self.text(), pos as int, word@) is None,
            },
            r matches Some(p) ==> pos <= p <= self.text().len() && (word@.len() > 0 ==> pos < p),
    {
        proof {
            use_type_invariant(self);
        }
        let p = self.skip_spaces(pos);
        if word.len() > self.chars.len() - p {
            return None;
        }
        let e = p + word.len();
        let mut k: usize = 0;
        while k < word.len()
            invariant
                k <= word.len(),
                p == grammar::skip_spaces(self.text(), pos as int),
                e == p + word.len(),
                e <= self.chars.len(),
                self.chars@ == self.text(),
                forall|j: int| 0 <= j < k ==> self.chars[p + j] == word[j],
            decreases word.len() - k,
        {
            if self.chars[p + k] != word[k] {
                assert(self.text().subrange(p as int, e as int)[k as int] != word@[k as int]);
                assert(self.text().subrange(p as int, e as int) != word@);
                return None;
            }
            k += 1;
        }
        assert(self.text().subrange(p as int, e as int) =~= word@);
        if e < self.chars.len() && is_word(self.chars[e]) {
            None
        } else {
            Some(e)
        }
    }

    fn identifier(&self, pos: usize) -> (r: Option<(Name, usize)>)
        requires
            pos <= self.text().len(),
        ensures
            match r {
                Some((name, p)) => Some((name@, p as int)) == grammar::identifier(
                    self.text(),
                    pos as int,
                ),
                None => grammar::identifier(self.text(), pos as int) is None,
            },
            r matches Some((_, p)) ==> pos < p <= self.text().len(),
    {
        proof {
            use_type_invariant(self);
        }
        let p = self.skip_spaces(pos);
        if p < self.chars.len() && is_letter(self.chars[p]) {
            let e = self.word_end(p + 1);
            assert(grammar::word_end(self.text(), p as int) == e);
            Some((Name::new(self.slice(p, e)), e))
        } else {
            None
        }
    }

    fn string_literal(&self, pos: usize) -> (r: Option<(String, usize)>)
        requires
            pos <= self.text().len(),
        ensures
            match r {
                Some((text, p)) => Some((text@, p as int)) == grammar::string_literal(
                    self.text(),
                    pos as int,
                ),
                None => grammar::string_literal(self.text(), pos as int) is None,
            },
            r matches Some((_, p)) ==> pos < p <= self.text().len(),
    {
        proof {
            use_type_invariant(self);
        }
        let p = self.skip_spaces(pos);
        if p < self.chars.len() && self.chars[p] == '"' {
            let e = self.quote_end(p + 1);
            if e < self.chars.len() {
                Some((self.slice(p + 1, e), e + 1))
            } else {
                None
            }
        } else {
            None
        }
    }

    fn number(&self, pos: usize) -> (r: Option<(i64, usize)>)
        requires
            pos <= self.text().len(),
        ensures
            match r {
                Some((n, p)) => Some((n, p as int)) == grammar::number(self.text(), pos as int),
                None => grammar::number(self.text(), pos as int) is None,
            },
            r matches Some((_, p)) ==> pos < p <= self.text().len(),
    {
        proof {
            use_type_invariant(self);
        }
        let p = self.skip_spaces(pos);
        if !(p < self.chars.len() && is_digit(self.chars[p])) {
            return None;
        }
        let ghost s = self.text();
        let mut value: i64 = 0;
        let mut fits = true;
        let mut i = p;
        assert(s.subrange(p as int, p as int) =~= Seq::empty());
        while i < self.chars.len() && is_digit(self.chars[i])
            invariant
                p <= i <= self.chars.len(),
                s == self.text(),
                self.chars@ == s,
                grammar::digits_end(s, p as int) == grammar::digits_end(s, i as int),
                forall|j: int| p <= j < i ==> grammar::is_digit(s[j]),
                fits ==> value == grammar::digits_value(s.subrange(p as int, i as int)),
                fits ==> value >= 0,
                !fits ==> grammar::digits_value(s.subrange(p as int, i as int)) > i64::MAX,
            decreases self.chars.len() - i,
        {
            let digit = digit_of(self.chars[i]);
            proof {
                assert(s.subrange(p as int, i + 1).drop_last() =~= s.subrange(p as int, i as int));
                assert(s.subrange(p as int, i + 1).last() == s[i as int]);
            }
            if fits && (value < 922337203685477580 || (value == 922337203685477580 && digit <= 7)) {
                value = value * 10 + digit;
            } else {
                fits = false;
            }
            i += 1;
        }
        if fits {
            Some((value, i))
        } else {
            None
        }
    }
}

fn is_space(c: char) -> (r: bool)
    ensures
        r == grammar::is_space(c),
{
    c == ' ' || c == '\n' || c == '\t' || c == '\r'
}

fn is_digit(c: char) -> (r: bool)
    ensures
        r == grammar::is_digit(c),
{
    '0' <= c && c <= '9'
}

fn is_letter(c: char) -> (r: bool)
    ensures
        r == grammar::is_letter(c),
{
    ('a' <= c && c <= 'z') || ('A' <= c && c <= 'Z') || c == '_'
}

fn is_word(c: char) -> (r: bool)
    ensures
        r == grammar::is_word(c),
{
    is_letter(c) || is_digit(c)
}

/// The value of a decimal digit.
fn digit_of(c: char) -> (r: i64)
    requires
        grammar::is_digit(c),
    ensures
        r == c as int - '0' as int,
        0 <= r <= 9,
{
    (c as u32 - '0' as u32) as i64
}

fn word(a: char, b: char) -> (r: Vec<char>)
    ensures
        r@ == seq![a, b],
{
    let mut r: Vec<char> = Vec::new();
    r.push(a);
    r.push(b);
    assert(r@ =~= seq![a, b]);
    r
}

fn word_let() -> (r: Vec<char>)
    ensures
        r@ == grammar::word_let(),
{
    let mut r = word('l', 'e');
    r.push('t');
    assert(r@ =~= grammar::word_let());
    r
}

fn word_for() -> (r: Vec<char>)
    ensures
        r@ == grammar::word_for(),
{
    let mut r = word('f', 'o');
    r.push('r');
    assert(r@ =~= grammar::word_for());
    r
}

fn word_else() -> (r: Vec<char>)
    ensures
        r@ == grammar::word_else(),
{
    let mut r = word('e', 'l');
    r.push('s');
    r.push('e');
    assert(r@ =~= grammar::word_else());
    r
}

fn word_return() -> (r: Vec<char>)
    ensures
        r@ == grammar::word_return(),
{
    let mut r = word('r', 'e');
    r.push('t');
    r.push('u');
    r.push('r');
    r.push('n');
    assert(r@ =~= grammar::word_return());
    r
}

/// What an expression parser found, as mathematics.
pub open spec fn found_expr(r: Option<(Expr, usize)>) -> Option<(ExprView, int)> {
    match r {
        Some((e, p)) => Some((e@, p as int)),
        None => None,
    }
}

/// What a statement parser found, as mathematics.
pub open spec fn found_stmt(r: Option<(Stmt, usize)>) -> Option<(StmtView, int)> {
    match r {
        Some((s, p)) => Some((s@, p as int)),
        None => None,
    }
}

/// What a block parser found, as mathematics.
pub open spec fn found_block(r: Option<(Vec<Stmt>, usize)>) -> Option<(Seq<StmtView>, int)> {
    match r {
        Some((stmts, p)) => Some((stmts_view(stmts@), p as int)),
        None => None,
    }
}

/// What a function parser found, as mathematics.
pub open spec fn found_function(r: Option<(Function, usize)>) -> Option<(FunctionView, int)> {
    match r {
        Some((f, p)) => Some((f@, p as int)),
        None => None,
    }
}

/// What a program parser found, as mathematics.
pub open spec fn found_program(r: Option<Program>) -> Option<ProgramView> {
    match r {
        Some(p) => Some(p@),
        None => None,
    }
}

/// Parses a number, a string, a name or an expression in parentheses.
/// Digits that write a number beyond the largest 64-bit value are no number,
/// and no expression begins with them.
pub fn parse_expr3(parser: &Parser, pos: usize) -> (r: Option<(Expr, usize)>)
    requires
        pos <= parser.text().len(),
    ensures
        found_expr(r) == grammar::expr3(parser.text(), pos as int),
        r matches Some((_, p)) ==> pos < p <= parser.text().len(),
    decreases parser.text().len() - pos, 0int,
{
    match parser.number(pos) {
        Some((n, p)) => {
            return Some((Expr::IntLiteral(n), p));
        },
        None => {},
    }
    match parser.string_literal(pos) {
        Some((text, p)) => {
            return Some((Expr::StringLiteral(text), p));
        },
        None => {},
    }
    match parser.identifier(pos) {
        Some((name, p)) => {
            return Some((Expr::Name(name), p));
        },
        None => {},
    }
    match parser.symbol(pos, '(') {
        Some(p) => match parse_expr(parser, p) {
            Some((e, p2)) => match parser.symbol(p2, ')') {
                Some(p3) => Some((e, p3)),
                None => None,
            },
            None => None,
        },
        None => None,
    }
}

/// The arguments of a call, behind its opening parenthesis.
fn parse_args(parser: &Parser, pos: usize) -> (r: (Vec<Expr>, usize))
    requires
        pos <= parser.text().len(),
    ensures
        (exprs_view(r.0@), r.1 as int) == grammar::args(parser.text(), pos as int),
        pos <= r.1 <= parser.text().len(),
    decreases parser.text().len() - pos, 7int,
{
    let ghost s = parser.text();
    let mut values: Vec<Expr> = Vec::new();
    let mut cur = pos;
    match parse_expr(parser, pos) {
        Some((e, p)) => {
            values.push(e);
            cur = p;
            assert(exprs_view(values@) =~= seq![e@]);
        },
        None => {
            assert(exprs_view(values@) =~= Seq::empty());
            return (values, pos);
        },
    }
    loop
        invariant_except_break
            s == parser.text(),
            pos < cur <= s.len(),
            grammar::args(s, pos as int) == (
                exprs_view(values@) + grammar::more_args(s, cur as int).0,
                grammar::more_args(s, cur as int).1,
            ),
        ensures
            (exprs_view(values@), cur as int) == grammar::args(s, pos as int),
            pos <= cur <= s.len(),
        decreases s.len() - cur,
    {
        let ghost before = exprs_view(values@);
        match parser.symbol(cur, ',') {
            Some(p) => match parse_expr(parser, p) {
                Some((e, p2)) => {
                    values.push(e);
                    assert(exprs_view(values@) + grammar::more_args(s, p2 as int).0 =~= before + (
                        seq![e@] + grammar::more_args(s, p2 as int).0));
                    cur = p2;
                },
                None => {
                    assert(before + Seq::<ExprView>::empty() =~= before);
                    break ;
                },
            },
            None => {
                assert(before + Seq::<ExprView>::empty() =~= before);
                break ;
            },
        }
    }
    (values, cur)
}

/// A call: a name and its arguments in parentheses.
fn parse_call(parser: &Parser, pos: usize) -> (r: Option<(Expr, usize)>)
    requires
        pos <= parser.text().len(),
    ensures
        found_expr(r) == grammar::call_expr(parser.text(), pos as int),
        r matches Some((_, p)) ==> pos < p <= parser.text().len(),
    decreases parser.text().len() - pos, 1int,
{
    match parser.identifier(pos) {
        Some((name, p)) => match parser.symbol(p, '(') {
            Some(p2) => {
                let (args, p3) = parse_args(parser, p2);
                match parser.symbol(p3, ')') {
                    Some(p4) => {
                        proof {
                            Expr::lemma_view_call(name, args);
                        }
                        Some((Expr::Call(name, args), p4))
                    },
                    None => None,
                }
            },
            None => None,
        },
        None => None,
    }
}

/// Parses a call, or else what `parse_expr3` parses.
pub fn parse_expr2(parser: &Parser, pos: usize) -> (r: Option<(Expr, usize)>)
    requires
        pos <= parser.text().len(),
    ensures
        found_expr(r) == grammar::expr2(parser.text(), pos as int),
        r matches Some((_, p)) ==> pos < p <= parser.text().len(),
    decreases parser.text().len() - pos, 2int,
{
    match parse_call(parser, pos) {
        Some(found) => Some(found),
        None => parse_expr3(parser, pos),
    }
}

/// Parses a product or quotient; operators nest to the right.
pub fn parse_expr1(parser: &Parser, pos: usize) -> (r: Option<(Expr, usize)>)
    requires
        pos <= parser.text().len(),
    ensures
        found_expr(r) == grammar::expr1(parser.text(), pos as int),
        r matches Some((_, p)) ==> pos < p <= parser.text().len(),
    decreases parser.text().len() - pos, 3int,
{
    match parse_expr2(parser, pos) {
        Some((left, p)) => {
            let op = match parser.symbol(p, '*') {
                Some(p2) => Some((Operator::Mul, p2)),
                None => match parser.symbol(p, '/') {
                    Some(p2) => Some((Operator::Div, p2)),
                    None => None,
                },
            };
            match op {
                Some((op, p2)) => match parse_expr1(parser, p2) {
                    Some((right, p3)) => Some(
                        (Expr::Binary(op, Box::new(left), Box::new(right)), p3),
                    ),
                    None => Some((left, p)),
                },
                None => Some((left, p)),
            }
        },
        None => None,
    }
}

/// Parses a sum or difference; operators nest to the right.
pub fn parse_expr(parser: &Parser, pos: usize) -> (r: Option<(Expr, usize)>)
    requires
        pos <= parser.text().len(),
    ensures
        found_expr(r) == grammar::expr(parser.text(), pos as int),
        r matches Some((_, p)) ==> pos < p <= parser.text().len(),
    decreases parser.text().len() - pos, 4int,
{
    match parse_expr1(parser, pos) {
        Some((left, p)) => {
            let op = match parser.symbol(p, '+') {
                Some(p2) => Some((Operator::Add, p2)),
                None => match parser.symbol(p, '-') {
                    Some(p2) => Some((Operator::Sub, p2)),
                    None => None,
                },
            };
            match op {
                Some((op, p2)) => match parse_expr(parser, p2) {
                    Some((right, p3)) => Some(
                        (Expr::Binary(op, Box::new(left), Box::new(right)), p3),
                    ),
                    None => Some((left, p)),
                },
                None => Some((left, p)),
            }
        },
        None => None,
    }
}

/// Parses an assignment, without its semicolon.
pub fn parse_assign(parser: &Parser, pos: usize) -> (r: Option<(Stmt, usize)>)
    requires
        pos <= parser.text().len(),
    ensures
        found_stmt(r) == grammar::assign_stmt(parser.text(), pos as int),
        r matches Some((_, p)) ==> pos < p <= parser.text().len(),
{
    match parser.identifier(pos) {
        Some((name, p)) => match parser.symbol(p, '=') {
            Some(p2) => match parse_expr(parser, p2) {
                Some((value, p3)) => Some((Stmt::Assign(name, Box::new(value)), p3)),
                None => None,
            },
            None => None,
        },
        None => None,
    }
}

/// Parses a binding, without its semicolon.
pub fn parse_let(parser: &Parser, pos: usize) -> (r: Option<(Stmt, usize)>)
    requires
        pos <= parser.text().len(),
    ensures
        found_stmt(r) == grammar::let_stmt(parser.text(), pos as int),
        r matches Some((_, p)) ==> pos < p <= parser.text().len(),
{
    let word = word_let();
    match parser.keyword(pos, &word) {
        Some(p) => match parser.identifier(p) {
            Some((name, p2)) => match parser.symbol(p2, '=') {
                Some(p3) => match parse_expr(parser, p3) {
                    Some((value, p4)) => Some((Stmt::Let(name, value), p4)),
                    None => None,
                },
                None => None,
            },
            None => None,
        },
        None => None,
    }
}

/// Parses a return, without its semicolon.
pub fn parse_return(parser: &Parser, pos: usize) -> (r: Option<(Stmt, usize)>)
    requires
        pos <= parser.text().len(),
    ensures
        found_stmt(r) == grammar::return_stmt(parser.text(), pos as int),
        r matches Some((_, p)) ==> pos < p <= parser.text().len(),
{
    let word = word_return();
    match parser.keyword(pos, &word) {
        Some(p) => match parse_expr(parser, p) {
            Some((value, p2)) => Some((Stmt::Return(value), p2)),
            None => None,
        },
        None => None,
    }
}

/// Parses a conditional. Without `else` the second body is empty.
pub fn parse_if(parser: &Parser, pos: usize) -> (r: Option<(Stmt, usize)>)
    requires
        pos <= parser.text().len(),
    ensures
        found_stmt(r) == grammar::if_stmt(parser.text(), pos as int),
        r matches Some((_, p)) ==> pos < p <= parser.text().len(),
    decreases parser.text().len() - pos, 8int,
{
    let word = word('i', 'f');
    assert(word@ =~= grammar::word_if());
    let p = match parser.keyword(pos, &word) {
        Some(p) => p,
        None => {
            return None;
        },
    };
    let (cond, p2) = match parse_expr(parser, p) {
        Some(found) => found,
        None => {
            return None;
        },
    };
    let (then_body, p3) = match parse_block(parser, p2) {
        Some(found) => found,
        None => {
            return None;
        },
    };
    let other = word_else();
    let otherwise = match parser.keyword(p3, &other) {
        Some(p4) => parse_block(parser, p4),
        None => None,
    };
    match otherwise {
        Some((else_body, p5)) => {
            proof {
                Stmt::lemma_view_if(cond, then_body, else_body);
            }
            Some((Stmt::If(cond, then_body, else_body), p5))
        },
        None => {
            let else_body: Vec<Stmt> = Vec::new();
            proof {
                Stmt::lemma_view_if(cond, then_body, else_body);
                assert(stmts_view(else_body@) =~= Seq::empty());
            }
            Some((Stmt::If(cond, then_body, else_body), p3))
        },
    }
}

/// Parses a loop.
pub fn parse_for(parser: &Parser, pos: usize) -> (r: Option<(Stmt, usize)>)
    requires
        pos <= parser.text().len(),
    ensures
        found_stmt(r) == grammar::for_stmt(parser.text(), pos as int),
        r matches Some((_, p)) ==> pos < p <= parser.text().len(),
    decreases parser.text().len() - pos, 8int,
{
    let word = word_for();
    let p = match parser.keyword(pos, &word) {
        Some(p) => p,
        None => {
            return None;
        },
    };
    let p2 = match parser.symbol(p, '(') {
        Some(p2) => p2,
        None => {
            return None;
        },
    };
    let (init, p3) = match parse_let(parser, p2) {
        Some(found) => found,
        None => {
            return None;
        },
    };
    let p4 = match parser.symbol(p3, ';') {
        Some(p4) => p4,
        None => {
            return None;
        },
    };
    let (cond, p5) = match parse_expr(parser, p4) {
        Some(found) => found,
        None => {
            return None;
        },
    };
    let p6 = match parser.symbol(p5, ';') {
        Some(p6) => p6,
        None => {
            return None;
        },
    };
    let (step, p7) = match parse_expr(parser, p6) {
        Some(found) => found,
        None => {
            return None;
        },
    };
    let p8 = match parser.symbol(p7, ')') {
        Some(p8) => p8,
        None => {
            return None;
        },
    };
    match parse_block(parser, p8) {
        Some((body, p9)) => {
            let first = Box::new(init);
            proof {
                Stmt::lemma_view_for(first, cond, step, body);
            }
            Some((Stmt::For(first, cond, step, body), p9))
        },
        None => None,
    }
}

/// The statement that was found, if a semicolon follows it.
fn terminated(parser: &Parser, found: Option<(Stmt, usize)>) -> (r: Option<(Stmt, usize)>)
    requires
        found matches Some((_, p)) ==> p <= parser.text().len(),
    ensures
        found_stmt(r) == grammar::terminated(parser.text(), found_stmt(found)),
        r matches Some((_, p2)) ==> found matches Some((_, p)) && p < p2 <= parser.text().len(),
{
    match found {
        Some((stmt, p)) => match parser.symbol(p, ';') {
            Some(p2) => Some((stmt, p2)),
            None => None,
        },
        None => None,
    }
}

/// Parses a statement, with its semicolon where it needs one.
pub fn parse_statement(parser: &Parser, pos: usize) -> (r: Option<(Stmt, usize)>)
    requires
        pos <= parser.text().len(),
    ensures
        found_stmt(r) == grammar::statement(parser.text(), pos as int),
        r matches Some((_, p)) ==> pos < p <= parser.text().len(),
    decreases parser.text().len() - pos, 9int,
{
    match terminated(parser, parse_let(parser, pos)) {
        Some(found) => {
            return Some(found);
        },
        None => {},
    }
    match terminated(parser, parse_return(parser, pos)) {
        Some(found) => {
            return Some(found);
        },
        None => {},
    }
    match parse_if(parser, pos) {
        Some(found) => {
            return Some(found);
        },
        None => {},
    }
    match parse_for(parser, pos) {
        Some(found) => {
            return Some(found);
        },
        None => {},
    }
    match terminated(parser, parse_assign(parser, pos)) {
        Some(found) => {
            return Some(found);
        },
        None => {},
    }
    let found = match parse_expr(parser, pos) {
        Some((e, p)) => Some((Stmt::Expr(e), p)),
        None => None,
    };
    terminated(parser, found)
}

/// Statements as long as one can be parsed.
fn parse_statements(parser: &Parser, pos: usize) -> (r: (Vec<Stmt>, usize))
    requires
        pos <= parser.text().len(),
    ensures
        (stmts_view(r.0@), r.1 as int) == grammar::statements(parser.text(), pos as int),
        pos <= r.1 <= parser.text().len(),
    decreases parser.text().len() - pos, 10int,
{
    let ghost s = parser.text();
    let mut stmts: Vec<Stmt> = Vec::new();
    let mut cur = pos;
    assert(stmts_view(stmts@) =~= Seq::empty());
    assert(Seq::<StmtView>::empty() + grammar::statements(s, pos as int).0 =~= grammar::statements(
        s,
        pos as int,
    ).0);
    loop
        invariant_except_break
            s == parser.text(),
            pos <= cur <= s.len(),
            grammar::statements(s, pos as int) == (
                stmts_view(stmts@) + grammar::statements(s, cur as int).0,
                grammar::statements(s, cur as int).1,
            ),
        ensures
            (stmts_view(stmts@), cur as int) == grammar::statements(s, pos as int),
            pos <= cur <= s.len(),
        decreases s.len() - cur,
    {
        let ghost before = stmts_view(stmts@);
        match parse_statement(parser, cur) {
            Some((stmt, p)) => {
                stmts.push(stmt);
                assert(stmts_view(stmts@) + grammar::statements(s, p as int).0 =~= before + (
                    seq![stmt@] + grammar::statements(s, p as int).0));
                cur = p;
            },
            None => {
                assert(before + Seq::<StmtView>::empty() =~= before);
                break ;
            },
        }
    }
    (stmts, cur)
}

/// Parses statements in braces.
pub fn parse_block(parser: &Parser, pos: usize) -> (r: Option<(Vec<Stmt>, usize)>)
    requires
        pos <= parser.text().len(),
    ensures
        found_block(r) == grammar::block(parser.text(), pos as int),
        r matches Some((_, p)) ==> pos < p <= parser.text().len(),
    decreases parser.text().len() - pos, 11int,
{
    match parser.symbol(pos, '{') {
        Some(p) => {
            let (stmts, p2) = parse_statements(parser, p);
            match parser.symbol(p2, '}') {
                Some(p3) => Some((stmts, p3)),
                None => None,
            }
        },
        None => None,
    }
}

/// The parameters of a function, behind its opening parenthesis.
fn parse_params(parser: &Parser, pos: usize) -> (r: (Vec<Name>, usize))
    requires
        pos <= parser.text().len(),
    ensures
        (names_view(r.0@), r.1 as int) == grammar::params(parser.text(), pos as int),
        pos <= r.1 <= parser.text().len(),
{
    let ghost s = parser.text();
    let mut names: Vec<Name> = Vec::new();
    let mut cur = pos;
    match parser.identifier(pos) {
        Some((name, p)) => {
            names.push(name);
            cur = p;
            assert(names_view(names@) =~= seq![name@]);
        },
        None => {
            assert(names_view(names@) =~= Seq::empty());
            return (names, pos);
        },
    }
    loop
        invariant_except_break
            s == parser.text(),
            pos < cur <= s.len(),
            grammar::params(s, pos as int) == (
                names_view(names@) + grammar::more_params(s, cur as int).0,
                grammar::more_params(s, cur as int).1,
            ),
        ensures
            (names_view(names@), cur as int) == grammar::params(s, pos as int),
            pos <= cur <= s.len(),
        decreases s.len() - cur,
    {
        let ghost before = names_view(names@);
        match parser.symbol(cur, ',') {
            Some(p) => match parser.identifier(p) {
                Some((name, p2)) => {
                    names.push(name);
                    assert(names_view(names@) + grammar::more_params(s, p2 as int).0 =~= before + (
                        seq![name@] + grammar::more_params(s, p2 as int).0));
                    cur = p2;
                },
                None => {
                    assert(before + Seq::<Seq<char>>::empty() =~= before);
                    break ;
                },
            },
            None => {
                assert(before + Seq::<Seq<char>>::empty() =~= before);
                break ;
            },
        }
    }
    (names, cur)
}

/// Parses a function.
pub fn parse_function(parser: &Parser, pos: usize) -> (r: Option<(Function, usize)>)
    requires
        pos <= parser.text().len(),
    ensures
        found_function(r) == grammar::function(parser.text(), pos as int),
        r matches Some((_, p)) ==> pos < p <= parser.text().len(),
{
    let word = word('f', 'n');
    assert(word@ =~= grammar::word_fn());
    let p = match parser.keyword(pos, &word) {
        Some(p) => p,
        None => {
            return None;
        },
    };
    let (name, p2) = match parser.identifier(p) {
        Some(found) => found,
        None => {
            return None;
        },
    };
    let p3 = match parser.symbol(p2, '(') {
        Some(p3) => p3,
        None => {
            return None;
        },
    };
    let (args, p4) = parse_params(parser, p3);
    let p5 = match parser.symbol(p4, ')') {
        Some(p5) => p5,
        None => {
            return None;
        },
    };
    match parse_block(parser, p5) {
        Some((body, p6)) => Some((Function { name, args, body }, p6)),
        None => None,
    }
}

/// Parses the whole text: the functions of the program, or `None` where the
/// text is no program.
pub fn parse_program(parser: &Parser) -> (r: Option<Program>)
    ensures
        found_program(r) == grammar::program(parser.text()),
{
    let ghost s = parser.text();
    let mut functions: Vec<Function> = Vec::new();
    let mut cur: usize = 0;
    assert(functions_view(functions@) =~= Seq::empty());
    assert(Seq::<FunctionView>::empty() + grammar::functions(s, 0).0 =~= grammar::functions(s, 0).0);
    loop
        invariant_except_break
            s == parser.text(),
            cur <= s.len(),
            grammar::functions(s, 0) == (
                functions_view(functions@) + grammar::functions(s, cur as int).0,
                grammar::functions(s, cur as int).1,
            ),
        ensures
            (functions_view(functions@), cur as int) == grammar::functions(s, 0),
            cur <= s.len(),
        decreases s.len() - cur,
    {
        let ghost before = functions_view(functions@);
        match parse_function(parser, cur) {
            Some((f, p)) => {
                functions.push(f);
                assert(functions_view(functions@) + grammar::functions(s, p as int).0 =~= before + (
                    seq![f@] + grammar::functions(s, p as int).0));
                cur = p;
            },
            None => {
                assert(before + Seq::<FunctionView>::empty() =~= before);
                break ;
            },
        }
    }
    if parser.skip_spaces(cur) >= parser.len() {
        Some(Program { functions })
    } else {
        None
    }
}

} // verus!
