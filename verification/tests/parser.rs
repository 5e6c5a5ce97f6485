use ac_compiler::internal_representations::gast::{Expr, Function, Name, Program, Stmt};
use ac_compiler::parser::{
    parse_assign, parse_block, parse_expr, parse_expr1, parse_expr2, parse_expr3, parse_for,
    parse_function, parse_if, parse_let, parse_program, parse_return, parse_statement, Parser,
};

fn ident(text: &str) -> Name {
    Name::new(text.to_string())
}

fn named(text: &str) -> Expr {
    Expr::Name(ident(text))
}

fn num(n: i64) -> Expr {
    Expr::IntLiteral(n)
}

fn text(code: &str) -> Parser {
    Parser::new(code.to_string())
}

fn program(code: &str) -> Option<Program> {
    parse_program(&text(code))
}

#[test]
fn a_function_that_returns_a_number_is_parsed() {
    assert_eq!(
        program("fn main() { return 42; }"),
        Some(Program {
            functions: vec![Function {
                name: ident("main"),
                args: vec![],
                body: vec![Stmt::Return(num(42))],
            }],
        })
    );
}

#[test]
fn the_empty_text_is_the_empty_program() {
    assert_eq!(program(""), Some(Program { functions: vec![] }));
    assert_eq!(program("  \n\t "), Some(Program { functions: vec![] }));
}

#[test]
fn functions_come_in_the_order_of_the_text() {
    let parsed = program("fn a(x) { return x; }\nfn b(x, y, z) { return y; }").unwrap();
    assert_eq!(parsed.functions.len(), 2);
    assert_eq!(parsed.functions[0].name, ident("a"));
    assert_eq!(parsed.functions[0].args, vec![ident("x")]);
    assert_eq!(parsed.functions[1].name, ident("b"));
    assert_eq!(parsed.functions[1].args, vec![ident("x"), ident("y"), ident("z")]);
}

#[test]
fn text_behind_the_last_function_is_refused() {
    assert_eq!(program("fn main() { return 1; } x"), None);
    assert_eq!(program("fn main() { return 1; } }"), None);
    assert_eq!(program("return 1;"), None);
}

#[test]
fn a_statement_needs_its_semicolon() {
    assert_eq!(program("fn main() { return 1 }"), None);
    assert_eq!(program("fn main() { let x = 1 return x; }"), None);
    assert_eq!(program("fn main() { f(1) }"), None);
}

#[test]
fn multiplication_binds_tighter_than_addition() {
    let parser = text("1 + 2 * 3");
    assert_eq!(
        parse_expr(&parser, 0),
        Some((Expr::add(num(1), Expr::mul(num(2), num(3))), 9))
    );
    let parser = text("1 * 2 + 3");
    assert_eq!(
        parse_expr(&parser, 0),
        Some((Expr::add(Expr::mul(num(1), num(2)), num(3)), 9))
    );
}

#[test]
fn operators_of_one_level_nest_to_the_right() {
    let parser = text("a - b - c");
    assert_eq!(
        parse_expr(&parser, 0),
        Some((Expr::sub(named("a"), Expr::sub(named("b"), named("c"))), 9))
    );
    let parser = text("a / b * c");
    assert_eq!(
        parse_expr1(&parser, 0),
        Some((Expr::div(named("a"), Expr::mul(named("b"), named("c"))), 9))
    );
}

#[test]
fn parentheses_group() {
    let parser = text("(1 + 2) * 3");
    assert_eq!(
        parse_expr(&parser, 0),
        Some((Expr::mul(Expr::add(num(1), num(2)), num(3)), 11))
    );
    assert_eq!(parse_expr3(&text("(1"), 0), None);
    assert_eq!(parse_expr3(&text("()"), 0), None);
}

#[test]
fn an_operator_without_a_right_operand_is_left_unread() {
    assert_eq!(parse_expr(&text("1 + ;"), 0), Some((num(1), 1)));
    assert_eq!(parse_expr1(&text("a * "), 0), Some((named("a"), 1)));
}

#[test]
fn the_atoms_are_numbers_strings_and_names() {
    assert_eq!(parse_expr3(&text("  17 "), 0), Some((num(17), 4)));
    assert_eq!(parse_expr3(&text("x_1+"), 0), Some((named("x_1"), 3)));
    assert_eq!(parse_expr3(&text("_"), 0), Some((named("_"), 1)));
    assert_eq!(
        parse_expr3(&text("\"hi there\" "), 0),
        Some((Expr::StringLiteral("hi there".to_string()), 10))
    );
    assert_eq!(parse_expr3(&text("\"\""), 0), Some((Expr::StringLiteral(String::new()), 2)));
    assert_eq!(parse_expr3(&text("\"open"), 0), None);
    assert_eq!(parse_expr3(&text("+"), 0), None);
    assert_eq!(parse_expr3(&text(""), 0), None);
}

#[test]
fn a_number_must_fit_sixty_four_bits() {
    assert_eq!(
        parse_expr3(&text("9223372036854775807"), 0),
        Some((num(i64::MAX), 19))
    );
    assert_eq!(parse_expr3(&text("9223372036854775808"), 0), None);
    assert_eq!(parse_expr3(&text("99999999999999999999999"), 0), None);
    assert_eq!(parse_expr3(&text("0007"), 0), Some((num(7), 4)));
}

#[test]
fn a_call_has_a_name_and_arguments_in_parentheses() {
    assert_eq!(
        parse_expr2(&text("f(1, x, g())"), 0),
        Some((
            Expr::Call(
                ident("f"),
                vec![num(1), named("x"), Expr::Call(ident("g"), vec![])]
            ),
            12
        ))
    );
    assert_eq!(parse_expr2(&text("f ( )"), 0), Some((Expr::Call(ident("f"), vec![]), 5)));
    // Without its closing parenthesis a call is only a name.
    assert_eq!(parse_expr2(&text("f(1"), 0), Some((named("f"), 1)));
    assert_eq!(parse_expr2(&text("f(1,)"), 0), Some((named("f"), 1)));
}

#[test]
fn let_return_and_assign_are_parsed() {
    assert_eq!(
        parse_let(&text("let x = 1 + y"), 0),
        Some((Stmt::Let(ident("x"), Expr::add(num(1), named("y"))), 13))
    );
    assert_eq!(parse_let(&text("letx = 1"), 0), None);
    assert_eq!(parse_let(&text("let = 1"), 0), None);
    assert_eq!(parse_return(&text("return x"), 0), Some((Stmt::Return(named("x")), 8)));
    assert_eq!(parse_return(&text("return"), 0), None);
    assert_eq!(
        parse_assign(&text("x = 2"), 0),
        Some((Stmt::Assign(ident("x"), Box::new(num(2))), 5))
    );
    assert_eq!(parse_assign(&text("x 2"), 0), None);
}

#[test]
fn a_word_that_only_begins_like_a_keyword_is_a_name() {
    assert_eq!(
        parse_statement(&text("returnx;"), 0),
        Some((Stmt::Expr(named("returnx")), 8))
    );
    assert_eq!(
        parse_statement(&text("iffy = 1;"), 0),
        Some((Stmt::Assign(ident("iffy"), Box::new(num(1))), 9))
    );
}

#[test]
fn a_conditional_without_else_has_an_empty_else_body() {
    assert_eq!(
        parse_if(&text("if x { y = 1; }"), 0),
        Some((
            Stmt::If(named("x"), vec![Stmt::Assign(ident("y"), Box::new(num(1)))], vec![]),
            15
        ))
    );
    assert_eq!(
        parse_if(&text("if x { } else { return 2; }"), 0),
        Some((Stmt::If(named("x"), vec![], vec![Stmt::Return(num(2))]), 27))
    );
    assert_eq!(parse_if(&text("if { }"), 0), None);
    assert_eq!(parse_if(&text("if x y = 1;"), 0), None);
}

#[test]
fn a_loop_has_a_let_a_condition_a_step_and_a_body() {
    assert_eq!(
        parse_for(&text("for (let i = 0; i - 3; next(i)) { i = i + 1; }"), 0),
        Some((
            Stmt::For(
                Box::new(Stmt::Let(ident("i"), num(0))),
                Expr::sub(named("i"), num(3)),
                Expr::Call(ident("next"), vec![named("i")]),
                vec![Stmt::Assign(ident("i"), Box::new(Expr::add(named("i"), num(1))))],
            ),
            46
        ))
    );
    assert_eq!(parse_for(&text("for (i = 0; i; i) { }"), 0), None);
    assert_eq!(parse_for(&text("for (let i = 0; i) { }"), 0), None);
}

#[test]
fn a_block_holds_statements_in_braces() {
    assert_eq!(parse_block(&text("{ }"), 0), Some((vec![], 3)));
    assert_eq!(
        parse_block(&text("{ f(); if a { } return 1; }"), 0),
        Some((
            vec![
                Stmt::Expr(Expr::Call(ident("f"), vec![])),
                Stmt::If(named("a"), vec![], vec![]),
                Stmt::Return(num(1)),
            ],
            27
        ))
    );
    assert_eq!(parse_block(&text("{ return 1; "), 0), None);
    assert_eq!(parse_block(&text("return 1; }"), 0), None);
}

#[test]
fn a_function_needs_its_keyword_name_parameters_and_body() {
    assert_eq!(
        parse_function(&text("fn add(a, b) { return a + b; }"), 0),
        Some((
            Function {
                name: ident("add"),
                args: vec![ident("a"), ident("b")],
                body: vec![Stmt::Return(Expr::add(named("a"), named("b")))],
            },
            30
        ))
    );
    assert_eq!(parse_function(&text("add(a, b) { }"), 0), None);
    assert_eq!(parse_function(&text("fn (a) { }"), 0), None);
    assert_eq!(parse_function(&text("fn f(a,) { }"), 0), None);
    assert_eq!(parse_function(&text("fn f(1) { }"), 0), None);
    assert_eq!(parse_function(&text("fn f()"), 0), None);
}

#[test]
fn parsing_starts_at_the_given_position() {
    let parser = text("1 + 2; x");
    assert_eq!(parser.len(), 8);
    assert_eq!(parse_expr(&parser, 3), Some((num(2), 5)));
    assert_eq!(parse_expr(&parser, 6), Some((named("x"), 8)));
    assert_eq!(parse_expr(&parser, 8), None);
}

#[test]
fn positions_count_characters_not_bytes() {
    let parser = text("\"é\" + x");
    assert_eq!(parser.len(), 7);
    assert_eq!(
        parse_expr(&parser, 0),
        Some((Expr::add(Expr::StringLiteral("é".to_string()), named("x")), 7))
    );
}

#[test]
fn a_whole_program_with_a_loop_is_parsed() {
    let code = "
        fn count(n) {
            let total = 0;
            for (let i = 0; n - i; 0) {
                total = total + i;
                i = i + 1;
            }
            if total { return total; } else { return 0 - 1; }
        }
    ";
    let parsed = program(code).unwrap();
    assert_eq!(parsed.functions.len(), 1);
    let body = &parsed.functions[0].body;
    assert_eq!(body.len(), 3);
    assert_eq!(body[0], Stmt::Let(ident("total"), num(0)));
    assert!(matches!(body[1], Stmt::For(..)));
    assert_eq!(
        body[2],
        Stmt::If(
            named("total"),
            vec![Stmt::Return(named("total"))],
            vec![Stmt::Return(Expr::sub(num(0), num(1)))]
        )
    );
}

#[test]
fn a_copy_of_a_tree_equals_the_tree() {
    let parsed = program("fn f(a) { for (let i = g(a, \"s\"); i; 0) { if i { a = 1; } } return a; }")
        .unwrap();
    assert_eq!(parsed.clone(), parsed);
    let f = parsed.functions[0].clone();
    assert_eq!(f, parsed.functions[0]);
    assert_eq!(f.body[0].clone(), f.body[0]);
    assert_eq!(f.name.clone(), ident("f"));
}
