//! The abstract syntax tree: expressions, statements, functions and programs.
//!
//! Every type has a view that replaces strings and vectors by sequences, and
//! all contracts of the crate speak of the tree through these views.

use vstd::prelude::*;

verus! {

/// An identifier. Two names are the same name when their characters agree.
#[derive(Debug, PartialEq)]
pub struct Name {
    pub name: String,
}

impl View for Name {
    type V = Seq<char>;

    open spec fn view(&self) -> Seq<char> {
        self.name@
    }
}

impl Name {
    /// The name with the given characters.
    pub fn new(name: String) -> (r: Self)
        ensures
            r.name == name,
            r@ == name@,
    {
        Name { name }
    }
}

impl Clone for Name {
    fn clone(&self) -> (r: Self)
        ensures
            r@ == self@,
    {
        Name { name: self.name.clone() }
    }
}

/// The views of a sequence of names, in order.
pub open spec fn names_view(names: Seq<Name>) -> Seq<Seq<char>> {
    Seq::new(names.len(), |i: int| names[i]@)
}

/// The binary arithmetic operators. The left operand is evaluated first.
#[derive(Debug, Clone, Copy, PartialEq, Eq, Structural)]
pub enum Operator {
    Add,
    Sub,
    Mul,
    Div,
}

/// An expression. A string literal can be written but not lowered.
#[derive(Debug, PartialEq)]
pub enum Expr {
    IntLiteral(i64),
    StringLiteral(String),
    Name(Name),
    Binary(Operator, Box<Expr>, Box<Expr>),
    Call(Name, Vec<Expr>),
}

/// What an expression is, as a mathematical tree.
pub enum ExprView {
    IntLiteral(i64),
    StringLiteral(Seq<char>),
    Name(Seq<char>),
    Binary(Operator, Box<ExprView>, Box<ExprView>),
    Call(Seq<char>, Seq<ExprView>),
}

impl View for Expr {
    type V = ExprView;

    open spec fn view(&self) -> ExprView {
        self.model()
    }
}

/// The views of a sequence of expressions, in order.
pub open spec fn exprs_view(exprs: Seq<Expr>) -> Seq<ExprView> {
    Seq::new(exprs.len(), |i: int| exprs[i]@)
}

impl Expr {
    /// The tree with every string and vector replaced by its sequence.
    pub open spec fn model(&self) -> ExprView
        decreases self,
    {
        match self {
            Expr::IntLiteral(n) => ExprView::IntLiteral(*n),
            Expr::StringLiteral(s) => ExprView::StringLiteral(s@),
            Expr::Name(n) => ExprView::Name(n@),
            Expr::Binary(op, l, r) => ExprView::Binary(
                *op,
                Box::new(l.model()),
                Box::new(r.model()),
            ),
            Expr::Call(n, args) => ExprView::Call(
                n@,
                Seq::new(
                    args@.len(),
                    |i: int|
                        if 0 <= i < args@.len() {
                            args@[i].model()
                        } else {
                            ExprView::IntLiteral(0)
                        },
                ),
            ),
        }
    }

    /// The view of a call is the call of the views.
    pub proof fn lemma_view_call(name: Name, args: Vec<Expr>)
        ensures
            Expr::Call(name, args)@ == ExprView::Call(name@, exprs_view(args@)),
    {
        let e = Expr::Call(name, args);
        assert(e.model()->Call_1 =~= exprs_view(args@));
    }

    /// The sum of two expressions.
    pub fn add(left: Expr, right: Expr) -> (r: Self)
        ensures
            r@ == ExprView::Binary(Operator::Add, Box::new(left@), Box::new(right@)),
    {
        Expr::Binary(Operator::Add, Box::new(left), Box::new(right))
    }

    /// The difference of two expressions.
    pub fn sub(left: Expr, right: Expr) -> (r: Self)
        ensures
            r@ == ExprView::Binary(Operator::Sub, Box::new(left@), Box::new(right@)),
    {
        Expr::Binary(Operator::Sub, Box::new(left), Box::new(right))
    }

    /// The product of two expressions.
    pub fn mul(left: Expr, right: Expr) -> (r: Self)
        ensures
            r@ == ExprView::Binary(Operator::Mul, Box::new(left@), Box::new(right@)),
    {
        Expr::Binary(Operator::Mul, Box::new(left), Box::new(right))
    }

    /// The quotient of two expressions.
    pub fn div(left: Expr, right: Expr) -> (r: Self)
        ensures
            r@ == ExprView::Binary(Operator::Div, Box::new(left@), Box::new(right@)),
    {
        Expr::Binary(Operator::Div, Box::new(left), Box::new(right))
    }
}

impl Clone for Expr {
    fn clone(&self) -> (r: Self)
        ensures
            r@ == self@,
        decreases self,
    {
        match self {
            Expr::IntLiteral(n) => Expr::IntLiteral(*n),
            Expr::StringLiteral(s) => Expr::StringLiteral(s.clone()),
            Expr::Name(n) => Expr::Name(n.clone()),
            Expr::Binary(op, l, r) => {
                let left = (&**l).clone();
                let right = (&**r).clone();
                Expr::Binary(*op, Box::new(left), Box::new(right))
            },
            Expr::Call(n, args) => {
                let mut copies: Vec<Expr> = Vec::new();
                let mut i: usize = 0;
                while i < args.len()
                    invariant
                        i <= args.len(),
                        copies.len() == i,
                        forall|j: int| 0 <= j < i ==> copies[j]@ == args[j]@,
                        forall|j: int| 0 <= j < args.len() ==> decreases_to!(self => args[j]),
                    decreases args.len() - i,
                {
                    let copy = args[i].clone();
                    copies.push(copy);
                    i += 1;
                }
                let name = n.clone();
                proof {
                    Expr::lemma_view_call(name, copies);
                    Expr::lemma_view_call(*n, *args);
                    assert(exprs_view(copies@) =~= exprs_view(args@));
                }
                Expr::Call(name, copies)
            },
        }
    }
}

/// A statement. Both bodies of an `If` are always present.
#[derive(Debug, PartialEq)]
pub enum Stmt {
    Expr(Expr),
    Let(Name, Expr),
    Return(Expr),
    If(Expr, Vec<Stmt>, Vec<Stmt>),
    For(Box<Stmt>, Expr, Expr, Vec<Stmt>),
    Assign(Name, Box<Expr>),
}

/// What a statement is, as a mathematical tree. Both bodies of an `If` are
/// always present; a missing `else` is the empty sequence.
pub enum StmtView {
    Expr(ExprView),
    Let(Seq<char>, ExprView),
    Return(ExprView),
    If(ExprView, Seq<StmtView>, Seq<StmtView>),
    For(Box<StmtView>, ExprView, ExprView, Seq<StmtView>),
    Assign(Seq<char>, ExprView),
}

impl View for Stmt {
    type V = StmtView;

    open spec fn view(&self) -> StmtView {
        self.model()
    }
}

/// The views of a sequence of statements, in order.
pub open spec fn stmts_view(stmts: Seq<Stmt>) -> Seq<StmtView> {
    Seq::new(stmts.len(), |i: int| stmts[i]@)
}

impl Stmt {
    /// The tree with every string and vector replaced by its sequence.
    pub open spec fn model(&self) -> StmtView
        decreases self,
    {
        match self {
            Stmt::Expr(e) => StmtView::Expr(e@),
            Stmt::Let(n, e) => StmtView::Let(n@, e@),
            Stmt::Return(e) => StmtView::Return(e@),
            Stmt::If(c, t, e) => StmtView::If(
                c@,
                Seq::new(
                    t@.len(),
                    |i: int|
                        if 0 <= i < t@.len() {
                            t@[i].model()
                        } else {
                            StmtView::Expr(ExprView::IntLiteral(0))
                        },
                ),
                Seq::new(
                    e@.len(),
                    |i: int|
                        if 0 <= i < e@.len() {
                            e@[i].model()
                        } else {
                            StmtView::Expr(ExprView::IntLiteral(0))
                        },
                ),
            ),
            Stmt::For(init, c, step, body) => StmtView::For(
                Box::new(init.model()),
                c@,
                step@,
                Seq::new(
                    body@.len(),
                    |i: int|
                        if 0 <= i < body@.len() {
                            body@[i].model()
                        } else {
                            StmtView::Expr(ExprView::IntLiteral(0))
                        },
                ),
            ),
            Stmt::Assign(n, e) => StmtView::Assign(n@, e@),
        }
    }

    /// The view of a conditional is the conditional of the views.
    pub proof fn lemma_view_if(cond: Expr, then_body: Vec<Stmt>, else_body: Vec<Stmt>)
        ensures
            Stmt::If(cond, then_body, else_body)@ == StmtView::If(
                cond@,
                stmts_view(then_body@),
                stmts_view(else_body@),
            ),
    {
        let s = Stmt::If(cond, then_body, else_body);
        assert(s.model()->If_1 =~= stmts_view(then_body@));
        assert(s.model()->If_2 =~= stmts_view(else_body@));
    }

    /// The view of a loop is the loop of the views.
    pub proof fn lemma_view_for(init: Box<Stmt>, cond: Expr, step: Expr, body: Vec<Stmt>)
        ensures
            Stmt::For(init, cond, step, body)@ == StmtView::For(
                Box::new(init@),
                cond@,
                step@,
                stmts_view(body@),
            ),
    {
        let s = Stmt::For(init, cond, step, body);
        assert(s.model()->For_3 =~= stmts_view(body@));
    }
}

/// A copy of a statement sequence, statement by statement.
fn clone_stmts(stmts: &Vec<Stmt>) -> (r: Vec<Stmt>)
    ensures
        stmts_view(r@) == stmts_view(stmts@),
    decreases stmts,
{
    let mut copies: Vec<Stmt> = Vec::new();
    let mut i: usize = 0;
    while i < stmts.len()
        invariant
            i <= stmts.len(),
            copies.len() == i,
            forall|j: int| 0 <= j < i ==> copies[j]@ == stmts[j]@,
        decreases stmts.len() - i,
    {
        let copy = stmts[i].clone();
        copies.push(copy);
        i += 1;
    }
    assert(stmts_view(copies@) =~= stmts_view(stmts@));
    copies
}

impl Clone for Stmt {
    fn clone(&self) -> (r: Self)
        ensures
            r@ == self@,
        decreases self,
    {
        match self {
            Stmt::Expr(e) => Stmt::Expr(e.clone()),
            Stmt::Let(n, e) => Stmt::Let(n.clone(), e.clone()),
            Stmt::Return(e) => Stmt::Return(e.clone()),
            Stmt::If(c, t, e) => {
                let cond = c.clone();
                let then_body = clone_stmts(t);
                let else_body = clone_stmts(e);
                proof {
                    Stmt::lemma_view_if(cond, then_body, else_body);
                    Stmt::lemma_view_if(*c, *t, *e);
                }
                Stmt::If(cond, then_body, else_body)
            },
            Stmt::For(init, c, step, body) => {
                let first = Box::new((&**init).clone());
                let cond = c.clone();
                let next = step.clone();
                let inner = clone_stmts(body);
                proof {
                    Stmt::lemma_view_for(first, cond, next, inner);
                    Stmt::lemma_view_for(*init, *c, *step, *body);
                }
                Stmt::For(first, cond, next, inner)
            },
            Stmt::Assign(n, e) => {
                let value = (&**e).clone();
                Stmt::Assign(n.clone(), Box::new(value))
            },
        }
    }
}

/// A function: its name, its parameters and its body. Every parameter and
/// the result have the one scalar type of the language.
#[derive(Debug, PartialEq)]
pub struct Function {
    pub name: Name,
    pub args: Vec<Name>,
    pub body: Vec<Stmt>,
}

/// What a function is, as a mathematical value.
pub struct FunctionView {
    pub name: Seq<char>,
    pub args: Seq<Seq<char>>,
    pub body: Seq<StmtView>,
}

impl View for Function {
    type V = FunctionView;

    open spec fn view(&self) -> FunctionView {
        FunctionView {
            name: self.name@,
            args: names_view(self.args@),
            body: stmts_view(self.body@),
        }
    }
}

impl Clone for Function {
    fn clone(&self) -> (r: Self)
        ensures
            r@ == self@,
    {
        let mut args: Vec<Name> = Vec::new();
        let mut i: usize = 0;
        while i < self.args.len()
            invariant
                i <= self.args.len(),
                args.len() == i,
                forall|j: int| 0 <= j < i ==> args[j]@ == self.args[j]@,
            decreases self.args.len() - i,
        {
            args.push(self.args[i].clone());
            i += 1;
        }
        assert(names_view(args@) =~= names_view(self.args@));
        Function { name: self.name.clone(), args, body: clone_stmts(&self.body) }
    }
}

/// A program: its functions, in the order of the source text.
#[derive(Debug, PartialEq)]
pub struct Program {
    pub functions: Vec<Function>,
}

/// What a program is, as a mathematical value.
pub struct ProgramView {
    pub functions: Seq<FunctionView>,
}

/// The views of a sequence of functions, in order.
pub open spec fn functions_view(functions: Seq<Function>) -> Seq<FunctionView> {
    Seq::new(functions.len(), |i: int| functions[i]@)
}

impl View for Program {
    type V = ProgramView;

    open spec fn view(&self) -> ProgramView {
        ProgramView { functions: functions_view(self.functions@) }
    }
}

impl Clone for Program {
    fn clone(&self) -> (r: Self)
        ensures
            r@ == self@,
    {
        let mut functions: Vec<Function> = Vec::new();
        let mut i: usize = 0;
        while i < self.functions.len()
            invariant
                i <= self.functions.len(),
                functions.len() == i,
                forall|j: int| 0 <= j < i ==> functions[j]@ == self.functions[j]@,
            decreases self.functions.len() - i,
        {
            functions.push(self.functions[i].clone());
            i += 1;
        }
        let r = Program { functions };
        assert(r@.functions =~= self@.functions);
        r
    }
}

} // verus!
