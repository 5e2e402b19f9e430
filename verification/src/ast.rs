//! The typed expression tree the parser produces and the evaluator
//! consumes, together with its abstract (view) counterpart over
//! mathematical sequences, which all contracts are stated over.

use vstd::prelude::*;

verus! {

use crate::error::ErrV;
use crate::error::VMError;
use crate::error::res_view;

/// A binary operator over base-26 values.
#[derive(Debug, Clone, Copy, PartialEq, Eq, Structural)]
pub enum BinaryOp {
    Add,
    Sub,
    Mul,
    Div,
    Lt,
    Gt,
    Le,
    Ge,
    Eq,
    Ne,
}

/// One node of the expression tree. Children are exclusively owned:
/// the tree is finite, acyclic and immutable once built.
#[derive(Debug, PartialEq)]
pub enum Expression {
    Variable(String),
    Literal(String),
    BinaryOp(Box<Expression>, BinaryOp, Box<Expression>),
    Output(Box<Expression>),
    Input(String),
    Assign(String, Box<Expression>),
    Return(Box<Expression>),
    Call(String, Vec<Expression>),
    Function(String, Vec<String>, Box<Expression>),
    Loop(Option<Box<Expression>>, Box<Expression>),
    Break,
    ChainedOp(Vec<ChainOp>),
    Block(Vec<Expression>),
}

/// One step of an operator chain. A chain threads a single running
/// accumulator value from step to step; `Output` writes that
/// accumulator and takes no argument of its own.
#[derive(Debug, PartialEq)]
pub enum ChainOp {
    Input(String),
    Output,
    Assign(String, Box<Expression>),
    Return(Box<Expression>),
    Call(String, Vec<Expression>),
    Function(String, Vec<String>, Box<Expression>),
    Loop(Option<Box<Expression>>, Box<Expression>),
    Break,
}

/// The abstract value of an [`Expression`].
pub enum ExprV {
    Variable(Seq<char>),
    Literal(Seq<char>),
    BinaryOp(Box<ExprV>, BinaryOp, Box<ExprV>),
    Output(Box<ExprV>),
    Input(Seq<char>),
    Assign(Seq<char>, Box<ExprV>),
    Return(Box<ExprV>),
    Call(Seq<char>, Seq<ExprV>),
    Function(Seq<char>, Seq<Seq<char>>, Box<ExprV>),
    Loop(Option<Box<ExprV>>, Box<ExprV>),
    Break,
    ChainedOp(Seq<ChainOpV>),
    Block(Seq<ExprV>),
}

/// The abstract value of a [`ChainOp`].
pub enum ChainOpV {
    Input(Seq<char>),
    Output,
    Assign(Seq<char>, Box<ExprV>),
    Return(Box<ExprV>),
    Call(Seq<char>, Seq<ExprV>),
    Function(Seq<char>, Seq<Seq<char>>, Box<ExprV>),
    Loop(Option<Box<ExprV>>, Box<ExprV>),
    Break,
}

/// The views of a sequence of parameter names.
pub open spec fn strings_view(s: Seq<String>) -> Seq<Seq<char>> {
    s.map_values(|x: String| x@)
}

/// The view of an expression tree.
pub open spec fn expr_view(e: Expression) -> ExprV
    decreases e,
{
    match e {
        Expression::Variable(name) => ExprV::Variable(name@),
        Expression::Literal(value) => ExprV::Literal(value@),
        Expression::BinaryOp(l, op, r) => ExprV::BinaryOp(
            Box::new(expr_view(*l)),
            op,
            Box::new(expr_view(*r)),
        ),
        Expression::Output(e1) => ExprV::Output(Box::new(expr_view(*e1))),
        Expression::Input(name) => ExprV::Input(name@),
        Expression::Assign(name, e1) => ExprV::Assign(name@, Box::new(expr_view(*e1))),
        Expression::Return(e1) => ExprV::Return(Box::new(expr_view(*e1))),
        Expression::Call(name, args) => ExprV::Call(name@, exprs_view(args@)),
        Expression::Function(name, params, body) => ExprV::Function(
            name@,
            strings_view(params@),
            Box::new(expr_view(*body)),
        ),
        Expression::Loop(cond, body) => ExprV::Loop(
            match cond {
                Some(c) => Some(Box::new(expr_view(*c))),
                None => None,
            },
            Box::new(expr_view(*body)),
        ),
        Expression::Break => ExprV::Break,
        Expression::ChainedOp(ops) => ExprV::ChainedOp(chains_view(ops@)),
        Expression::Block(exprs) => ExprV::Block(exprs_view(exprs@)),
    }
}

/// The views of a sequence of expressions.
pub open spec fn exprs_view(s: Seq<Expression>) -> Seq<ExprV>
    decreases s,
{
    if s.len() == 0 {
        Seq::empty()
    } else {
        exprs_view(s.drop_last()).push(expr_view(s.last()))
    }
}

/// The view of one chain step.
pub open spec fn chain_view(c: ChainOp) -> ChainOpV
    decreases c,
{
    match c {
        ChainOp::Input(name) => ChainOpV::Input(name@),
        ChainOp::Output => ChainOpV::Output,
        ChainOp::Assign(name, e1) => ChainOpV::Assign(name@, Box::new(expr_view(*e1))),
        ChainOp::Return(e1) => ChainOpV::Return(Box::new(expr_view(*e1))),
        ChainOp::Call(name, args) => ChainOpV::Call(name@, exprs_view(args@)),
        ChainOp::Function(name, params, body) => ChainOpV::Function(
            name@,
            strings_view(params@),
            Box::new(expr_view(*body)),
        ),
        ChainOp::Loop(cond, body) => ChainOpV::Loop(
            match cond {
                Some(c1) => Some(Box::new(expr_view(*c1))),
                None => None,
            },
            Box::new(expr_view(*body)),
        ),
        ChainOp::Break => ChainOpV::Break,
    }
}

/// The views of a sequence of chain steps.
pub open spec fn chains_view(s: Seq<ChainOp>) -> Seq<ChainOpV>
    decreases s,
{
    if s.len() == 0 {
        Seq::empty()
    } else {
        chains_view(s.drop_last()).push(chain_view(s.last()))
    }
}

impl View for Expression {
    type V = ExprV;

    open spec fn view(&self) -> ExprV {
        expr_view(*self)
    }
}

impl View for ChainOp {
    type V = ChainOpV;

    open spec fn view(&self) -> ChainOpV {
        chain_view(*self)
    }
}

/// A sequence of expressions views element by element.
pub proof fn lemma_exprs_view(s: Seq<Expression>)
    ensures
        exprs_view(s).len() == s.len(),
        forall|i: int| 0 <= i < s.len() ==> exprs_view(s)[i] == expr_view(s[i]),
    decreases s,
{
    if s.len() > 0 {
        lemma_exprs_view(s.drop_last());
    }
}

/// A sequence of chain steps views element by element.
pub proof fn lemma_chains_view(s: Seq<ChainOp>)
    ensures
        chains_view(s).len() == s.len(),
        forall|i: int| 0 <= i < s.len() ==> chains_view(s)[i] == chain_view(s[i]),
    decreases s,
{
    if s.len() > 0 {
        lemma_chains_view(s.drop_last());
    }
}

/// Things built from one line of source text.
pub trait Parseable: Sized + View {
    /// The value that parsing the given text must produce.
    spec fn parse_spec(input: Seq<char>) -> Result<Self::V, ErrV>;

    /// Parse one line of source text.
    fn parse(input: &str) -> (r: Result<Self, VMError>)
        ensures
            res_view(r) == Self::parse_spec(input@),
    ;
}

/// Things that can say whether they are a single-letter atom.
pub trait Atom: View {
    /// Whether this value is a one-character variable or literal.
    spec fn single_letter_spec(&self) -> bool;

    /// Decide [`Atom::single_letter_spec`] executably.
    fn is_single_letter(&self) -> (r: bool)
        ensures
            r == self.single_letter_spec(),
    ;
}

impl Atom for Expression {
    open spec fn single_letter_spec(&self) -> bool {
        match *self {
            Expression::Variable(_) => self@ matches ExprV::Variable(n) && n.len() == 1,
            Expression::Literal(_) => self@ matches ExprV::Literal(v) && v.len() == 1,
            _ => false,
        }
    }

    fn is_single_letter(&self) -> (r: bool) {
        match self {
            Expression::Variable(name) => name.as_str().unicode_len() == 1,
            Expression::Literal(value) => value.as_str().unicode_len() == 1,
            _ => false,
        }
    }
}

/// Copy a vector of names; the copy views the same.
pub fn strings_clone(v: &Vec<String>) -> (r: Vec<String>)
    ensures
        strings_view(r@) == strings_view(v@),
        r@.len() == v@.len(),
{
    let mut out: Vec<String> = Vec::new();
    let n = v.len();
    let mut i: usize = 0;
    while i < n
        invariant
            0 <= i <= n,
            n == v@.len(),
            out@.len() == i,
            forall|j: int| 0 <= j < i ==> out@[j]@ == v@[j]@,
        decreases n - i,
    {
        out.push(v[i].clone());
        i += 1;
    }
    proof {
        assert(strings_view(out@) =~= strings_view(v@));
    }
    out
}

/// Copy an expression tree; the copy views the same.
pub fn expr_clone(e: &Expression) -> (r: Expression)
    ensures
        r@ == e@,
    decreases *e,
{
    match e {
        Expression::Variable(name) => Expression::Variable(name.clone()),
        Expression::Literal(value) => Expression::Literal(value.clone()),
        Expression::BinaryOp(l, op, r1) => Expression::BinaryOp(
            Box::new(expr_clone(l)),
            *op,
            Box::new(expr_clone(r1)),
        ),
        Expression::Output(e1) => Expression::Output(Box::new(expr_clone(e1))),
        Expression::Input(name) => Expression::Input(name.clone()),
        Expression::Assign(name, e1) => Expression::Assign(name.clone(), Box::new(expr_clone(e1))),
        Expression::Return(e1) => Expression::Return(Box::new(expr_clone(e1))),
        Expression::Call(name, args) => Expression::Call(name.clone(), exprs_clone(args)),
        Expression::Function(name, params, body) => Expression::Function(
            name.clone(),
            strings_clone(params),
            Box::new(expr_clone(body)),
        ),
        Expression::Loop(cond, body) => Expression::Loop(
            match cond {
                Some(c) => Some(Box::new(expr_clone(c))),
                None => None,
            },
            Box::new(expr_clone(body)),
        ),
        Expression::Break => Expression::Break,
        Expression::ChainedOp(ops) => Expression::ChainedOp(chains_clone(ops)),
        Expression::Block(exprs) => Expression::Block(exprs_clone(exprs)),
    }
}

/// Copy a vector of expressions; the copy views the same.
pub fn exprs_clone(v: &Vec<Expression>) -> (r: Vec<Expression>)
    ensures
        exprs_view(r@) == exprs_view(v@),
        r@.len() == v@.len(),
    decreases v@,
{
    let mut out: Vec<Expression> = Vec::new();
    let n = v.len();
    let mut i: usize = 0;
    while i < n
        invariant
            0 <= i <= n,
            n == v@.len(),
            out@.len() == i,
            forall|j: int| 0 <= j < i ==> out@[j]@ == v@[j]@,
        decreases n - i,
    {
        out.push(expr_clone(&v[i]));
        i += 1;
    }
    proof {
        lemma_exprs_view(out@);
        lemma_exprs_view(v@);
        assert(exprs_view(out@) =~= exprs_view(v@));
    }
    out
}

/// Copy one chain step; the copy views the same.
pub fn chain_clone(c: &ChainOp) -> (r: ChainOp)
    ensures
        r@ == c@,
    decreases *c,
{
    match c {
        ChainOp::Input(name) => ChainOp::Input(name.clone()),
        ChainOp::Output => ChainOp::Output,
        ChainOp::Assign(name, e1) => ChainOp::Assign(name.clone(), Box::new(expr_clone(e1))),
        ChainOp::Return(e1) => ChainOp::Return(Box::new(expr_clone(e1))),
        ChainOp::Call(name, args) => ChainOp::Call(name.clone(), exprs_clone(args)),
        ChainOp::Function(name, params, body) => ChainOp::Function(
            name.clone(),
            strings_clone(params),
            Box::new(expr_clone(body)),
        ),
        ChainOp::Loop(cond, body) => ChainOp::Loop(
            match cond {
                Some(c1) => Some(Box::new(expr_clone(c1))),
                None => None,
            },
            Box::new(expr_clone(body)),
        ),
        ChainOp::Break => ChainOp::Break,
    }
}

/// Copy a vector of chain steps; the copy views the same.
pub fn chains_clone(v: &Vec<ChainOp>) -> (r: Vec<ChainOp>)
    ensures
        chains_view(r@) == chains_view(v@),
        r@.len() == v@.len(),
    decreases v@,
{
    let mut out: Vec<ChainOp> = Vec::new();
    let n = v.len();
    let mut i: usize = 0;
    while i < n
        invariant
            0 <= i <= n,
            n == v@.len(),
            out@.len() == i,
            forall|j: int| 0 <= j < i ==> out@[j]@ == v@[j]@,
        decreases n - i,
    {
        out.push(chain_clone(&v[i]));
        i += 1;
    }
    proof {
        lemma_chains_view(out@);
        lemma_chains_view(v@);
        assert(chains_view(out@) =~= chains_view(v@));
    }
    out
}

/// A whole parsed input: one expression for a single line, or a
/// program of one node per non-blank line.
#[derive(Debug)]
pub enum PikoAst {
    Expression(Expression),
    Program(Vec<PikoAst>),
}

/// The abstract value of a [`PikoAst`].
pub enum PikoAstV {
    Expression(ExprV),
    Program(Seq<PikoAstV>),
}

/// The view of a parsed input.
pub open spec fn ast_view(a: PikoAst) -> PikoAstV
    decreases a,
{
    match a {
        PikoAst::Expression(e) => PikoAstV::Expression(expr_view(e)),
        PikoAst::Program(nodes) => PikoAstV::Program(asts_view(nodes@)),
    }
}

/// The views of a sequence of parsed inputs.
pub open spec fn asts_view(s: Seq<PikoAst>) -> Seq<PikoAstV>
    decreases s,
{
    if s.len() == 0 {
        Seq::empty()
    } else {
        asts_view(s.drop_last()).push(ast_view(s.last()))
    }
}

impl View for PikoAst {
    type V = PikoAstV;

    open spec fn view(&self) -> PikoAstV {
        ast_view(*self)
    }
}

/// A sequence of parsed inputs views element by element.
pub proof fn lemma_asts_view(s: Seq<PikoAst>)
    ensures
        asts_view(s).len() == s.len(),
        forall|i: int| 0 <= i < s.len() ==> asts_view(s)[i] == ast_view(s[i]),
    decreases s,
{
    if s.len() > 0 {
        lemma_asts_view(s.drop_last());
    }
}

impl Atom for PikoAst {
    open spec fn single_letter_spec(&self) -> bool {
        match *self {
            PikoAst::Expression(_) => self@ matches PikoAstV::Expression(ev) && ((ev matches
            ExprV::Variable(n) && n.len() == 1) || (ev matches ExprV::Literal(v) && v.len()
                == 1)),
            PikoAst::Program(_) => false,
        }
    }

    fn is_single_letter(&self) -> (r: bool) {
        match self {
            PikoAst::Expression(e) => e.is_single_letter(),
            PikoAst::Program(_) => false,
        }
    }
}

/// One statement of a program: an expression evaluated for its effect.
#[derive(Debug)]
pub enum Statement {
    Expression(Expression),
}

impl View for Statement {
    type V = ExprV;

    open spec fn view(&self) -> ExprV {
        match self {
            Statement::Expression(e) => expr_view(*e),
        }
    }
}

impl Atom for Statement {
    open spec fn single_letter_spec(&self) -> bool {
        match *self {
            Statement::Expression(_) => (self@ matches ExprV::Variable(n) && n.len() == 1) || (
            self@ matches ExprV::Literal(v) && v.len() == 1),
        }
    }

    fn is_single_letter(&self) -> (r: bool) {
        match self {
            Statement::Expression(e) => e.is_single_letter(),
        }
    }
}

} // verus!
