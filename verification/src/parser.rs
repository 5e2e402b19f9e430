//! Building the typed expression tree from one line of source text.
//!
//! The pipeline is: strip a line comment, trim, classify the short
//! forms (quoted literal, bare variable, bare literal), and otherwise
//! read a parenthesised symbolic expression and dispatch on its first
//! symbol. A multi-letter symbol over the operator letters is an
//! operator chain: each letter is one step, and the steps consume the
//! remaining list elements through a cursor, each by its own arity.
//!
//! Every executable function returns exactly what its spec function
//! describes; `parse_expression_spec` is the grammar of the language.

use vstd::prelude::*;

verus! {

use crate::ast::BinaryOp;
use crate::ast::ChainOp;
use crate::ast::ChainOpV;
use crate::ast::chains_view;
use crate::ast::exprs_view;
use crate::ast::lemma_chains_view;
use crate::ast::lemma_exprs_view;
use crate::ast::strings_view;
use crate::ast::ExprV;
use crate::ast::Expression;
use crate::ast::Parseable;
use crate::ast::PikoAst;
use crate::ast::PikoAstV;
use crate::ast::Statement;
use crate::ast::asts_view;
use crate::ast::lemma_asts_view;
use crate::codec::is_lower;
use crate::codec::is_lower_str;
use crate::error::ErrV;
use crate::error::VMError;
use crate::error::VMResult;
use crate::error::res_view;
use crate::sexpr::SExpr;
use crate::sexpr::SExprV;
use crate::sexpr::lemma_sexprs_view;
use crate::sexpr::read_sexpr;
use crate::sexpr::read_sexpr_spec;
use crate::sexpr::sexprs_view;
use crate::text::push_char;
use crate::text::str_eq;
use crate::text::split_lines;
use crate::text::split_lines_spec;
use crate::text::trim_spec;
use crate::text::trim_str;

/// The parser: associated functions from source text to the tree.
pub struct Parser;

/// Whether the trimmed text is wrapped in one pair of double quotes.
pub open spec fn is_string_literal_spec(s: Seq<char>) -> bool {
    s.len() >= 2 && s.first() == '"' && s.last() == '"'
}

/// Whether the text is a bare variable name: non-empty, all lowercase.
pub open spec fn is_variable_spec(s: Seq<char>) -> bool {
    s.len() > 0 && is_lower(s)
}

/// Whether the trimmed text looks like a parenthesised expression.
pub open spec fn is_s_expression_spec(s: Seq<char>) -> bool {
    s.len() > 0 && s.first() == '(' && s.last() == ')'
}

/// The position at which a line comment cuts the text, scanning from
/// `i` with the given in-string and escape-pending states.
pub open spec fn comment_cut(s: Seq<char>, i: int, in_string: bool, escape: bool) -> int
    decreases s.len() - i,
{
    if !(0 <= i < s.len()) {
        s.len() as int
    } else if escape {
        comment_cut(s, i + 1, in_string, false)
    } else if s[i] == '\\' && in_string {
        comment_cut(s, i + 1, in_string, true)
    } else if s[i] == '"' {
        comment_cut(s, i + 1, !in_string, false)
    } else if s[i] == '#' && !in_string {
        i
    } else {
        comment_cut(s, i + 1, in_string, false)
    }
}

/// The text up to its line comment, if any.
pub open spec fn strip_comments_spec(s: Seq<char>) -> Seq<char> {
    s.subrange(0, comment_cut(s, 0, false, false))
}

/// A parse error with the given text.
pub open spec fn perr(msg: Seq<char>) -> Result<ExprV, ErrV> {
    Err(ErrV::Parse(msg))
}

/// The operator symbol of a list head: the head must be a bare symbol.
pub open spec fn extract_operator_spec(v: SExprV) -> Result<Seq<char>, ErrV> {
    match v {
        SExprV::Symbol(s) => Ok(s),
        _ => Err(ErrV::Parse("First element must be an operator"@)),
    }
}

/// A name argument: the node must be a bare symbol, else the given
/// error text is reported.
pub open spec fn extract_symbol_spec(v: SExprV, msg: Seq<char>) -> Result<Seq<char>, ErrV> {
    match v {
        SExprV::Symbol(s) => Ok(s),
        _ => Err(ErrV::Parse(msg)),
    }
}

/// A leaf or list of the symbolic tree as an expression.
pub open spec fn parse_sexpr_spec(v: SExprV) -> Result<ExprV, ErrV>
    decreases v, 4int, 0int,
{
    match v {
        SExprV::Symbol(s) => {
            if is_variable_spec(s) {
                Ok(ExprV::Variable(s))
            } else {
                Ok(ExprV::Literal(s))
            }
        },
        SExprV::Str(s) => {
            if is_variable_spec(s) {
                Ok(ExprV::Variable(s))
            } else {
                Ok(ExprV::Literal(s))
            }
        },
        SExprV::List(list) => {
            if list.len() == 0 {
                perr("Empty list"@)
            } else {
                match extract_operator_spec(list[0]) {
                    Ok(op) => parse_operation_spec(op, list),
                    Err(e) => Err(e),
                }
            }
        },
    }
}

/// A list dispatched on its operator symbol.
pub open spec fn parse_operation_spec(op: Seq<char>, list: Seq<SExprV>) -> Result<ExprV, ErrV>
    decreases list, 3int, 0int,
{
    if op == "o"@ {
        parse_output_spec(list)
    } else if op == "i"@ {
        parse_input_spec(list)
    } else if op == "a"@ {
        parse_assign_spec(list)
    } else if op == "r"@ {
        parse_return_spec(list)
    } else if op == "c"@ {
        parse_call_spec(list)
    } else if op == "f"@ {
        parse_function_spec(list)
    } else if op == "l"@ {
        parse_loop_spec(list)
    } else if op == "b"@ {
        parse_break_spec(list)
    } else if op == "+"@ {
        parse_binary_op_spec(list, BinaryOp::Add)
    } else if op == "-"@ {
        parse_binary_op_spec(list, BinaryOp::Sub)
    } else if op == "*"@ {
        parse_binary_op_spec(list, BinaryOp::Mul)
    } else if op == "/"@ {
        parse_binary_op_spec(list, BinaryOp::Div)
    } else if op == "<"@ {
        parse_binary_op_spec(list, BinaryOp::Lt)
    } else if op == ">"@ {
        parse_binary_op_spec(list, BinaryOp::Gt)
    } else if op == "<="@ {
        parse_binary_op_spec(list, BinaryOp::Le)
    } else if op == ">="@ {
        parse_binary_op_spec(list, BinaryOp::Ge)
    } else if op == "=="@ {
        parse_binary_op_spec(list, BinaryOp::Eq)
    } else if op == "!="@ {
        parse_binary_op_spec(list, BinaryOp::Ne)
    } else if is_chain_op_spec(op) {
        parse_chain_op_spec(op, list)
    } else {
        perr("Unknown operator: "@ + op)
    }
}

/// `(o expr)`: exactly one argument.
pub open spec fn parse_output_spec(list: Seq<SExprV>) -> Result<ExprV, ErrV>
    decreases list, 2int, 0int,
{
    if list.len() != 2 {
        perr("o expects 1 argument"@)
    } else {
        match parse_sexpr_spec(list[1]) {
            Ok(arg) => Ok(ExprV::Output(Box::new(arg))),
            Err(e) => Err(e),
        }
    }
}

/// `(i name)`: exactly one symbol argument.
pub open spec fn parse_input_spec(list: Seq<SExprV>) -> Result<ExprV, ErrV>
    decreases list, 2int, 0int,
{
    if list.len() != 2 {
        perr("i expects 1 argument"@)
    } else {
        match extract_symbol_spec(list[1], "i expects a variable name"@) {
            Ok(var) => Ok(ExprV::Input(var)),
            Err(e) => Err(e),
        }
    }
}

/// `(a name expr)`: a symbol and a value.
pub open spec fn parse_assign_spec(list: Seq<SExprV>) -> Result<ExprV, ErrV>
    decreases list, 2int, 0int,
{
    if list.len() != 3 {
        perr("a expects 2 arguments"@)
    } else {
        match extract_symbol_spec(list[1], "a expects a variable name"@) {
            Ok(var) => match parse_sexpr_spec(list[2]) {
                Ok(e) => Ok(ExprV::Assign(var, Box::new(e))),
                Err(e) => Err(e),
            },
            Err(e) => Err(e),
        }
    }
}

/// `(r expr)`: exactly one argument.
pub open spec fn parse_return_spec(list: Seq<SExprV>) -> Result<ExprV, ErrV>
    decreases list, 2int, 0int,
{
    if list.len() != 2 {
        perr("r expects 1 argument"@)
    } else {
        match parse_sexpr_spec(list[1]) {
            Ok(e) => Ok(ExprV::Return(Box::new(e))),
            Err(e) => Err(e),
        }
    }
}

/// The elements of `list` from position `i` on, each as an expression.
pub open spec fn parse_args_spec(list: Seq<SExprV>, i: int) -> Result<Seq<ExprV>, ErrV>
    decreases list, 1int, list.len() - i,
{
    if i >= list.len() || i < 0 {
        Ok(Seq::empty())
    } else {
        match parse_sexpr_spec(list[i]) {
            Ok(e) => match parse_args_spec(list, i + 1) {
                Ok(rest) => Ok(seq![e] + rest),
                Err(e2) => Err(e2),
            },
            Err(e2) => Err(e2),
        }
    }
}

/// `(c name arg...)`: a function name and its arguments.
pub open spec fn parse_call_spec(list: Seq<SExprV>) -> Result<ExprV, ErrV>
    decreases list, 2int, 0int,
{
    if list.len() < 2 {
        perr("c expects at least 1 argument"@)
    } else {
        match extract_symbol_spec(list[1], "c expects a function name"@) {
            Ok(name) => match parse_args_spec(list, 2) {
                Ok(args) => Ok(ExprV::Call(name, args)),
                Err(e) => Err(e),
            },
            Err(e) => Err(e),
        }
    }
}

/// The symbols of `list` from position `i` up to (not including) `end`.
pub open spec fn parse_params_spec(list: Seq<SExprV>, i: int, end: int) -> Result<
    Seq<Seq<char>>,
    ErrV,
>
    decreases list, 1int, end - i,
{
    if i >= end || i < 0 || end > list.len() {
        Ok(Seq::empty())
    } else {
        match extract_symbol_spec(list[i], "f expects parameter names"@) {
            Ok(p) => match parse_params_spec(list, i + 1, end) {
                Ok(rest) => Ok(seq![p] + rest),
                Err(e) => Err(e),
            },
            Err(e) => Err(e),
        }
    }
}

/// `(f name param... body)`: a name, at least one parameter, and the
/// body as the last element.
pub open spec fn parse_function_spec(list: Seq<SExprV>) -> Result<ExprV, ErrV>
    decreases list, 2int, 0int,
{
    if list.len() < 4 {
        perr("f expects at least 3 arguments"@)
    } else {
        match extract_symbol_spec(list[1], "f expects a function name"@) {
            Ok(name) => match parse_params_spec(list, 2, list.len() - 1) {
                Ok(params) => match parse_sexpr_spec(list[list.len() - 1]) {
                    Ok(body) => Ok(ExprV::Function(name, params, Box::new(body))),
                    Err(e) => Err(e),
                },
                Err(e) => Err(e),
            },
            Err(e) => Err(e),
        }
    }
}

/// `(l body)` for an unconditional loop, or `(l cond body...)` with the
/// body wrapped in a block when it has more than one expression.
pub open spec fn parse_loop_spec(list: Seq<SExprV>) -> Result<ExprV, ErrV>
    decreases list, 2int, 0int,
{
    if list.len() < 2 {
        perr("l expects at least 1 argument"@)
    } else if list.len() == 2 {
        match parse_sexpr_spec(list[1]) {
            Ok(body) => Ok(ExprV::Loop(None, Box::new(body))),
            Err(e) => Err(e),
        }
    } else {
        match parse_sexpr_spec(list[1]) {
            Ok(cond) => match parse_args_spec(list, 2) {
                Ok(body_exprs) => {
                    if body_exprs.len() == 1 {
                        Ok(ExprV::Loop(Some(Box::new(cond)), Box::new(body_exprs[0])))
                    } else {
                        Ok(
                            ExprV::Loop(
                                Some(Box::new(cond)),
                                Box::new(ExprV::Block(body_exprs)),
                            ),
                        )
                    }
                },
                Err(e) => Err(e),
            },
            Err(e) => Err(e),
        }
    }
}

/// `(b)`: no arguments.
pub open spec fn parse_break_spec(list: Seq<SExprV>) -> Result<ExprV, ErrV>
    decreases list, 2int, 0int,
{
    if list.len() != 1 {
        perr("b expects no arguments"@)
    } else {
        Ok(ExprV::Break)
    }
}

/// `(op left right)` for a fixed binary operator.
pub open spec fn parse_binary_op_spec(list: Seq<SExprV>, op: BinaryOp) -> Result<ExprV, ErrV>
    decreases list, 2int, 0int,
{
    if list.len() != 3 {
        perr("Binary operator expects 2 arguments"@)
    } else {
        match parse_sexpr_spec(list[1]) {
            Ok(left) => match parse_sexpr_spec(list[2]) {
                Ok(right) => Ok(ExprV::BinaryOp(Box::new(left), op, Box::new(right))),
                Err(e) => Err(e),
            },
            Err(e) => Err(e),
        }
    }
}

/// A chain-step letter: one of the operator letters.
pub open spec fn is_chain_letter(c: char) -> bool {
    c == 'o' || c == 'i' || c == 'a' || c == 'r' || c == 'c' || c == 'f' || c == 'l' || c == 'b'
}

/// Whether a symbol names an operator chain: more than one character,
/// all of them operator letters.
pub open spec fn is_chain_op_spec(op: Seq<char>) -> bool {
    op.len() > 1 && (forall|i: int| 0 <= i < op.len() ==> is_chain_letter(op[i]))
}

/// The chain steps named by `sym` from letter `ci` on, consuming list
/// elements from position `ai` on. Letters `c`, `f` and `l` have no
/// chain encoding with a fixed arity and are rejected.
pub open spec fn chain_steps_spec(sym: Seq<char>, ci: int, list: Seq<SExprV>, ai: int) -> Result<
    Seq<ChainOpV>,
    ErrV,
>
    decreases list, 1int, sym.len() - ci,
{
    if ci >= sym.len() || ci < 0 {
        Ok(Seq::empty())
    } else {
        let c = sym[ci];
        if c == 'o' {
            match chain_steps_spec(sym, ci + 1, list, ai) {
                Ok(rest) => Ok(seq![ChainOpV::Output] + rest),
                Err(e) => Err(e),
            }
        } else if c == 'i' {
            if ai >= list.len() || ai < 0 {
                Err(ErrV::Parse("Missing argument for i in chain"@))
            } else {
                match extract_symbol_spec(list[ai], "i expects a variable name"@) {
                    Ok(var) => match chain_steps_spec(sym, ci + 1, list, ai + 1) {
                        Ok(rest) => Ok(seq![ChainOpV::Input(var)] + rest),
                        Err(e) => Err(e),
                    },
                    Err(e) => Err(e),
                }
            }
        } else if c == 'a' {
            if ai + 1 >= list.len() || ai < 0 {
                Err(ErrV::Parse("Missing arguments for a in chain"@))
            } else {
                match extract_symbol_spec(list[ai], "a expects a variable name"@) {
                    Ok(var) => match parse_sexpr_spec(list[ai + 1]) {
                        Ok(e) => match chain_steps_spec(sym, ci + 1, list, ai + 2) {
                            Ok(rest) => Ok(seq![ChainOpV::Assign(var, Box::new(e))] + rest),
                            Err(e2) => Err(e2),
                        },
                        Err(e2) => Err(e2),
                    },
                    Err(e2) => Err(e2),
                }
            }
        } else if c == 'r' {
            if ai >= list.len() || ai < 0 {
                Err(ErrV::Parse("Missing argument for r in chain"@))
            } else {
                match parse_sexpr_spec(list[ai]) {
                    Ok(e) => match chain_steps_spec(sym, ci + 1, list, ai + 1) {
                        Ok(rest) => Ok(seq![ChainOpV::Return(Box::new(e))] + rest),
                        Err(e2) => Err(e2),
                    },
                    Err(e2) => Err(e2),
                }
            }
        } else if c == 'b' {
            match chain_steps_spec(sym, ci + 1, list, ai) {
                Ok(rest) => Ok(seq![ChainOpV::Break] + rest),
                Err(e) => Err(e),
            }
        } else {
            Err(ErrV::Parse("Invalid chain operator: "@ + seq![c]))
        }
    }
}

/// A multi-letter operator symbol as an operator chain.
pub open spec fn parse_chain_op_spec(op: Seq<char>, list: Seq<SExprV>) -> Result<ExprV, ErrV>
    decreases list, 2int, 0int,
{
    match chain_steps_spec(op, 0, list, 1) {
        Ok(steps) => Ok(ExprV::ChainedOp(steps)),
        Err(e) => Err(e),
    }
}

/// One line of source text as an expression: strip the comment, trim,
/// classify the short forms, and otherwise read and dispatch a
/// parenthesised symbolic expression.
pub open spec fn parse_expression_spec(input: Seq<char>) -> Result<ExprV, ErrV> {
    let t = trim_spec(strip_comments_spec(input));
    if t.len() == 0 {
        perr("Empty input"@)
    } else if is_string_literal_spec(t) {
        Ok(ExprV::Literal(t.subrange(1, t.len() - 1)))
    } else if is_variable_spec(t) {
        Ok(ExprV::Variable(t))
    } else if is_s_expression_spec(t) {
        match read_sexpr_spec(t) {
            Ok(v) => parse_sexpr_spec(v),
            Err(m) => perr("Invalid S-expression: "@ + m),
        }
    } else {
        Ok(ExprV::Literal(t))
    }
}

impl Parser {
    /// Whether the text is wrapped in one pair of double quotes.
    pub fn is_string_literal(s: &str) -> (r: bool)
        ensures
            r == is_string_literal_spec(s@),
    {
        let len = s.unicode_len();
        len >= 2 && s.get_char(0) == '"' && s.get_char(len - 1) == '"'
    }

    /// Whether the text looks like a parenthesised expression.
    pub fn is_s_expression(s: &str) -> (r: bool)
        ensures
            r == is_s_expression_spec(s@),
    {
        let len = s.unicode_len();
        len > 0 && s.get_char(0) == '(' && s.get_char(len - 1) == ')'
    }

    /// Whether the text is a bare variable name.
    pub fn is_variable(s: &str) -> (r: bool)
        ensures
            r == is_variable_spec(s@),
    {
        !s.is_empty() && is_lower_str(s)
    }

    /// Whether a symbol names an operator chain.
    pub fn is_chain_op(op: &str) -> (r: bool)
        ensures
            r == is_chain_op_spec(op@),
    {
        let len = op.unicode_len();
        if len <= 1 {
            return false;
        }
        let mut i: usize = 0;
        while i < len
            invariant
                0 <= i <= len,
                len == op@.len(),
                forall|j: int| 0 <= j < i ==> is_chain_letter(op@[j]),
            decreases len - i,
        {
            let c = op.get_char(i);
            if !(c == 'o' || c == 'i' || c == 'a' || c == 'r' || c == 'c' || c == 'f' || c == 'l'
                || c == 'b') {
                return false;
            }
            i += 1;
        }
        true
    }

    /// The text up to its line comment: a `#` outside a double-quoted
    /// string cuts the rest of the line; a backslash inside a string
    /// keeps the next character verbatim.
    pub fn strip_comments(input: &str) -> (r: String)
        ensures
            r@ == strip_comments_spec(input@),
    {
        let len = input.unicode_len();
        let mut i: usize = 0;
        let mut in_string = false;
        let mut escape = false;
        while i < len
            invariant
                0 <= i <= len,
                len == input@.len(),
                comment_cut(input@, 0, false, false) == comment_cut(
                    input@,
                    i as int,
                    in_string,
                    escape,
                ),
            ensures
                0 <= i <= len,
                i == comment_cut(input@, 0, false, false),
            decreases len - i,
        {
            let c = input.get_char(i);
            if escape {
                escape = false;
                i += 1;
            } else if c == '\\' && in_string {
                escape = true;
                i += 1;
            } else if c == '"' {
                in_string = !in_string;
                i += 1;
            } else if c == '#' && !in_string {
                break ;
            } else {
                i += 1;
            }
        }
        let cut = i;
        input.substring_char(0, cut).to_owned()
    }
}

impl Parser {
    fn extract_operator(value: &SExpr) -> (r: VMResult<String>)
        ensures
            res_view(r) == extract_operator_spec(value@),
    {
        match value {
            SExpr::Symbol(s) => Ok(s.clone()),
            _ => Err(
                VMError::ParseError(String::from_str("First element must be an operator")),
            ),
        }
    }

    fn extract_symbol(value: &SExpr, error_msg: &str) -> (r: VMResult<String>)
        ensures
            res_view(r) == extract_symbol_spec(value@, error_msg@),
    {
        match value {
            SExpr::Symbol(s) => Ok(s.clone()),
            _ => Err(VMError::ParseError(error_msg.to_owned())),
        }
    }

    /// A leaf or list of the symbolic tree as an expression.
    pub fn parse_sexpr(value: &SExpr) -> (r: VMResult<Expression>)
        ensures
            res_view(r) == parse_sexpr_spec(value@),
        decreases *value, 4int, 0int,
    {
        match value {
            SExpr::Symbol(s) => {
                if Self::is_variable(s.as_str()) {
                    Ok(Expression::Variable(s.clone()))
                } else {
                    Ok(Expression::Literal(s.clone()))
                }
            },
            SExpr::Str(s) => {
                if Self::is_variable(s.as_str()) {
                    Ok(Expression::Variable(s.clone()))
                } else {
                    Ok(Expression::Literal(s.clone()))
                }
            },
            SExpr::List(items) => {
                proof {
                    lemma_sexprs_view(items@);
                }
                if items.len() == 0 {
                    return Err(VMError::ParseError(String::from_str("Empty list")));
                }
                match Self::extract_operator(&items[0]) {
                    Ok(op) => Self::parse_operation(op.as_str(), items),
                    Err(e) => Err(e),
                }
            },
        }
    }

    fn parse_operation(op: &str, list: &Vec<SExpr>) -> (r: VMResult<Expression>)
        requires
            list@.len() >= 1,
        ensures
            res_view(r) == parse_operation_spec(op@, sexprs_view(list@)),
        decreases list@, 3int, 0int,
    {
        if str_eq(op, "o") {
            Self::parse_output(list)
        } else if str_eq(op, "i") {
            Self::parse_input(list)
        } else if str_eq(op, "a") {
            Self::parse_assign(list)
        } else if str_eq(op, "r") {
            Self::parse_return(list)
        } else if str_eq(op, "c") {
            Self::parse_call(list)
        } else if str_eq(op, "f") {
            Self::parse_function(list)
        } else if str_eq(op, "l") {
            Self::parse_loop(list)
        } else if str_eq(op, "b") {
            Self::parse_break(list)
        } else if str_eq(op, "+") {
            Self::parse_binary_op(list, BinaryOp::Add)
        } else if str_eq(op, "-") {
            Self::parse_binary_op(list, BinaryOp::Sub)
        } else if str_eq(op, "*") {
            Self::parse_binary_op(list, BinaryOp::Mul)
        } else if str_eq(op, "/") {
            Self::parse_binary_op(list, BinaryOp::Div)
        } else if str_eq(op, "<") {
            Self::parse_binary_op(list, BinaryOp::Lt)
        } else if str_eq(op, ">") {
            Self::parse_binary_op(list, BinaryOp::Gt)
        } else if str_eq(op, "<=") {
            Self::parse_binary_op(list, BinaryOp::Le)
        } else if str_eq(op, ">=") {
            Self::parse_binary_op(list, BinaryOp::Ge)
        } else if str_eq(op, "==") {
            Self::parse_binary_op(list, BinaryOp::Eq)
        } else if str_eq(op, "!=") {
            Self::parse_binary_op(list, BinaryOp::Ne)
        } else if Self::is_chain_op(op) {
            Self::parse_chain_op(op, list)
        } else {
            let mut msg = String::from_str("Unknown operator: ");
            msg.append(op);
            Err(VMError::ParseError(msg))
        }
    }

    fn parse_output(list: &Vec<SExpr>) -> (r: VMResult<Expression>)
        ensures
            res_view(r) == parse_output_spec(sexprs_view(list@)),
        decreases list@, 2int, 0int,
    {
        proof {
            lemma_sexprs_view(list@);
        }
        if list.len() != 2 {
            return Err(VMError::ParseError(String::from_str("o expects 1 argument")));
        }
        match Self::parse_sexpr(&list[1]) {
            Ok(arg) => Ok(Expression::Output(Box::new(arg))),
            Err(e) => Err(e),
        }
    }

    fn parse_input(list: &Vec<SExpr>) -> (r: VMResult<Expression>)
        ensures
            res_view(r) == parse_input_spec(sexprs_view(list@)),
        decreases list@, 2int, 0int,
    {
        proof {
            lemma_sexprs_view(list@);
        }
        if list.len() != 2 {
            return Err(VMError::ParseError(String::from_str("i expects 1 argument")));
        }
        match Self::extract_symbol(&list[1], "i expects a variable name") {
            Ok(var) => Ok(Expression::Input(var)),
            Err(e) => Err(e),
        }
    }

    fn parse_assign(list: &Vec<SExpr>) -> (r: VMResult<Expression>)
        ensures
            res_view(r) == parse_assign_spec(sexprs_view(list@)),
        decreases list@, 2int, 0int,
    {
        proof {
            lemma_sexprs_view(list@);
        }
        if list.len() != 3 {
            return Err(VMError::ParseError(String::from_str("a expects 2 arguments")));
        }
        let var = match Self::extract_symbol(&list[1], "a expects a variable name") {
            Ok(var) => var,
            Err(e) => {
                return Err(e);
            },
        };
        match Self::parse_sexpr(&list[2]) {
            Ok(e) => Ok(Expression::Assign(var, Box::new(e))),
            Err(e) => Err(e),
        }
    }

    fn parse_return(list: &Vec<SExpr>) -> (r: VMResult<Expression>)
        ensures
            res_view(r) == parse_return_spec(sexprs_view(list@)),
        decreases list@, 2int, 0int,
    {
        proof {
            lemma_sexprs_view(list@);
        }
        if list.len() != 2 {
            return Err(VMError::ParseError(String::from_str("r expects 1 argument")));
        }
        match Self::parse_sexpr(&list[1]) {
            Ok(e) => Ok(Expression::Return(Box::new(e))),
            Err(e) => Err(e),
        }
    }

    fn parse_args(list: &Vec<SExpr>, i: usize) -> (r: VMResult<Vec<Expression>>)
        ensures
            match r {
                Ok(args) => parse_args_spec(sexprs_view(list@), i as int) == Ok::<
                    Seq<ExprV>,
                    ErrV,
                >(exprs_view(args@)),
                Err(e) => parse_args_spec(sexprs_view(list@), i as int) == Err::<
                    Seq<ExprV>,
                    ErrV,
                >(e@),
            },
        decreases list@, 1int, list@.len() - i,
    {
        proof {
            lemma_sexprs_view(list@);
        }
        if i >= list.len() {
            let empty: Vec<Expression> = Vec::new();
            proof {
                assert(exprs_view(empty@) =~= Seq::<ExprV>::empty());
            }
            return Ok(empty);
        }
        let e = match Self::parse_sexpr(&list[i]) {
            Ok(e) => e,
            Err(e2) => {
                return Err(e2);
            },
        };
        match Self::parse_args(list, i + 1) {
            Ok(mut rest) => {
                let ghost pre = rest@;
                rest.insert(0, e);
                proof {
                    lemma_exprs_view(rest@);
                    lemma_exprs_view(pre);
                    assert(exprs_view(rest@) =~= seq![e@] + exprs_view(pre));
                }
                Ok(rest)
            },
            Err(e2) => Err(e2),
        }
    }

    fn parse_call(list: &Vec<SExpr>) -> (r: VMResult<Expression>)
        ensures
            res_view(r) == parse_call_spec(sexprs_view(list@)),
        decreases list@, 2int, 0int,
    {
        proof {
            lemma_sexprs_view(list@);
        }
        if list.len() < 2 {
            return Err(VMError::ParseError(String::from_str("c expects at least 1 argument")));
        }
        let func_name = match Self::extract_symbol(&list[1], "c expects a function name") {
            Ok(name) => name,
            Err(e) => {
                return Err(e);
            },
        };
        match Self::parse_args(list, 2) {
            Ok(args) => Ok(Expression::Call(func_name, args)),
            Err(e) => Err(e),
        }
    }

    fn parse_params(list: &Vec<SExpr>, i: usize, end: usize) -> (r: VMResult<Vec<String>>)
        requires
            end <= list@.len(),
        ensures
            match r {
                Ok(params) => parse_params_spec(sexprs_view(list@), i as int, end as int) == Ok::<
                    Seq<Seq<char>>,
                    ErrV,
                >(strings_view(params@)),
                Err(e) => parse_params_spec(sexprs_view(list@), i as int, end as int) == Err::<
                    Seq<Seq<char>>,
                    ErrV,
                >(e@),
            },
        decreases list@, 1int, end - i,
    {
        proof {
            lemma_sexprs_view(list@);
        }
        if i >= end {
            let empty: Vec<String> = Vec::new();
            proof {
                assert(strings_view(empty@) =~= Seq::<Seq<char>>::empty());
            }
            return Ok(empty);
        }
        let p = match Self::extract_symbol(&list[i], "f expects parameter names") {
            Ok(p) => p,
            Err(e) => {
                return Err(e);
            },
        };
        match Self::parse_params(list, i + 1, end) {
            Ok(mut rest) => {
                let ghost pre = rest@;
                rest.insert(0, p);
                proof {
                    assert(strings_view(rest@) =~= seq![p@] + strings_view(pre));
                }
                Ok(rest)
            },
            Err(e) => Err(e),
        }
    }

    fn parse_function(list: &Vec<SExpr>) -> (r: VMResult<Expression>)
        ensures
            res_view(r) == parse_function_spec(sexprs_view(list@)),
        decreases list@, 2int, 0int,
    {
        proof {
            lemma_sexprs_view(list@);
        }
        if list.len() < 4 {
            return Err(VMError::ParseError(String::from_str("f expects at least 3 arguments")));
        }
        let func_name = match Self::extract_symbol(&list[1], "f expects a function name") {
            Ok(name) => name,
            Err(e) => {
                return Err(e);
            },
        };
        let params = match Self::parse_params(list, 2, list.len() - 1) {
            Ok(params) => params,
            Err(e) => {
                return Err(e);
            },
        };
        match Self::parse_sexpr(&list[list.len() - 1]) {
            Ok(body) => Ok(Expression::Function(func_name, params, Box::new(body))),
            Err(e) => Err(e),
        }
    }

    #[verifier::rlimit(60)]
    fn parse_loop(list: &Vec<SExpr>) -> (r: VMResult<Expression>)
        ensures
            res_view(r) == parse_loop_spec(sexprs_view(list@)),
        decreases list@, 2int, 0int,
    {
        proof {
            lemma_sexprs_view(list@);
        }
        if list.len() < 2 {
            return Err(VMError::ParseError(String::from_str("l expects at least 1 argument")));
        }
        if list.len() == 2 {
            return match Self::parse_sexpr(&list[1]) {
                Ok(body) => Ok(Expression::Loop(None, Box::new(body))),
                Err(e) => Err(e),
            };
        }
        let condition = match Self::parse_sexpr(&list[1]) {
            Ok(cond) => cond,
            Err(e) => {
                return Err(e);
            },
        };
        match Self::parse_args(list, 2) {
            Ok(mut body_exprs) => {
                let ghost argsv = exprs_view(body_exprs@);
                proof {
                    lemma_exprs_view(body_exprs@);
                }
                if body_exprs.len() == 1 {
                    let body = body_exprs.remove(0);
                    let r = Expression::Loop(Some(Box::new(condition)), Box::new(body));
                    proof {
                        assert(body@ == argsv[0]);
                        assert(r@ == ExprV::Loop(
                            Some(Box::new(condition@)),
                            Box::new(argsv[0]),
                        ));
                    }
                    Ok(r)
                } else {
                    let b = Expression::Block(body_exprs);
                    proof {
                        assert(b@ == ExprV::Block(argsv));
                    }
                    let r = Expression::Loop(Some(Box::new(condition)), Box::new(b));
                    proof {
                        assert(r@ == ExprV::Loop(
                            Some(Box::new(condition@)),
                            Box::new(ExprV::Block(argsv)),
                        ));
                    }
                    Ok(r)
                }
            },
            Err(e) => Err(e),
        }
    }

    fn parse_break(list: &Vec<SExpr>) -> (r: VMResult<Expression>)
        ensures
            res_view(r) == parse_break_spec(sexprs_view(list@)),
        decreases list@, 2int, 0int,
    {
        proof {
            lemma_sexprs_view(list@);
        }
        if list.len() != 1 {
            return Err(VMError::ParseError(String::from_str("b expects no arguments")));
        }
        Ok(Expression::Break)
    }

    fn parse_binary_op(list: &Vec<SExpr>, op: BinaryOp) -> (r: VMResult<Expression>)
        ensures
            res_view(r) == parse_binary_op_spec(sexprs_view(list@), op),
        decreases list@, 2int, 0int,
    {
        proof {
            lemma_sexprs_view(list@);
        }
        if list.len() != 3 {
            return Err(
                VMError::ParseError(String::from_str("Binary operator expects 2 arguments")),
            );
        }
        let left = match Self::parse_sexpr(&list[1]) {
            Ok(left) => left,
            Err(e) => {
                return Err(e);
            },
        };
        match Self::parse_sexpr(&list[2]) {
            Ok(right) => Ok(Expression::BinaryOp(Box::new(left), op, Box::new(right))),
            Err(e) => Err(e),
        }
    }

    fn parse_chain_steps(sym: &str, ci: usize, list: &Vec<SExpr>, ai: usize) -> (r: VMResult<
        Vec<ChainOp>,
    >)
        requires
            ci <= sym@.len(),
            ai <= list@.len(),
        ensures
            match r {
                Ok(steps) => chain_steps_spec(sym@, ci as int, sexprs_view(list@), ai as int)
                    == Ok::<Seq<ChainOpV>, ErrV>(chains_view(steps@)),
                Err(e) => chain_steps_spec(sym@, ci as int, sexprs_view(list@), ai as int) == Err::<
                    Seq<ChainOpV>,
                    ErrV,
                >(e@),
            },
        decreases list@, 1int, sym@.len() - ci,
    {
        proof {
            lemma_sexprs_view(list@);
        }
        if ci >= sym.unicode_len() {
            let empty: Vec<ChainOp> = Vec::new();
            proof {
                assert(chains_view(empty@) =~= Seq::<ChainOpV>::empty());
            }
            return Ok(empty);
        }
        let c = sym.get_char(ci);
        if c == 'o' {
            match Self::parse_chain_steps(sym, ci + 1, list, ai) {
                Ok(mut rest) => {
                    let ghost pre = rest@;
                    rest.insert(0, ChainOp::Output);
                    proof {
                        lemma_chains_view(rest@);
                        lemma_chains_view(pre);
                        assert(chains_view(rest@) =~= seq![ChainOpV::Output] + chains_view(pre));
                    }
                    Ok(rest)
                },
                Err(e) => Err(e),
            }
        } else if c == 'i' {
            if ai >= list.len() {
                return Err(
                    VMError::ParseError(String::from_str("Missing argument for i in chain")),
                );
            }
            let var = match Self::extract_symbol(&list[ai], "i expects a variable name") {
                Ok(var) => var,
                Err(e) => {
                    return Err(e);
                },
            };
            match Self::parse_chain_steps(sym, ci + 1, list, ai + 1) {
                Ok(mut rest) => {
                    let ghost pre = rest@;
                    let step = ChainOp::Input(var);
                    let ghost stepv = step@;
                    rest.insert(0, step);
                    proof {
                        lemma_chains_view(rest@);
                        lemma_chains_view(pre);
                        assert(chains_view(rest@) =~= seq![stepv] + chains_view(pre));
                    }
                    Ok(rest)
                },
                Err(e) => Err(e),
            }
        } else if c == 'a' {
            if ai >= list.len() || ai + 1 >= list.len() {
                return Err(
                    VMError::ParseError(String::from_str("Missing arguments for a in chain")),
                );
            }
            let var = match Self::extract_symbol(&list[ai], "a expects a variable name") {
                Ok(var) => var,
                Err(e) => {
                    return Err(e);
                },
            };
            let e = match Self::parse_sexpr(&list[ai + 1]) {
                Ok(e) => e,
                Err(e2) => {
                    return Err(e2);
                },
            };
            match Self::parse_chain_steps(sym, ci + 1, list, ai + 2) {
                Ok(mut rest) => {
                    let ghost pre = rest@;
                    let step = ChainOp::Assign(var, Box::new(e));
                    let ghost stepv = step@;
                    rest.insert(0, step);
                    proof {
                        lemma_chains_view(rest@);
                        lemma_chains_view(pre);
                        assert(chains_view(rest@) =~= seq![stepv] + chains_view(pre));
                    }
                    Ok(rest)
                },
                Err(e2) => Err(e2),
            }
        } else if c == 'r' {
            if ai >= list.len() {
                return Err(
                    VMError::ParseError(String::from_str("Missing argument for r in chain")),
                );
            }
            let e = match Self::parse_sexpr(&list[ai]) {
                Ok(e) => e,
                Err(e2) => {
                    return Err(e2);
                },
            };
            match Self::parse_chain_steps(sym, ci + 1, list, ai + 1) {
                Ok(mut rest) => {
                    let ghost pre = rest@;
                    let step = ChainOp::Return(Box::new(e));
                    let ghost stepv = step@;
                    rest.insert(0, step);
                    proof {
                        lemma_chains_view(rest@);
                        lemma_chains_view(pre);
                        assert(chains_view(rest@) =~= seq![stepv] + chains_view(pre));
                    }
                    Ok(rest)
                },
                Err(e2) => Err(e2),
            }
        } else if c == 'b' {
            match Self::parse_chain_steps(sym, ci + 1, list, ai) {
                Ok(mut rest) => {
                    let ghost pre = rest@;
                    rest.insert(0, ChainOp::Break);
                    proof {
                        lemma_chains_view(rest@);
                        lemma_chains_view(pre);
                        assert(chains_view(rest@) =~= seq![ChainOpV::Break] + chains_view(pre));
                    }
                    Ok(rest)
                },
                Err(e) => Err(e),
            }
        } else {
            let mut msg = String::from_str("Invalid chain operator: ");
            push_char(&mut msg, c);
            proof {
                assert(msg@ =~= "Invalid chain operator: "@ + seq![c]);
            }
            Err(VMError::ParseError(msg))
        }
    }

    fn parse_chain_op(op: &str, list: &Vec<SExpr>) -> (r: VMResult<Expression>)
        requires
            list@.len() >= 1,
        ensures
            res_view(r) == parse_chain_op_spec(op@, sexprs_view(list@)),
        decreases list@, 2int, 0int,
    {
        proof {
            lemma_sexprs_view(list@);
        }
        match Self::parse_chain_steps(op, 0, list, 1) {
            Ok(steps) => Ok(Expression::ChainedOp(steps)),
            Err(e) => Err(e),
        }
    }

    /// One line of source text as an expression, exactly as
    /// [`parse_expression_spec`] describes.
    pub fn parse_expression(input: &str) -> (r: VMResult<Expression>)
        ensures
            res_view(r) == parse_expression_spec(input@),
    {
        let cleaned = Self::strip_comments(input);
        let trimmed = trim_str(cleaned.as_str());
        let len = trimmed.unicode_len();
        if len == 0 {
            return Err(VMError::ParseError(String::from_str("Empty input")));
        }
        if Self::is_string_literal(trimmed) {
            let content = trimmed.substring_char(1, len - 1).to_owned();
            return Ok(Expression::Literal(content));
        }
        if Self::is_variable(trimmed) {
            return Ok(Expression::Variable(trimmed.to_owned()));
        }
        if Self::is_s_expression(trimmed) {
            return match read_sexpr(trimmed) {
                Ok(parsed) => Self::parse_sexpr(&parsed),
                Err(m) => {
                    let mut msg = String::from_str("Invalid S-expression: ");
                    msg.append(m.as_str());
                    Err(VMError::ParseError(msg))
                },
            };
        }
        Ok(Expression::Literal(trimmed.to_owned()))
    }
}

/// The nodes of a multi-line program from line `i` on: blank lines are
/// skipped, every other line parses as one expression.
pub open spec fn parse_program_spec(lines: Seq<Seq<char>>, i: int) -> Result<Seq<PikoAstV>, ErrV>
    decreases lines.len() - i,
{
    if i >= lines.len() || i < 0 {
        Ok(Seq::empty())
    } else if trim_spec(lines[i]).len() == 0 {
        parse_program_spec(lines, i + 1)
    } else {
        match parse_expression_spec(lines[i]) {
            Ok(e) => match parse_program_spec(lines, i + 1) {
                Ok(rest) => Ok(seq![PikoAstV::Expression(e)] + rest),
                Err(e2) => Err(e2),
            },
            Err(e2) => Err(e2),
        }
    }
}

/// A whole input parsed: empty input is an error, one line is one
/// expression, several lines are a program.
pub open spec fn parse_ast_spec(input: Seq<char>) -> Result<PikoAstV, ErrV> {
    let t = trim_spec(input);
    if t.len() == 0 {
        Err(ErrV::Parse("Empty input"@))
    } else {
        let lines = split_lines_spec(t);
        if lines.len() > 1 {
            match parse_program_spec(lines, 0) {
                Ok(nodes) => Ok(PikoAstV::Program(nodes)),
                Err(e) => Err(e),
            }
        } else {
            match parse_expression_spec(t) {
                Ok(e) => Ok(PikoAstV::Expression(e)),
                Err(e) => Err(e),
            }
        }
    }
}

impl Parser {
    fn parse_program(lines: &Vec<String>, i: usize) -> (r: VMResult<Vec<PikoAst>>)
        ensures
            match r {
                Ok(nodes) => parse_program_spec(
                    lines@.map_values(|x: String| x@),
                    i as int,
                ) == Ok::<Seq<PikoAstV>, ErrV>(asts_view(nodes@)),
                Err(e) => parse_program_spec(lines@.map_values(|x: String| x@), i as int) == Err::<
                    Seq<PikoAstV>,
                    ErrV,
                >(e@),
            },
        decreases lines@.len() - i,
    {
        let ghost lv = lines@.map_values(|x: String| x@);
        if i >= lines.len() {
            let empty: Vec<PikoAst> = Vec::new();
            proof {
                assert(asts_view(empty@) =~= Seq::<PikoAstV>::empty());
            }
            return Ok(empty);
        }
        let line = &lines[i];
        let lt = trim_str(line.as_str());
        if lt.unicode_len() == 0 {
            return Self::parse_program(lines, i + 1);
        }
        let e = match Self::parse_expression(line.as_str()) {
            Ok(e) => e,
            Err(e2) => {
                return Err(e2);
            },
        };
        match Self::parse_program(lines, i + 1) {
            Ok(mut rest) => {
                let ghost pre = rest@;
                let node = PikoAst::Expression(e);
                let ghost nodev = node@;
                rest.insert(0, node);
                proof {
                    lemma_asts_view(rest@);
                    lemma_asts_view(pre);
                    assert(asts_view(rest@) =~= seq![nodev] + asts_view(pre));
                }
                Ok(rest)
            },
            Err(e2) => Err(e2),
        }
    }
}

impl Parseable for Expression {
    open spec fn parse_spec(input: Seq<char>) -> Result<ExprV, ErrV> {
        parse_expression_spec(input)
    }

    fn parse(input: &str) -> (r: VMResult<Expression>) {
        Parser::parse_expression(input)
    }
}

impl Parseable for Statement {
    open spec fn parse_spec(input: Seq<char>) -> Result<ExprV, ErrV> {
        parse_expression_spec(input)
    }

    fn parse(input: &str) -> (r: VMResult<Statement>) {
        match Parser::parse_expression(input) {
            Ok(e) => Ok(Statement::Expression(e)),
            Err(e) => Err(e),
        }
    }
}

impl Parser {
    /// A whole input parsed, exactly as [`parse_ast_spec`] describes.
    pub fn parse_piko_ast(input: &str) -> (r: VMResult<PikoAst>)
        ensures
            res_view(r) == parse_ast_spec(input@),
    {
        let trimmed = trim_str(input);
        if trimmed.unicode_len() == 0 {
            return Err(VMError::ParseError(String::from_str("Empty input")));
        }
        let lines = split_lines(trimmed);
        if lines.len() > 1 {
            match Parser::parse_program(&lines, 0) {
                Ok(nodes) => Ok(PikoAst::Program(nodes)),
                Err(e) => Err(e),
            }
        } else {
            match Parser::parse_expression(trimmed) {
                Ok(e) => Ok(PikoAst::Expression(e)),
                Err(e) => Err(e),
            }
        }
    }
}

impl Parseable for PikoAst {
    open spec fn parse_spec(input: Seq<char>) -> Result<PikoAstV, ErrV> {
        parse_ast_spec(input)
    }

    fn parse(input: &str) -> (r: VMResult<PikoAst>) {
        Parser::parse_piko_ast(input)
    }
}

} // verus!
