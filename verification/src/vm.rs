//! The evaluator: mutable interpreter state (variable bindings, the
//! function table, an output buffer and an input queue) and a recursive
//! evaluation of expressions against it.
//!
//! The semantics is given by the spec interpreter `eval_expr` and its
//! helpers; every executable method returns exactly the state and
//! result the spec interpreter gives. Evaluation carries a fuel that
//! every recursive step decreases; the public entry points hand it the
//! largest fuel a 64-bit counter holds, so a program only ever sees the
//! limit error on a run that no real machine would finish anyway.
//!
//! Canonical choices (where the language's history is ambiguous): the
//! running value of a chain starts as the empty string and its `o` step
//! writes the running value; `sub` floors at the value 1; only a loop
//! reacts to the `"break"` sentinel value; an `i` step on an exhausted
//! input queue reads the empty string; arithmetic on a value that is
//! not a lowercase string is an `InvalidOperation` error rather than
//! undefined behaviour.

use vstd::prelude::*;

verus! {

use crate::ast::BinaryOp;
use crate::ast::ChainOpV;
use crate::ast::expr_view;
use crate::ast::ExprV;
use crate::ast::Expression;
use crate::ast::PikoAst;
use crate::ast::PikoAstV;
use crate::ast::ChainOp;
use crate::ast::chains_view;
use crate::ast::exprs_view;
use crate::ast::lemma_chains_view;
use crate::ast::lemma_exprs_view;
use crate::ast::strings_view;
use crate::ast::asts_view;
use crate::ast::lemma_asts_view;
use crate::codec::add_spec;
use crate::codec::div_spec;
use crate::codec::is_lower;
use crate::codec::mul_spec;
use crate::codec::sub_spec;
use crate::codec::to_num_clamped;
use crate::env::Table;
use crate::error::ErrV;
use crate::error::VMError;
use crate::error::VMResult;
use crate::error::res_view;
use crate::codec::is_lower_str;
use crate::text::str_eq;
use crate::text::trim_spec;

/// A defined function: its parameter names and its body.
pub struct FunctionDef {
    pub params: Vec<String>,
    pub body: Expression,
}

/// The abstract value of a [`FunctionDef`].
pub struct FuncV {
    pub params: Seq<Seq<char>>,
    pub body: ExprV,
}

impl View for FunctionDef {
    type V = FuncV;

    open spec fn view(&self) -> FuncV {
        FuncV { params: strings_view(self.params@), body: self.body@ }
    }
}

/// The abstract interpreter state: variable bindings, the function
/// table, the lines written so far, and the input lines still unread.
#[verifier::ext_equal]
pub struct StateV {
    pub vars: Map<Seq<char>, Seq<char>>,
    pub funcs: Map<Seq<char>, FuncV>,
    pub output: Seq<Seq<char>>,
    pub input: Seq<Seq<char>>,
}

/// The false Boolean encoding: the identity value.
pub open spec fn bool_str(b: bool) -> Seq<char> {
    if b {
        seq!['b']
    } else {
        seq!['a']
    }
}

/// The error reported when evaluation runs out of fuel.
pub open spec fn limit_err() -> ErrV {
    ErrV::Runtime("evaluation limit reached"@)
}

/// A binary operator applied to two evaluated values: an error unless
/// both are lowercase strings, else the codec's result.
pub open spec fn apply_binary_spec(l: Seq<char>, op: crate::ast::BinaryOp, r: Seq<char>) -> Result<
    Seq<char>,
    ErrV,
> {
    if !(is_lower(l) && is_lower(r)) {
        Err(ErrV::InvalidOperation("operands must be lowercase strings"@))
    } else {
        Ok(
            match op {
                crate::ast::BinaryOp::Add => add_spec(l, r),
                crate::ast::BinaryOp::Sub => sub_spec(l, r),
                crate::ast::BinaryOp::Mul => mul_spec(l, r),
                crate::ast::BinaryOp::Div => div_spec(l, r),
                crate::ast::BinaryOp::Lt => bool_str(to_num_clamped(l) < to_num_clamped(r)),
                crate::ast::BinaryOp::Gt => bool_str(to_num_clamped(l) > to_num_clamped(r)),
                crate::ast::BinaryOp::Le => bool_str(to_num_clamped(l) <= to_num_clamped(r)),
                crate::ast::BinaryOp::Ge => bool_str(to_num_clamped(l) >= to_num_clamped(r)),
                crate::ast::BinaryOp::Eq => bool_str(to_num_clamped(l) == to_num_clamped(r)),
                crate::ast::BinaryOp::Ne => bool_str(to_num_clamped(l) != to_num_clamped(r)),
            },
        )
    }
}

/// One digit character of a decimal rendering.
pub open spec fn dec_digit(d: int) -> char {
    ((48 + d) as u8) as char
}

/// The decimal rendering of a number.
pub open spec fn dec_spec(n: nat) -> Seq<char>
    decreases n,
{
    if n < 10 {
        seq![dec_digit(n as int)]
    } else {
        dec_spec(n / 10).push(dec_digit((n % 10) as int))
    }
}

/// The arity-mismatch report: expected versus actual argument counts.
pub open spec fn arity_msg(name: Seq<char>, expected: nat, got: nat) -> Seq<char> {
    "Function "@ + name + " expects "@ + dec_spec(expected) + " arguments, got "@ + dec_spec(got)
}

/// Reading one input line: the next queued line, trimmed, is bound to
/// the variable and returned; an exhausted queue reads as empty.
pub open spec fn eval_input(st: StateV, var: Seq<char>) -> (StateV, Result<Seq<char>, ErrV>) {
    let raw = if st.input.len() > 0 {
        st.input[0]
    } else {
        Seq::empty()
    };
    let line = trim_spec(raw);
    let rest = if st.input.len() > 0 {
        st.input.drop_first()
    } else {
        st.input
    };
    (StateV { vars: st.vars.insert(var, line), input: rest, ..st }, Ok(line))
}

/// The caller's bindings overlaid with the parameters bound to the
/// argument values, left to right.
pub open spec fn bind_params(
    vars: Map<Seq<char>, Seq<char>>,
    params: Seq<Seq<char>>,
    vals: Seq<Seq<char>>,
    i: int,
) -> Map<Seq<char>, Seq<char>>
    decreases params.len() - i,
{
    if i < 0 || i >= params.len() || i >= vals.len() {
        vars
    } else {
        bind_params(vars.insert(params[i], vals[i]), params, vals, i + 1)
    }
}

/// One expression evaluated against a state: the new state and the
/// resulting value or error.
pub open spec fn eval_expr(st: StateV, e: ExprV, fuel: nat) -> (StateV, Result<Seq<char>, ErrV>)
    decreases fuel, 3int, 0int,
{
    if fuel == 0 {
        (st, Err(limit_err()))
    } else {
        let f = (fuel - 1) as nat;
        match e {
            ExprV::Variable(name) => (
                st,
                Ok(
                    if st.vars.contains_key(name) {
                        st.vars[name]
                    } else {
                        name
                    },
                ),
            ),
            ExprV::Literal(v) => (st, Ok(v)),
            ExprV::BinaryOp(l, op, r) => {
                let (st1, lr) = eval_expr(st, *l, f);
                match lr {
                    Err(e1) => (st1, Err(e1)),
                    Ok(lv) => {
                        let (st2, rr) = eval_expr(st1, *r, f);
                        match rr {
                            Err(e2) => (st2, Err(e2)),
                            Ok(rv) => (st2, apply_binary_spec(lv, op, rv)),
                        }
                    },
                }
            },
            ExprV::Output(e1) => {
                let (st1, r) = eval_expr(st, *e1, f);
                match r {
                    Err(e2) => (st1, Err(e2)),
                    Ok(v) => (StateV { output: st1.output.push(v), ..st1 }, Ok(v)),
                }
            },
            ExprV::Input(var) => eval_input(st, var),
            ExprV::Assign(var, e1) => {
                let (st1, r) = eval_expr(st, *e1, f);
                match r {
                    Err(e2) => (st1, Err(e2)),
                    Ok(v) => (StateV { vars: st1.vars.insert(var, v), ..st1 }, Ok(v)),
                }
            },
            ExprV::Return(e1) => eval_expr(st, *e1, f),
            ExprV::Call(name, args) => {
                let (st1, ar) = eval_exprs(st, args, 0, fuel);
                match ar {
                    Err(e2) => (st1, Err(e2)),
                    Ok(vals) => eval_call(st1, name, vals, fuel),
                }
            },
            ExprV::Function(name, params, body) => (
                StateV { funcs: st.funcs.insert(name, FuncV { params, body: *body }), ..st },
                Ok("function_"@ + name),
            ),
            ExprV::Loop(cond, body) => eval_loop(st, cond, *body, fuel),
            ExprV::Break => (st, Ok("break"@)),
            ExprV::ChainedOp(ops) => eval_chain(st, ops, 0, Seq::empty(), fuel),
            ExprV::Block(exprs) => eval_block(st, exprs, 0, Seq::empty(), fuel),
        }
    }
}

/// The expressions from position `i` on evaluated left to right: the
/// final state and all values, or the first error.
pub open spec fn eval_exprs(st: StateV, es: Seq<ExprV>, i: int, fuel: nat) -> (
    StateV,
    Result<Seq<Seq<char>>, ErrV>,
)
    decreases fuel, 0int, es.len() - i,
{
    if fuel == 0 {
        (st, Err(limit_err()))
    } else if i < 0 || i >= es.len() {
        (st, Ok(Seq::empty()))
    } else {
        let (st1, r) = eval_expr(st, es[i], (fuel - 1) as nat);
        match r {
            Err(e) => (st1, Err(e)),
            Ok(v) => {
                let (st2, rr) = eval_exprs(st1, es, i + 1, fuel);
                match rr {
                    Err(e) => (st2, Err(e)),
                    Ok(rest) => (st2, Ok(seq![v] + rest)),
                }
            },
        }
    }
}

/// A call of a defined function: unknown names and arity mismatches
/// are runtime errors; otherwise the body runs with the caller's
/// bindings overlaid by the parameter bindings, and the caller's
/// bindings are restored afterwards whatever the outcome.
pub open spec fn eval_call(st: StateV, name: Seq<char>, vals: Seq<Seq<char>>, fuel: nat) -> (
    StateV,
    Result<Seq<char>, ErrV>,
)
    decreases fuel, 1int, 0int,
{
    if fuel == 0 {
        (st, Err(limit_err()))
    } else if !st.funcs.contains_key(name) {
        (st, Err(ErrV::Runtime("Unknown function: "@ + name)))
    } else {
        let fd = st.funcs[name];
        if vals.len() != fd.params.len() {
            (st, Err(ErrV::Runtime(arity_msg(name, fd.params.len(), vals.len()))))
        } else {
            let saved = st.vars;
            let st1 = StateV { vars: bind_params(st.vars, fd.params, vals, 0), ..st };
            let (st2, r) = eval_expr(st1, fd.body, (fuel - 1) as nat);
            (StateV { vars: saved, ..st2 }, r)
        }
    }
}

/// One loop: with a condition, stop when it evaluates to the false
/// encoding "a"; in any case stop when the body evaluates to the
/// sentinel value "break". A loop that stops yields "loop_completed".
pub open spec fn eval_loop(st: StateV, cond: Option<Box<ExprV>>, body: ExprV, fuel: nat) -> (
    StateV,
    Result<Seq<char>, ErrV>,
)
    decreases fuel, 1int, 1int,
{
    if fuel == 0 {
        (st, Err(limit_err()))
    } else {
        match cond {
            Some(c) => {
                let (st1, cr) = eval_expr(st, *c, (fuel - 1) as nat);
                match cr {
                    Err(e) => (st1, Err(e)),
                    Ok(cv) => {
                        if cv == "a"@ {
                            (st1, Ok("loop_completed"@))
                        } else {
                            eval_loop_body(st1, cond, body, fuel)
                        }
                    },
                }
            },
            None => eval_loop_body(st, cond, body, fuel),
        }
    }
}

/// One body evaluation of a loop, then the next iteration.
pub open spec fn eval_loop_body(st: StateV, cond: Option<Box<ExprV>>, body: ExprV, fuel: nat) -> (
    StateV,
    Result<Seq<char>, ErrV>,
)
    decreases fuel, 1int, 0int,
{
    if fuel == 0 {
        (st, Err(limit_err()))
    } else {
        let (st1, br) = eval_expr(st, body, (fuel - 1) as nat);
        match br {
            Err(e) => (st1, Err(e)),
            Ok(bv) => {
                if bv == "break"@ {
                    (st1, Ok("loop_completed"@))
                } else {
                    eval_loop(st1, cond, body, (fuel - 1) as nat)
                }
            },
        }
    }
}

/// One chain step applied to the running value.
pub open spec fn eval_chainop(st: StateV, op: ChainOpV, acc: Seq<char>, fuel: nat) -> (
    StateV,
    Result<Seq<char>, ErrV>,
)
    decreases fuel, 2int, 0int,
{
    if fuel == 0 {
        (st, Err(limit_err()))
    } else {
        let f = (fuel - 1) as nat;
        match op {
            ChainOpV::Input(var) => eval_input(st, var),
            ChainOpV::Output => (StateV { output: st.output.push(acc), ..st }, Ok(acc)),
            ChainOpV::Assign(var, e1) => {
                let (st1, r) = eval_expr(st, *e1, f);
                match r {
                    Err(e2) => (st1, Err(e2)),
                    Ok(v) => (StateV { vars: st1.vars.insert(var, v), ..st1 }, Ok(v)),
                }
            },
            ChainOpV::Return(e1) => eval_expr(st, *e1, f),
            ChainOpV::Call(name, args) => {
                let (st1, ar) = eval_exprs(st, args, 0, fuel);
                match ar {
                    Err(e2) => (st1, Err(e2)),
                    Ok(vals) => eval_call(st1, name, vals, fuel),
                }
            },
            ChainOpV::Function(name, params, body) => (
                StateV { funcs: st.funcs.insert(name, FuncV { params, body: *body }), ..st },
                Ok("function_"@ + name),
            ),
            ChainOpV::Loop(cond, body) => eval_loop(st, cond, *body, fuel),
            ChainOpV::Break => (st, Ok("break"@)),
        }
    }
}

/// The chain steps from position `i` on, threading the running value.
pub open spec fn eval_chain(st: StateV, ops: Seq<ChainOpV>, i: int, acc: Seq<char>, fuel: nat) -> (
    StateV,
    Result<Seq<char>, ErrV>,
)
    decreases fuel, 0int, ops.len() - i,
{
    if fuel == 0 {
        (st, Err(limit_err()))
    } else if i < 0 || i >= ops.len() {
        (st, Ok(acc))
    } else {
        let (st1, r) = eval_chainop(st, ops[i], acc, (fuel - 1) as nat);
        match r {
            Err(e) => (st1, Err(e)),
            Ok(v) => eval_chain(st1, ops, i + 1, v, fuel),
        }
    }
}

/// The block entries from position `i` on; the value is the last
/// entry's value, or the running value for an empty rest.
pub open spec fn eval_block(st: StateV, es: Seq<ExprV>, i: int, acc: Seq<char>, fuel: nat) -> (
    StateV,
    Result<Seq<char>, ErrV>,
)
    decreases fuel, 0int, es.len() - i,
{
    if fuel == 0 {
        (st, Err(limit_err()))
    } else if i < 0 || i >= es.len() {
        (st, Ok(acc))
    } else {
        let (st1, r) = eval_expr(st, es[i], (fuel - 1) as nat);
        match r {
            Err(e) => (st1, Err(e)),
            Ok(v) => eval_block(st1, es, i + 1, v, fuel),
        }
    }
}

/// A whole parsed input executed: an expression for its effect, or a
/// program node by node, stopping at the first error.
pub open spec fn exec_ast(st: StateV, a: PikoAstV, fuel: nat) -> (StateV, Result<(), ErrV>)
    decreases fuel, 4int, 0int,
{
    if fuel == 0 {
        (st, Err(limit_err()))
    } else {
        match a {
            PikoAstV::Expression(e) => {
                let (st1, r) = eval_expr(st, e, fuel);
                match r {
                    Ok(_) => (st1, Ok(())),
                    Err(e2) => (st1, Err(e2)),
                }
            },
            PikoAstV::Program(nodes) => exec_asts(st, nodes, 0, fuel),
        }
    }
}

/// The program nodes from position `i` on, stopping at the first error.
pub open spec fn exec_asts(st: StateV, nodes: Seq<PikoAstV>, i: int, fuel: nat) -> (
    StateV,
    Result<(), ErrV>,
)
    decreases fuel, 0int, nodes.len() - i,
{
    if fuel == 0 {
        (st, Err(limit_err()))
    } else if i < 0 || i >= nodes.len() {
        (st, Ok(()))
    } else {
        let (st1, r) = exec_ast(st, nodes[i], (fuel - 1) as nat);
        match r {
            Err(e) => (st1, Err(e)),
            Ok(_) => exec_asts(st1, nodes, i + 1, fuel),
        }
    }
}

/// The output buffer rendered as text: each line followed by a newline.
pub open spec fn join_lines(out: Seq<Seq<char>>) -> Seq<char>
    decreases out,
{
    if out.len() == 0 {
        Seq::empty()
    } else {
        join_lines(out.drop_last()) + out.last() + seq!['\n']
    }
}

/// The fuel the public entry points hand to evaluation.
pub const EVAL_FUEL: u64 = u64::MAX;

/// The view of an optional borrowed condition expression.
pub open spec fn opt_cond_view(c: Option<&Expression>) -> Option<Box<ExprV>> {
    match c {
        Some(e) => Some(Box::new(expr_view(*e))),
        None => None,
    }
}

/// The interpreter: variable bindings, defined functions, an in-memory
/// output buffer of lines, and an in-memory queue of input lines.
pub struct VM {
    variables: Table<String>,
    functions: Table<FunctionDef>,
    output: Vec<String>,
    input: Vec<String>,
}

impl View for VM {
    type V = StateV;

    closed spec fn view(&self) -> StateV {
        StateV {
            vars: self.variables@,
            funcs: self.functions@,
            output: strings_view(self.output@),
            input: strings_view(self.input@),
        }
    }
}

impl VM {
    /// A fresh interpreter: no bindings, no functions, empty buffers.
    pub fn new() -> (r: VM)
        ensures
            r@ == (StateV {
                vars: Map::empty(),
                funcs: Map::empty(),
                output: Seq::empty(),
                input: Seq::empty(),
            }),
    {
        let vm = VM {
            variables: Table::new(),
            functions: Table::new(),
            output: Vec::new(),
            input: Vec::new(),
        };
        proof {
            assert(strings_view(vm.output@) =~= Seq::<Seq<char>>::empty());
            assert(strings_view(vm.input@) =~= Seq::<Seq<char>>::empty());
            assert(vm@ =~= (StateV {
                vars: Map::empty(),
                funcs: Map::empty(),
                output: Seq::empty(),
                input: Seq::empty(),
            }));
        }
        vm
    }

    /// Queue one line for the next `i` (input) steps to read.
    pub fn push_input(&mut self, line: String)
        ensures
            final(self)@ == (StateV { input: old(self)@.input.push(line@), ..old(self)@ }),
    {
        let ghost pre = self.input@;
        self.input.push(line);
        proof {
            assert(strings_view(self.input@) =~= strings_view(pre).push(self.input@.last()@));
            assert(self@ =~= (StateV { input: old(self)@.input.push(self.input@.last()@), ..old(
                self,
            )@ }));
        }
    }

    /// The accumulated output as text, one written value per line; the
    /// buffer is drained.
    pub fn get_output(&mut self) -> (r: String)
        ensures
            r@ == join_lines(old(self)@.output),
            final(self)@ == (StateV { output: Seq::empty(), ..old(self)@ }),
    {
        let n = self.output.len();
        let mut out = String::new();
        let mut i: usize = 0;
        proof {
            lemma_strings_view(self.output@);
        }
        while i < n
            invariant
                0 <= i <= n,
                n == self.output@.len(),
                out@ == join_lines(strings_view(self.output@).subrange(0, i as int)),
                strings_view(self.output@).len() == n,
                forall|j: int|
                    0 <= j < n ==> strings_view(self.output@)[j] == #[trigger] self.output@[j]@,
            decreases n - i,
        {
            let ghost ov = strings_view(self.output@);
            out.append(self.output[i].as_str());
            crate::text::push_char(&mut out, '\n');
            proof {
                assert(ov.subrange(0, i + 1).drop_last() =~= ov.subrange(0, i as int));
                assert(ov.subrange(0, i + 1).last() == ov[i as int]);
                assert(out@ =~= join_lines(ov.subrange(0, i + 1)));
            }
            i += 1;
        }
        proof {
            assert(strings_view(self.output@).subrange(0, n as int) =~= strings_view(
                self.output@,
            ));
        }
        self.output = Vec::new();
        proof {
            assert(strings_view(self.output@) =~= Seq::<Seq<char>>::empty());
            assert(self@ =~= (StateV { output: Seq::empty(), ..old(self)@ }));
        }
        out
    }

    /// The false check: the value is exactly the false encoding "a".
    fn is_false(&self, value: &str) -> (r: bool)
        ensures
            r == (value@ == "a"@),
    {
        str_eq(value, "a")
    }

    /// The Boolean encoding of a comparison's outcome.
    fn bool_to_string(&self, value: bool) -> (r: String)
        ensures
            r@ == bool_str(value),
    {
        proof {
            reveal_strlit("a");
            reveal_strlit("b");
        }
        if value {
            String::from_str("b")
        } else {
            String::from_str("a")
        }
    }

    /// A binary operator applied to two evaluated values.
    fn apply_binary_op(&self, left: &str, op: &BinaryOp, right: &str) -> (r: VMResult<String>)
        ensures
            res_view(r) == apply_binary_spec(left@, *op, right@),
    {
        if !(is_lower_str(left) && is_lower_str(right)) {
            return Err(
                VMError::InvalidOperation(String::from_str("operands must be lowercase strings")),
            );
        }
        let result = match op {
            BinaryOp::Add => crate::codec::add(left, right),
            BinaryOp::Sub => crate::codec::sub(left, right),
            BinaryOp::Mul => crate::codec::mul(left, right),
            BinaryOp::Div => crate::codec::div(left, right),
            BinaryOp::Lt => self.bool_to_string(crate::codec::compare_lt(left, right)),
            BinaryOp::Gt => self.bool_to_string(crate::codec::compare_gt(left, right)),
            BinaryOp::Le => self.bool_to_string(crate::codec::compare_le(left, right)),
            BinaryOp::Ge => self.bool_to_string(crate::codec::compare_ge(left, right)),
            BinaryOp::Eq => self.bool_to_string(crate::codec::compare_eq(left, right)),
            BinaryOp::Ne => self.bool_to_string(crate::codec::compare_ne(left, right)),
        };
        Ok(result)
    }
}

/// A sequence of strings views element by element.
pub proof fn lemma_strings_view(s: Seq<String>)
    ensures
        strings_view(s).len() == s.len(),
        forall|i: int| 0 <= i < s.len() ==> strings_view(s)[i] == #[trigger] s[i]@,
{
}

impl VM {
    /// The decimal rendering of a number, for error reports.
    fn u64_to_dec(&self, num: u64) -> (r: String)
        ensures
            r@ == dec_spec(num as nat),
    {
        let mut digits: Vec<char> = Vec::new();
        let mut n: u64 = num;
        while n >= 10
            invariant
                dec_spec(num as nat) =~= dec_spec(n as nat) + digits@.reverse(),
            decreases n,
        {
            proof {
                vstd::arithmetic::div_mod::lemma_mod_bound(n as int, 10);
                vstd::arithmetic::div_mod::lemma_div_pos_is_pos(n as int, 10);
                vstd::arithmetic::div_mod::lemma_div_decreases(n as int, 10);
            }
            let d: u64 = n % 10;
            let c: char = (48 + d as u8) as char;
            let ghost old_digits = digits@;
            let ghost old_n = n as nat;
            digits.push(c);
            n = n / 10;
            proof {
                assert(c == dec_digit(((old_n as int) % 10) as int));
                assert(dec_spec(old_n) == dec_spec(n as nat).push(c));
                assert(digits@.reverse() =~= seq![c] + old_digits.reverse());
                assert(dec_spec(n as nat).push(c) + old_digits.reverse() =~= dec_spec(n as nat)
                    + digits@.reverse());
            }
        }
        let c: char = (48 + n as u8) as char;
        let ghost old_digits = digits@;
        digits.push(c);
        proof {
            assert(dec_spec(n as nat) =~= seq![c]);
            assert(digits@.reverse() =~= seq![c] + old_digits.reverse());
            assert(dec_spec(num as nat) =~= digits@.reverse());
        }
        let mut out = String::new();
        let k = digits.len();
        let mut i: usize = 0;
        while i < k
            invariant
                0 <= i <= k,
                k == digits@.len(),
                out@ =~= digits@.reverse().subrange(0, i as int),
            decreases k - i,
        {
            let c2 = digits[k - 1 - i];
            crate::text::push_char(&mut out, c2);
            proof {
                assert(digits@.reverse()[i as int] == digits@[k - 1 - i]);
                assert(out@ =~= digits@.reverse().subrange(0, i + 1));
            }
            i += 1;
        }
        proof {
            assert(digits@.reverse().subrange(0, k as int) =~= digits@.reverse());
        }
        out
    }

    /// Read one input line: the next queued line, trimmed, is bound to
    /// the variable and returned; an exhausted queue reads as empty.
    fn read_input(&mut self, var: &str) -> (r: String)
        ensures
            ({
                let (st2, res) = eval_input(old(self)@, var@);
                final(self)@ == st2 && res == Ok::<Seq<char>, ErrV>(r@)
            }),
    {
        proof {
            lemma_strings_view(self.input@);
        }
        let line: String = if self.input.len() > 0 {
            let ghost pre = self.input@;
            let raw = self.input.remove(0);
            proof {
                lemma_strings_view(self.input@);
                assert(strings_view(self.input@) =~= strings_view(pre).drop_first());
            }
            raw
        } else {
            String::new()
        };
        let trimmed = crate::text::trim_str(line.as_str()).to_owned();
        self.variables.insert(var, trimmed.clone());
        proof {
            let (st2, res) = eval_input(old(self)@, var@);
            assert(self@ =~= st2);
        }
        trimmed
    }

    /// One expression evaluated against the interpreter state, exactly
    /// as [`eval_expr`] describes.
    pub fn evaluate_expression(&mut self, expr: &Expression, fuel: u64) -> (r: VMResult<String>)
        ensures
            ({
                let (st2, res) = eval_expr(old(self)@, expr@, fuel as nat);
                final(self)@ == st2 && res_view(r) == res
            }),
        decreases fuel, 3int, 0int,
    {
        if fuel == 0 {
            return Err(VMError::RuntimeError(String::from_str("evaluation limit reached")));
        }
        match expr {
            Expression::Variable(name) => {
                match self.variables.get(name.as_str()) {
                    Some(v) => Ok(v.clone()),
                    None => Ok(name.clone()),
                }
            },
            Expression::Literal(value) => Ok(value.clone()),
            Expression::BinaryOp(left, op, right) => {
                let left_val = match self.evaluate_expression(left, fuel - 1) {
                    Ok(v) => v,
                    Err(e) => {
                        return Err(e);
                    },
                };
                let right_val = match self.evaluate_expression(right, fuel - 1) {
                    Ok(v) => v,
                    Err(e) => {
                        return Err(e);
                    },
                };
                self.apply_binary_op(left_val.as_str(), op, right_val.as_str())
            },
            Expression::Output(e1) => {
                let value = match self.evaluate_expression(e1, fuel - 1) {
                    Ok(v) => v,
                    Err(e) => {
                        return Err(e);
                    },
                };
                let ghost pre = self.output@;
                self.output.push(value.clone());
                proof {
                    assert(strings_view(self.output@) =~= strings_view(pre).push(value@));
                    let (st2, res) = eval_expr(old(self)@, expr@, fuel as nat);
                    assert(self@ =~= st2);
                }
                Ok(value)
            },
            Expression::Input(var) => Ok(self.read_input(var.as_str())),
            Expression::Assign(var, e1) => {
                let value = match self.evaluate_expression(e1, fuel - 1) {
                    Ok(v) => v,
                    Err(e) => {
                        return Err(e);
                    },
                };
                self.variables.insert(var.as_str(), value.clone());
                proof {
                    let (st2, res) = eval_expr(old(self)@, expr@, fuel as nat);
                    assert(self@ =~= st2);
                }
                Ok(value)
            },
            Expression::Return(e1) => self.evaluate_expression(e1, fuel - 1),
            Expression::Call(func, args) => {
                let arg_values = match self.evaluate_args(args, 0, fuel) {
                    Ok(vals) => vals,
                    Err(e) => {
                        return Err(e);
                    },
                };
                self.call_function(func.as_str(), arg_values, fuel)
            },
            Expression::Function(name, params, body) => {
                let def = FunctionDef {
                    params: crate::ast::strings_clone(params),
                    body: crate::ast::expr_clone(body),
                };
                self.functions.insert(name.as_str(), def);
                let mut result = String::from_str("function_");
                result.append(name.as_str());
                proof {
                    let (st2, res) = eval_expr(old(self)@, expr@, fuel as nat);
                    assert(self@ =~= st2);
                }
                Ok(result)
            },
            Expression::Loop(condition, body) => {
                let cond: Option<&Expression> = match condition {
                    Some(c) => Some(&**c),
                    None => None,
                };
                self.execute_loop(cond, body, fuel)
            },
            Expression::Break => Ok(String::from_str("break")),
            Expression::ChainedOp(ops) => self.execute_chain(ops, 0, String::new(), fuel),
            Expression::Block(exprs) => self.execute_block(exprs, 0, String::new(), fuel),
        }
    }

    /// The argument expressions from position `i` on, evaluated left
    /// to right, exactly as [`eval_exprs`] describes.
    fn evaluate_args(&mut self, args: &Vec<Expression>, i: usize, fuel: u64) -> (r: VMResult<
        Vec<String>,
    >)
        ensures
            ({
                let (st2, res) = eval_exprs(old(self)@, exprs_view(args@), i as int, fuel as nat);
                final(self)@ == st2 && (match r {
                    Ok(vals) => res == Ok::<Seq<Seq<char>>, ErrV>(strings_view(vals@)),
                    Err(e) => res == Err::<Seq<Seq<char>>, ErrV>(e@),
                })
            }),
        decreases fuel, 0int, args@.len() - i,
    {
        proof {
            lemma_exprs_view(args@);
        }
        if fuel == 0 {
            return Err(VMError::RuntimeError(String::from_str("evaluation limit reached")));
        }
        if i >= args.len() {
            let empty: Vec<String> = Vec::new();
            proof {
                assert(strings_view(empty@) =~= Seq::<Seq<char>>::empty());
            }
            return Ok(empty);
        }
        let v = match self.evaluate_expression(&args[i], fuel - 1) {
            Ok(v) => v,
            Err(e) => {
                return Err(e);
            },
        };
        match self.evaluate_args(args, i + 1, fuel) {
            Ok(mut rest) => {
                let ghost pre = rest@;
                rest.insert(0, v);
                proof {
                    lemma_strings_view(rest@);
                    lemma_strings_view(pre);
                    assert(strings_view(rest@) =~= seq![rest@[0]@] + strings_view(pre));
                }
                Ok(rest)
            },
            Err(e) => Err(e),
        }
    }

    /// A call of a defined function, exactly as [`eval_call`]
    /// describes: the body runs under the parameter bindings and the
    /// caller's bindings are restored afterwards.
    fn call_function(&mut self, name: &str, args: Vec<String>, fuel: u64) -> (r: VMResult<String>)
        ensures
            ({
                let (st2, res) = eval_call(old(self)@, name@, strings_view(args@), fuel as nat);
                final(self)@ == st2 && res_view(r) == res
            }),
        decreases fuel, 1int, 0int,
    {
        if fuel == 0 {
            return Err(VMError::RuntimeError(String::from_str("evaluation limit reached")));
        }
        let (params, body) = match self.functions.get(name) {
            None => {
                let mut msg = String::from_str("Unknown function: ");
                msg.append(name);
                return Err(VMError::RuntimeError(msg));
            },
            Some(def) => (crate::ast::strings_clone(&def.params), crate::ast::expr_clone(
                &def.body,
            )),
        };
        proof {
            lemma_strings_view(args@);
            lemma_strings_view(params@);
        }
        if args.len() != params.len() {
            let mut msg = String::from_str("Function ");
            msg.append(name);
            msg.append(" expects ");
            let expected = self.u64_to_dec(params.len() as u64);
            msg.append(expected.as_str());
            msg.append(" arguments, got ");
            let got = self.u64_to_dec(args.len() as u64);
            msg.append(got.as_str());
            proof {
                assert(msg@ =~= arity_msg(
                    name@,
                    strings_view(params@).len() as nat,
                    strings_view(args@).len() as nat,
                ));
            }
            return Err(VMError::RuntimeError(msg));
        }
        let old_vars = self.variables.duplicate();
        let ghost vars0 = self.variables@;
        let ghost pv = strings_view(params@);
        let ghost vv = strings_view(args@);
        let n = params.len();
        let mut i: usize = 0;
        while i < n
            invariant
                0 <= i <= n,
                n == params@.len(),
                n == args@.len(),
                pv == strings_view(params@),
                vv == strings_view(args@),
                pv.len() == n,
                vv.len() == n,
                forall|j: int| 0 <= j < n ==> pv[j] == #[trigger] params@[j]@,
                forall|j: int| 0 <= j < n ==> vv[j] == #[trigger] args@[j]@,
                bind_params(vars0, pv, vv, 0) == bind_params(self.variables@, pv, vv, i as int),
                self@ == (StateV { vars: self.variables@, ..old(self)@ }),
            decreases n - i,
        {
            self.variables.insert(params[i].as_str(), args[i].clone());
            i += 1;
        }
        let result = self.evaluate_expression(&body, fuel - 1);
        self.variables = old_vars;
        proof {
            let (st2, res) = eval_call(old(self)@, name@, strings_view(args@), fuel as nat);
            assert(self@ =~= st2);
        }
        result
    }

    /// One loop run to completion, exactly as [`eval_loop`] describes.
    fn execute_loop(&mut self, condition: Option<&Expression>, body: &Expression, fuel: u64) -> (r:
        VMResult<String>)
        ensures
            ({
                let (st2, res) = eval_loop(old(self)@, opt_cond_view(condition), body@, fuel as nat);
                final(self)@ == st2 && res_view(r) == res
            }),
        decreases fuel, 1int, 0int,
    {
        let ghost st0 = old(self)@;
        let ghost c = opt_cond_view(condition);
        let mut fuel_left = fuel;
        #[verifier::loop_isolation(false)]
        loop
            invariant
                fuel_left <= fuel,
                eval_loop(st0, c, body@, fuel as nat) == eval_loop(
                    self@,
                    c,
                    body@,
                    fuel_left as nat,
                ),
                c == opt_cond_view(condition),
            decreases fuel_left,
        {
            if fuel_left == 0 {
                return Err(VMError::RuntimeError(String::from_str("evaluation limit reached")));
            }
            let ghost pre = self@;
            match condition {
                Some(cond) => {
                    let cond_result = match self.evaluate_expression(cond, fuel_left - 1) {
                        Ok(v) => v,
                        Err(e) => {
                            return Err(e);
                        },
                    };
                    if self.is_false(cond_result.as_str()) {
                        return Ok(String::from_str("loop_completed"));
                    }
                },
                None => {},
            }
            let ghost mid = self@;
            let result = match self.evaluate_expression(body, fuel_left - 1) {
                Ok(v) => v,
                Err(e) => {
                    return Err(e);
                },
            };
            if str_eq(result.as_str(), "break") {
                return Ok(String::from_str("loop_completed"));
            }
            proof {
                assert(eval_loop(pre, c, body@, fuel_left as nat) == eval_loop_body(
                    mid,
                    c,
                    body@,
                    fuel_left as nat,
                ));
                assert(eval_loop_body(mid, c, body@, fuel_left as nat) == eval_loop(
                    self@,
                    c,
                    body@,
                    (fuel_left - 1) as nat,
                ));
            }
            fuel_left = fuel_left - 1;
        }
    }

    /// One chain step applied to the running value, exactly as
    /// [`eval_chainop`] describes.
    fn execute_chain_op(&mut self, op: &ChainOp, current_result: String, fuel: u64) -> (r: VMResult<
        String,
    >)
        ensures
            ({
                let (st2, res) = eval_chainop(old(self)@, op@, current_result@, fuel as nat);
                final(self)@ == st2 && res_view(r) == res
            }),
        decreases fuel, 2int, 0int,
    {
        if fuel == 0 {
            return Err(VMError::RuntimeError(String::from_str("evaluation limit reached")));
        }
        match op {
            ChainOp::Input(var) => Ok(self.read_input(var.as_str())),
            ChainOp::Output => {
                let ghost pre = self.output@;
                self.output.push(current_result.clone());
                proof {
                    assert(strings_view(self.output@) =~= strings_view(pre).push(
                        current_result@,
                    ));
                    let (st2, res) = eval_chainop(old(self)@, op@, current_result@, fuel as nat);
                    assert(self@ =~= st2);
                }
                Ok(current_result)
            },
            ChainOp::Assign(var, e1) => {
                let value = match self.evaluate_expression(e1, fuel - 1) {
                    Ok(v) => v,
                    Err(e) => {
                        return Err(e);
                    },
                };
                self.variables.insert(var.as_str(), value.clone());
                proof {
                    let (st2, res) = eval_chainop(old(self)@, op@, current_result@, fuel as nat);
                    assert(self@ =~= st2);
                }
                Ok(value)
            },
            ChainOp::Return(e1) => self.evaluate_expression(e1, fuel - 1),
            ChainOp::Call(func, args) => {
                let arg_values = match self.evaluate_args(args, 0, fuel) {
                    Ok(vals) => vals,
                    Err(e) => {
                        return Err(e);
                    },
                };
                self.call_function(func.as_str(), arg_values, fuel)
            },
            ChainOp::Function(name, params, body) => {
                let def = FunctionDef {
                    params: crate::ast::strings_clone(params),
                    body: crate::ast::expr_clone(body),
                };
                self.functions.insert(name.as_str(), def);
                let mut result = String::from_str("function_");
                result.append(name.as_str());
                proof {
                    let (st2, res) = eval_chainop(old(self)@, op@, current_result@, fuel as nat);
                    assert(self@ =~= st2);
                }
                Ok(result)
            },
            ChainOp::Loop(condition, body) => {
                let cond: Option<&Expression> = match condition {
                    Some(c) => Some(&**c),
                    None => None,
                };
                self.execute_loop(cond, body, fuel)
            },
            ChainOp::Break => Ok(String::from_str("break")),
        }
    }

    /// The chain steps from position `i` on, exactly as [`eval_chain`]
    /// describes.
    fn execute_chain(&mut self, ops: &Vec<ChainOp>, i: usize, acc: String, fuel: u64) -> (r:
        VMResult<String>)
        ensures
            ({
                let (st2, res) = eval_chain(old(self)@, chains_view(ops@), i as int, acc@, fuel as nat);
                final(self)@ == st2 && res_view(r) == res
            }),
        decreases fuel, 0int, ops@.len() - i,
    {
        proof {
            lemma_chains_view(ops@);
        }
        if fuel == 0 {
            return Err(VMError::RuntimeError(String::from_str("evaluation limit reached")));
        }
        if i >= ops.len() {
            return Ok(acc);
        }
        match self.execute_chain_op(&ops[i], acc, fuel - 1) {
            Ok(v) => self.execute_chain(ops, i + 1, v, fuel),
            Err(e) => Err(e),
        }
    }

    /// The block entries from position `i` on, exactly as
    /// [`eval_block`] describes.
    fn execute_block(&mut self, exprs: &Vec<Expression>, i: usize, acc: String, fuel: u64) -> (r:
        VMResult<String>)
        ensures
            ({
                let (st2, res) = eval_block(old(self)@, exprs_view(exprs@), i as int, acc@, fuel as nat);
                final(self)@ == st2 && res_view(r) == res
            }),
        decreases fuel, 0int, exprs@.len() - i,
    {
        proof {
            lemma_exprs_view(exprs@);
        }
        if fuel == 0 {
            return Err(VMError::RuntimeError(String::from_str("evaluation limit reached")));
        }
        if i >= exprs.len() {
            return Ok(acc);
        }
        match self.evaluate_expression(&exprs[i], fuel - 1) {
            Ok(v) => self.execute_block(exprs, i + 1, v, fuel),
            Err(e) => Err(e),
        }
    }
}

impl VM {
    fn execute_node(&mut self, ast: &PikoAst, fuel: u64) -> (r: VMResult<()>)
        ensures
            ({
                let (st2, res) = exec_ast(old(self)@, ast@, fuel as nat);
                final(self)@ == st2 && (match r {
                    Ok(_) => res == Ok::<(), ErrV>(()),
                    Err(e) => res == Err::<(), ErrV>(e@),
                })
            }),
        decreases fuel, 4int, 0int,
    {
        if fuel == 0 {
            return Err(VMError::RuntimeError(String::from_str("evaluation limit reached")));
        }
        match ast {
            PikoAst::Expression(expr) => {
                match self.evaluate_expression(expr, fuel) {
                    Ok(_) => Ok(()),
                    Err(e) => Err(e),
                }
            },
            PikoAst::Program(nodes) => self.execute_nodes(nodes, 0, fuel),
        }
    }

    fn execute_nodes(&mut self, nodes: &Vec<PikoAst>, i: usize, fuel: u64) -> (r: VMResult<()>)
        ensures
            ({
                let (st2, res) = exec_asts(old(self)@, asts_view(nodes@), i as int, fuel as nat);
                final(self)@ == st2 && (match r {
                    Ok(_) => res == Ok::<(), ErrV>(()),
                    Err(e) => res == Err::<(), ErrV>(e@),
                })
            }),
        decreases fuel, 0int, nodes@.len() - i,
    {
        proof {
            lemma_asts_view(nodes@);
        }
        if fuel == 0 {
            return Err(VMError::RuntimeError(String::from_str("evaluation limit reached")));
        }
        if i >= nodes.len() {
            return Ok(());
        }
        match self.execute_node(&nodes[i], fuel - 1) {
            Ok(_) => self.execute_nodes(nodes, i + 1, fuel),
            Err(e) => Err(e),
        }
    }

    /// Execute a whole parsed input against the interpreter state,
    /// exactly as [`exec_ast`] describes, with the full default fuel.
    pub fn execute(&mut self, ast: PikoAst) -> (r: VMResult<()>)
        ensures
            ({
                let (st2, res) = exec_ast(old(self)@, ast@, EVAL_FUEL as nat);
                final(self)@ == st2 && (match r {
                    Ok(_) => res == Ok::<(), ErrV>(()),
                    Err(e) => res == Err::<(), ErrV>(e@),
                })
            }),
    {
        self.execute_node(&ast, EVAL_FUEL)
    }
}

/// A function call never leaks bindings into its caller: whatever the
/// body does to the variables, the caller's bindings after the call are
/// exactly those before it.
pub proof fn lemma_call_restores_vars(st: StateV, name: Seq<char>, vals: Seq<Seq<char>>, fuel: nat)
    ensures
        eval_call(st, name, vals, fuel).0.vars == st.vars,
{
}

/// An unbound variable evaluates to its own name, not to an error, and
/// leaves the state untouched.
pub proof fn lemma_unbound_variable(st: StateV, name: Seq<char>, fuel: nat)
    requires
        !st.vars.contains_key(name),
        fuel >= 1,
    ensures
        eval_expr(st, ExprV::Variable(name), fuel) == (st, Ok::<Seq<char>, ErrV>(name)),
{
}

/// A bound variable evaluates to its bound value.
pub proof fn lemma_bound_variable(st: StateV, name: Seq<char>, fuel: nat)
    requires
        st.vars.contains_key(name),
        fuel >= 1,
    ensures
        eval_expr(st, ExprV::Variable(name), fuel) == (st, Ok::<Seq<char>, ErrV>(st.vars[name])),
{
}

/// Calling a function that is not defined is a runtime error naming
/// that function, and the state is untouched.
pub proof fn lemma_unknown_function(st: StateV, name: Seq<char>, vals: Seq<Seq<char>>, fuel: nat)
    requires
        !st.funcs.contains_key(name),
        fuel >= 1,
    ensures
        eval_call(st, name, vals, fuel) == (
            st,
            Err::<Seq<char>, ErrV>(ErrV::Runtime("Unknown function: "@ + name)),
        ),
{
}

/// Calling a defined function with the wrong number of arguments is a
/// runtime error stating the expected and actual counts, and the state
/// is untouched.
pub proof fn lemma_call_arity(st: StateV, name: Seq<char>, vals: Seq<Seq<char>>, fuel: nat)
    requires
        st.funcs.contains_key(name),
        st.funcs[name].params.len() != vals.len(),
        fuel >= 1,
    ensures
        eval_call(st, name, vals, fuel) == (
            st,
            Err::<Seq<char>, ErrV>(
                ErrV::Runtime(arity_msg(name, st.funcs[name].params.len(), vals.len())),
            ),
        ),
{
}

/// Writing a value appends exactly one line to the output and returns
/// the value unchanged, with bindings and functions untouched.
pub proof fn lemma_output_appends(st: StateV, v: Seq<char>, fuel: nat)
    requires
        fuel >= 2,
    ensures
        eval_expr(st, ExprV::Output(Box::new(ExprV::Literal(v))), fuel) == (
            StateV { output: st.output.push(v), ..st },
            Ok::<Seq<char>, ErrV>(v),
        ),
{
    let f = (fuel - 1) as nat;
    assert(eval_expr(st, ExprV::Literal(v), f) == (st, Ok::<Seq<char>, ErrV>(v)));
    assert(eval_expr(st, ExprV::Output(Box::new(ExprV::Literal(v))), fuel) =~= (
        StateV { output: st.output.push(v), ..st },
        Ok::<Seq<char>, ErrV>(v),
    ));
}

/// The statement splitter's scan from position `i` with the running
/// statement text and the scanner state: a balanced parenthesised
/// expression closing at depth zero ends a statement, and so does a
/// line break at depth zero; blank pieces are dropped and every
/// statement is trimmed.
pub open spec fn split_stmts(
    s: Seq<char>,
    i: int,
    cur: Seq<char>,
    depth: int,
    in_string: bool,
    escape: bool,
) -> Seq<Seq<char>>
    decreases s.len() - i,
{
    if !(0 <= i < s.len()) {
        if trim_spec(cur).len() > 0 {
            seq![trim_spec(cur)]
        } else {
            Seq::empty()
        }
    } else {
        let ch = s[i];
        if escape {
            split_stmts(s, i + 1, cur.push(ch), depth, in_string, false)
        } else if ch == '\\' && in_string {
            split_stmts(s, i + 1, cur.push(ch), depth, in_string, true)
        } else if ch == '"' {
            split_stmts(s, i + 1, cur.push(ch), depth, !in_string, false)
        } else if ch == '(' && !in_string {
            split_stmts(s, i + 1, cur.push(ch), depth + 1, in_string, false)
        } else if ch == ')' && !in_string {
            if depth == 1 && trim_spec(cur.push(ch)).len() > 0 {
                seq![trim_spec(cur.push(ch))] + split_stmts(
                    s,
                    i + 1,
                    Seq::empty(),
                    0,
                    in_string,
                    false,
                )
            } else {
                split_stmts(s, i + 1, cur.push(ch), depth - 1, in_string, false)
            }
        } else if ch == '\n' && depth == 0 {
            if trim_spec(cur).len() > 0 {
                seq![trim_spec(cur)] + split_stmts(s, i + 1, Seq::empty(), 0, in_string, false)
            } else {
                split_stmts(s, i + 1, Seq::empty(), 0, in_string, false)
            }
        } else {
            split_stmts(s, i + 1, cur.push(ch), depth, in_string, false)
        }
    }
}

/// A multi-statement blob split into its statements.
pub open spec fn split_statements_spec(s: Seq<char>) -> Seq<Seq<char>> {
    split_stmts(s, 0, Seq::empty(), 0, false, false)
}

impl VM {
    /// Split a multi-statement blob into statements, exactly as
    /// [`split_statements_spec`] describes.
    pub fn split_statements(code: &str) -> (r: Vec<String>)
        ensures
            r@.map_values(|x: String| x@) == split_statements_spec(code@),
    {
        let len = code.unicode_len();
        let mut statements: Vec<String> = Vec::new();
        let mut current = String::new();
        let mut depth: i128 = 0;
        let mut in_string = false;
        let mut escape = false;
        let mut i: usize = 0;
        proof {
            assert(Seq::<String>::empty().map_values(|x: String| x@)
                =~= Seq::<Seq<char>>::empty());
        }
        while i < len
            invariant
                0 <= i <= len,
                len == code@.len(),
                -(i as int) <= depth <= i as int,
                split_statements_spec(code@) =~= statements@.map_values(|x: String| x@)
                    + split_stmts(
                    code@,
                    i as int,
                    current@,
                    depth as int,
                    in_string,
                    escape,
                ),
            decreases len - i,
        {
            let ch = code.get_char(i);
            let ghost pre_stmts = statements@;
            if escape {
                crate::text::push_char(&mut current, ch);
                escape = false;
            } else if ch == '\\' && in_string {
                crate::text::push_char(&mut current, ch);
                escape = true;
            } else if ch == '"' {
                crate::text::push_char(&mut current, ch);
                in_string = !in_string;
            } else if ch == '(' && !in_string {
                crate::text::push_char(&mut current, ch);
                depth = depth + 1;
            } else if ch == ')' && !in_string {
                crate::text::push_char(&mut current, ch);
                let piece = crate::text::trim_str(current.as_str());
                if depth == 1 && piece.unicode_len() > 0 {
                    statements.push(piece.to_owned());
                    current = String::new();
                    depth = 0;
                    proof {
                        assert(statements@.map_values(|x: String| x@) =~= pre_stmts.map_values(
                            |x: String| x@,
                        ).push(statements@.last()@));
                    }
                } else {
                    depth = depth - 1;
                }
            } else if ch == '\n' && depth == 0 {
                let piece = crate::text::trim_str(current.as_str());
                if piece.unicode_len() > 0 {
                    statements.push(piece.to_owned());
                    proof {
                        assert(statements@.map_values(|x: String| x@) =~= pre_stmts.map_values(
                            |x: String| x@,
                        ).push(statements@.last()@));
                    }
                }
                current = String::new();
            } else {
                crate::text::push_char(&mut current, ch);
            }
            i += 1;
        }
        let piece = crate::text::trim_str(current.as_str());
        let ghost pre_stmts = statements@;
        if piece.unicode_len() > 0 {
            statements.push(piece.to_owned());
            proof {
                assert(statements@.map_values(|x: String| x@) =~= pre_stmts.map_values(
                    |x: String| x@,
                ).push(statements@.last()@));
            }
        }
        statements
    }
}

/// The statements of a blob from position `i` on, each parsed and
/// executed in turn: blank pieces and comment-only pieces are skipped,
/// and the first parse or runtime error stops the run.
pub open spec fn exec_script(st: StateV, stmts: Seq<Seq<char>>, i: int, fuel: nat) -> (
    StateV,
    Result<(), ErrV>,
)
    decreases stmts.len() - i,
{
    if i < 0 || i >= stmts.len() {
        (st, Ok(()))
    } else {
        let stmt = stmts[i];
        if stmt.len() == 0 || stmt[0] == '#' {
            exec_script(st, stmts, i + 1, fuel)
        } else {
            match crate::parser::parse_ast_spec(stmt) {
                Err(e) => (st, Err(e)),
                Ok(a) => {
                    let (st1, r) = exec_ast(st, a, fuel);
                    match r {
                        Err(e) => (st1, Err(e)),
                        Ok(_) => exec_script(st1, stmts, i + 1, fuel),
                    }
                },
            }
        }
    }
}

impl VM {
    fn run_statements(&mut self, stmts: &Vec<String>, i: usize) -> (r: VMResult<()>)
        ensures
            ({
                let (st2, res) = exec_script(
                    old(self)@,
                    stmts@.map_values(|x: String| x@),
                    i as int,
                    EVAL_FUEL as nat,
                );
                final(self)@ == st2 && (match r {
                    Ok(_) => res == Ok::<(), ErrV>(()),
                    Err(e) => res == Err::<(), ErrV>(e@),
                })
            }),
        decreases stmts@.len() - i,
    {
        if i >= stmts.len() {
            return Ok(());
        }
        let stmt = &stmts[i];
        let len = stmt.as_str().unicode_len();
        if len == 0 || stmt.as_str().get_char(0) == '#' {
            return self.run_statements(stmts, i + 1);
        }
        let ast = match crate::parser::Parser::parse_piko_ast(stmt.as_str()) {
            Ok(a) => a,
            Err(e) => {
                return Err(e);
            },
        };
        match self.execute_node(&ast, EVAL_FUEL) {
            Ok(_) => self.run_statements(stmts, i + 1),
            Err(e) => Err(e),
        }
    }

    /// Split a multi-statement blob and run each statement in order:
    /// exactly [`exec_script`] over [`split_statements_spec`]. Blank
    /// and comment-only statements are skipped; the first error stops
    /// the run and is returned.
    pub fn execute_script(&mut self, code: &str) -> (r: VMResult<()>)
        ensures
            ({
                let (st2, res) = exec_script(
                    old(self)@,
                    split_statements_spec(code@),
                    0,
                    EVAL_FUEL as nat,
                );
                final(self)@ == st2 && (match r {
                    Ok(_) => res == Ok::<(), ErrV>(()),
                    Err(e) => res == Err::<(), ErrV>(e@),
                })
            }),
    {
        let stmts = Self::split_statements(code);
        self.run_statements(&stmts, 0)
    }
}

} // verus!
