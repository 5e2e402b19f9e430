//! A reader for one parenthesised symbolic expression: nested
//! whitespace-separated lists of atoms, where an atom is either a bare
//! symbol or a double-quoted string (with backslash copying the next
//! character through verbatim). The reader is defined by the spec
//! functions below and the executable reader returns exactly what they
//! describe.

use vstd::prelude::*;

verus! {

use crate::text::is_space;
use crate::text::push_char;

/// One node of the symbolic tree: a bare symbol, a quoted string, or a
/// parenthesised list. This shape is internal to parsing; the typed
/// expression tree is built from it.
#[derive(Debug, PartialEq)]
pub enum SExpr {
    Symbol(String),
    Str(String),
    List(Vec<SExpr>),
}

/// The abstract value of an [`SExpr`].
pub enum SExprV {
    Symbol(Seq<char>),
    Str(Seq<char>),
    List(Seq<SExprV>),
}

/// The view of a symbolic node.
pub open spec fn sexpr_view(v: SExpr) -> SExprV
    decreases v,
{
    match v {
        SExpr::Symbol(s) => SExprV::Symbol(s@),
        SExpr::Str(s) => SExprV::Str(s@),
        SExpr::List(items) => SExprV::List(sexprs_view(items@)),
    }
}

/// The views of a sequence of symbolic nodes.
pub open spec fn sexprs_view(s: Seq<SExpr>) -> Seq<SExprV>
    decreases s,
{
    if s.len() == 0 {
        Seq::empty()
    } else {
        sexprs_view(s.drop_last()).push(sexpr_view(s.last()))
    }
}

impl View for SExpr {
    type V = SExprV;

    open spec fn view(&self) -> SExprV {
        sexpr_view(*self)
    }
}

/// A sequence of symbolic nodes views element by element.
pub proof fn lemma_sexprs_view(s: Seq<SExpr>)
    ensures
        sexprs_view(s).len() == s.len(),
        forall|i: int| 0 <= i < s.len() ==> sexprs_view(s)[i] == sexpr_view(s[i]),
    decreases s,
{
    if s.len() > 0 {
        lemma_sexprs_view(s.drop_last());
    }
}

/// A character that ends a bare symbol.
pub open spec fn is_delim(c: char) -> bool {
    is_space(c) || c == '(' || c == ')' || c == '"'
}

/// The first non-whitespace position at or after `i`.
pub open spec fn skip_ws_spec(s: Seq<char>, i: int) -> int
    decreases s.len() - i,
{
    if 0 <= i < s.len() && is_space(s[i]) {
        skip_ws_spec(s, i + 1)
    } else {
        i
    }
}

/// The first symbol-ending position at or after `i`.
pub open spec fn sym_end_spec(s: Seq<char>, i: int) -> int
    decreases s.len() - i,
{
    if 0 <= i < s.len() && !is_delim(s[i]) {
        sym_end_spec(s, i + 1)
    } else {
        i
    }
}

proof fn lemma_skip_ws(s: Seq<char>, i: int)
    requires
        0 <= i <= s.len(),
    ensures
        i <= skip_ws_spec(s, i) <= s.len(),
        skip_ws_spec(s, i) < s.len() ==> !is_space(s[skip_ws_spec(s, i)]),
        forall|j: int| i <= j < skip_ws_spec(s, i) ==> is_space(s[j]),
    decreases s.len() - i,
{
    if i < s.len() && is_space(s[i]) {
        lemma_skip_ws(s, i + 1);
    }
}

proof fn lemma_sym_end(s: Seq<char>, i: int)
    requires
        0 <= i <= s.len(),
    ensures
        i <= sym_end_spec(s, i) <= s.len(),
        sym_end_spec(s, i) < s.len() ==> is_delim(s[sym_end_spec(s, i)]),
        forall|j: int| i <= j < sym_end_spec(s, i) ==> !is_delim(s[j]),
    decreases s.len() - i,
{
    if i < s.len() && !is_delim(s[i]) {
        lemma_sym_end(s, i + 1);
    }
}

/// The content of a quoted string read from position `i` (just after
/// the opening quote), together with the position after the closing
/// quote; or the error text when the string never closes.
pub open spec fn read_str_spec(s: Seq<char>, i: int, acc: Seq<char>) -> Result<
    (Seq<char>, int),
    Seq<char>,
>
    decreases s.len() - i,
{
    if !(0 <= i < s.len()) {
        Err("unterminated string literal"@)
    } else if s[i] == '"' {
        Ok((acc, i + 1))
    } else if s[i] == '\\' {
        if i + 1 < s.len() {
            read_str_spec(s, i + 2, acc.push(s[i + 1]))
        } else {
            Err("unterminated string literal"@)
        }
    } else {
        read_str_spec(s, i + 1, acc.push(s[i]))
    }
}

/// One node read from position `i`: its value and the position after
/// it. The fuel bounds the recursion; the reader is handed more fuel
/// than any input can use, so running out reports over-deep nesting.
pub open spec fn read_node_spec(s: Seq<char>, i: int, fuel: nat) -> Result<
    (SExprV, int),
    Seq<char>,
>
    decreases fuel,
{
    if fuel == 0 {
        Err("expression nested too deeply"@)
    } else {
        let j = skip_ws_spec(s, i);
        if !(0 <= j < s.len()) {
            Err("unexpected end of input"@)
        } else if s[j] == '(' {
            read_list_spec(s, j + 1, Seq::empty(), (fuel - 1) as nat)
        } else if s[j] == ')' {
            Err("unexpected closing parenthesis"@)
        } else if s[j] == '"' {
            match read_str_spec(s, j + 1, Seq::empty()) {
                Ok((content, k)) => Ok((SExprV::Str(content), k)),
                Err(m) => Err(m),
            }
        } else {
            let k = sym_end_spec(s, j);
            Ok((SExprV::Symbol(s.subrange(j, k)), k))
        }
    }
}

/// The remaining elements of a list read from position `i`, appended
/// to those already read, and the position after the closing
/// parenthesis.
pub open spec fn read_list_spec(s: Seq<char>, i: int, acc: Seq<SExprV>, fuel: nat) -> Result<
    (SExprV, int),
    Seq<char>,
>
    decreases fuel,
{
    if fuel == 0 {
        Err("expression nested too deeply"@)
    } else {
        let j = skip_ws_spec(s, i);
        if !(0 <= j < s.len()) {
            Err("unbalanced parentheses"@)
        } else if s[j] == ')' {
            Ok((SExprV::List(acc), j + 1))
        } else {
            match read_node_spec(s, j, (fuel - 1) as nat) {
                Ok((node, k)) => read_list_spec(s, k, acc.push(node), (fuel - 1) as nat),
                Err(m) => Err(m),
            }
        }
    }
}

/// The fuel handed to the reader: ample for any input of length `n`.
pub open spec fn reader_fuel(n: nat) -> nat {
    2 * n + 2
}

/// The whole text `s` read as one symbolic expression: one node with
/// only whitespace after it.
pub open spec fn read_sexpr_spec(s: Seq<char>) -> Result<SExprV, Seq<char>> {
    match read_node_spec(s, 0, reader_fuel(s.len())) {
        Ok((v, k)) => {
            if skip_ws_spec(s, k) == s.len() {
                Ok(v)
            } else {
                Err("unexpected text after expression"@)
            }
        },
        Err(m) => Err(m),
    }
}

fn skip_ws(s: &str, i: usize, len: usize) -> (r: usize)
    requires
        i <= len == s@.len(),
    ensures
        r == skip_ws_spec(s@, i as int),
        i <= r <= len,
{
    proof {
        lemma_skip_ws(s@, i as int);
    }
    let mut j = i;
    while j < len
        invariant
            i <= j <= len,
            len == s@.len(),
            skip_ws_spec(s@, i as int) == skip_ws_spec(s@, j as int),
        ensures
            i <= j <= len,
            skip_ws_spec(s@, i as int) == skip_ws_spec(s@, j as int),
            j < len ==> !is_space(s@[j as int]),
        decreases len - j,
    {
        let c = s.get_char(j);
        if !(c == ' ' || c == '\t' || c == '\n' || c == '\r' || c == '\u{b}' || c == '\u{c}') {
            break ;
        }
        j += 1;
    }
    j
}

fn sym_end(s: &str, i: usize, len: usize) -> (r: usize)
    requires
        i <= len == s@.len(),
    ensures
        r == sym_end_spec(s@, i as int),
        i <= r <= len,
{
    proof {
        lemma_sym_end(s@, i as int);
    }
    let mut j = i;
    while j < len
        invariant
            i <= j <= len,
            len == s@.len(),
            sym_end_spec(s@, i as int) == sym_end_spec(s@, j as int),
        ensures
            i <= j <= len,
            sym_end_spec(s@, i as int) == sym_end_spec(s@, j as int),
            j < len ==> is_delim(s@[j as int]),
        decreases len - j,
    {
        let c = s.get_char(j);
        if c == ' ' || c == '\t' || c == '\n' || c == '\r' || c == '\u{b}' || c == '\u{c}' || c
            == '(' || c == ')' || c == '"' {
            break ;
        }
        j += 1;
    }
    j
}

fn read_str(s: &str, i: usize, len: usize) -> (r: Result<(String, usize), String>)
    requires
        i <= len == s@.len(),
    ensures
        match r {
            Ok((content, k)) => read_str_spec(s@, i as int, Seq::empty()) == Ok::<
                (Seq<char>, int),
                Seq<char>,
            >((content@, k as int)) && i < k <= len,
            Err(m) => read_str_spec(s@, i as int, Seq::empty()) == Err::<
                (Seq<char>, int),
                Seq<char>,
            >(m@),
        },
{
    let mut content = String::new();
    let mut j = i;
    loop
        invariant
            i <= j <= len,
            len == s@.len(),
            read_str_spec(s@, i as int, Seq::empty()) == read_str_spec(s@, j as int, content@),
        decreases len - j,
    {
        if j >= len {
            return Err(String::from_str("unterminated string literal"));
        }
        let c = s.get_char(j);
        if c == '"' {
            return Ok((content, j + 1));
        } else if c == '\\' {
            if j + 1 < len {
                push_char(&mut content, s.get_char(j + 1));
                j += 2;
            } else {
                return Err(String::from_str("unterminated string literal"));
            }
        } else {
            push_char(&mut content, c);
            j += 1;
        }
    }
}

fn read_node(s: &str, i: usize, len: usize, fuel: u128) -> (r: Result<(SExpr, usize), String>)
    requires
        i <= len == s@.len(),
    ensures
        match r {
            Ok((v, k)) => read_node_spec(s@, i as int, fuel as nat) == Ok::<
                (SExprV, int),
                Seq<char>,
            >((v@, k as int)) && i <= k <= len,
            Err(m) => read_node_spec(s@, i as int, fuel as nat) == Err::<
                (SExprV, int),
                Seq<char>,
            >(m@),
        },
    decreases fuel,
{
    if fuel == 0 {
        return Err(String::from_str("expression nested too deeply"));
    }
    let j = skip_ws(s, i, len);
    proof {
        lemma_skip_ws(s@, i as int);
    }
    if j >= len {
        return Err(String::from_str("unexpected end of input"));
    }
    let c = s.get_char(j);
    if c == '(' {
        match read_list(s, j + 1, len, Vec::new(), fuel - 1) {
            Ok((v, k)) => {
                proof {
                    assert(sexprs_view(Seq::<SExpr>::empty()) =~= Seq::<SExprV>::empty());
                }
                Ok((v, k))
            },
            Err(m) => Err(m),
        }
    } else if c == ')' {
        Err(String::from_str("unexpected closing parenthesis"))
    } else if c == '"' {
        match read_str(s, j + 1, len) {
            Ok((content, k)) => Ok((SExpr::Str(content), k)),
            Err(m) => Err(m),
        }
    } else {
        let k = sym_end(s, j, len);
        proof {
            lemma_sym_end(s@, j as int);
            assert(!is_delim(s@[j as int]));
            assert(k > j);
        }
        let sym = s.substring_char(j, k).to_owned();
        Ok((SExpr::Symbol(sym), k))
    }
}

fn read_list(s: &str, i: usize, len: usize, acc: Vec<SExpr>, fuel: u128) -> (r: Result<
    (SExpr, usize),
    String,
>)
    requires
        i <= len == s@.len(),
    ensures
        match r {
            Ok((v, k)) => read_list_spec(s@, i as int, sexprs_view(acc@), fuel as nat) == Ok::<
                (SExprV, int),
                Seq<char>,
            >((v@, k as int)) && i <= k <= len,
            Err(m) => read_list_spec(s@, i as int, sexprs_view(acc@), fuel as nat) == Err::<
                (SExprV, int),
                Seq<char>,
            >(m@),
        },
    decreases fuel,
{
    if fuel == 0 {
        return Err(String::from_str("expression nested too deeply"));
    }
    let j = skip_ws(s, i, len);
    if j >= len {
        return Err(String::from_str("unbalanced parentheses"));
    }
    if s.get_char(j) == ')' {
        return Ok((SExpr::List(acc), j + 1));
    }
    match read_node(s, j, len, fuel - 1) {
        Ok((node, k)) => {
            let mut acc = acc;
            let ghost pre = acc@;
            acc.push(node);
            proof {
                assert(acc@.drop_last() =~= pre);
                assert(sexprs_view(acc@) == sexprs_view(pre).push(sexpr_view(acc@.last())));
            }
            read_list(s, k, len, acc, fuel - 1)
        },
        Err(m) => Err(m),
    }
}

/// Read the whole text as one symbolic expression, exactly as
/// [`read_sexpr_spec`] describes.
pub fn read_sexpr(s: &str) -> (r: Result<SExpr, String>)
    ensures
        match r {
            Ok(v) => read_sexpr_spec(s@) == Ok::<SExprV, Seq<char>>(v@),
            Err(m) => read_sexpr_spec(s@) == Err::<SExprV, Seq<char>>(m@),
        },
{
    let len = s.unicode_len();
    let fuel: u128 = 2 * (len as u128) + 2;
    match read_node(s, 0, len, fuel) {
        Ok((v, k)) => {
            let j = skip_ws(s, k, len);
            if j == len {
                Ok(v)
            } else {
                Err(String::from_str("unexpected text after expression"))
            }
        },
        Err(m) => Err(m),
    }
}

} // verus!
