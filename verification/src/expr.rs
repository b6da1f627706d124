use vstd::prelude::*;
use vstd::string::{StrSliceExecFns, StringExecFns};

use crate::numbers::is_float_literal;
use crate::numbers::is_numeric_literal;
use crate::resolver::{join_spaces, join_tokens};
use crate::text::{char_index_from, find_char, str_eq, trim, trim_of};
use crate::vars::VarStore;

verus! {

/// Copies of the tokens at positions `from..to`.
pub fn clone_range(tokens: &Vec<String>, from: usize, to: usize) -> (r: Vec<String>)
    requires
        from <= to <= tokens.len(),
    ensures
        r.deep_view() == tokens.deep_view().subrange(from as int, to as int),
        r@.len() == to - from,
{
    let mut out: Vec<String> = Vec::new();
    let mut i: usize = from;
    while i < to
        invariant
            from <= i <= to <= tokens.len(),
            out@ =~= tokens@.subrange(from as int, i as int),
        decreases to - i,
    {
        out.push(tokens[i].clone());
        i += 1;
    }
    proof {
        assert forall|x: int| 0 <= x < out@.len() implies out.deep_view()[x]
            == tokens.deep_view()[from + x] by {
            assert(out@[x] == tokens@[from + x]);
        }
        assert(out.deep_view() =~= tokens.deep_view().subrange(from as int, to as int));
    }
    out
}

/// The least index at or after `i` whose token is the single character `;`,
/// or the length if there is none.
pub open spec fn first_semi(toks: Seq<Seq<char>>, i: int) -> int
    decreases toks.len() - i,
{
    if !(0 <= i < toks.len()) {
        toks.len() as int
    } else if toks[i] == seq![';'] {
        i
    } else {
        first_semi(toks, i + 1)
    }
}

pub proof fn lemma_first_semi(toks: Seq<Seq<char>>, i: int)
    requires
        0 <= i <= toks.len(),
    ensures
        i <= first_semi(toks, i) <= toks.len(),
        forall|j: int| i <= j < first_semi(toks, i) ==> #[trigger] toks[j] != seq![';'],
        first_semi(toks, i) < toks.len() ==> toks[first_semi(toks, i)] == seq![';'],
    decreases toks.len() - i,
{
    if i < toks.len() && toks[i] != seq![';'] {
        lemma_first_semi(toks, i + 1);
    }
}

/// The least index at or after `i` whose token is exactly `=`, or the
/// length if there is none.
pub open spec fn first_eq_token(toks: Seq<Seq<char>>, i: int) -> int
    decreases toks.len() - i,
{
    if !(0 <= i < toks.len()) {
        toks.len() as int
    } else if toks[i] == seq!['='] {
        i
    } else {
        first_eq_token(toks, i + 1)
    }
}

pub proof fn lemma_first_eq_token(toks: Seq<Seq<char>>, i: int)
    requires
        0 <= i <= toks.len(),
    ensures
        i <= first_eq_token(toks, i) <= toks.len(),
        forall|j: int| i <= j < first_eq_token(toks, i) ==> #[trigger] toks[j] != seq!['='],
        first_eq_token(toks, i) < toks.len() ==> toks[first_eq_token(toks, i)] == seq!['='],
    decreases toks.len() - i,
{
    if i < toks.len() && toks[i] != seq!['='] {
        lemma_first_eq_token(toks, i + 1);
    }
}

/// The least index at or after `i` whose token holds an embedded `=`, or
/// the length if there is none.
pub open spec fn first_embedded_eq(toks: Seq<Seq<char>>, i: int) -> int
    decreases toks.len() - i,
{
    if !(0 <= i < toks.len()) {
        toks.len() as int
    } else if char_index_from(toks[i], '=', 0) < toks[i].len() {
        i
    } else {
        first_embedded_eq(toks, i + 1)
    }
}

pub proof fn lemma_first_embedded_eq(toks: Seq<Seq<char>>, i: int)
    requires
        0 <= i <= toks.len(),
    ensures
        i <= first_embedded_eq(toks, i) <= toks.len(),
        forall|j: int|
            i <= j < first_embedded_eq(toks, i) ==> char_index_from(#[trigger] toks[j], '=', 0)
                == toks[j].len(),
        first_embedded_eq(toks, i) < toks.len() ==> char_index_from(
            toks[first_embedded_eq(toks, i)],
            '=',
            0,
        ) < toks[first_embedded_eq(toks, i)].len(),
    decreases toks.len() - i,
{
    if i < toks.len() && !(char_index_from(toks[i], '=', 0) < toks[i].len()) {
        crate::text::lemma_char_index_from(toks[i], '=', 0);
        lemma_first_embedded_eq(toks, i + 1);
    }
}

/// The assignment that a `var match` token sequence holds: either a
/// standalone `=` token after the variable name, or the first token with an
/// embedded `=`, split at its first `=`.
pub open spec fn extract_assignment_spec(toks: Seq<Seq<char>>) -> Option<(Seq<char>, Seq<Seq<char>>)> {
    if toks.len() == 0 {
        None
    } else if first_eq_token(toks, 0) < toks.len() {
        if first_eq_token(toks, 0) == 0 {
            None
        } else {
            Some((toks[0], toks.skip(first_eq_token(toks, 0) + 1)))
        }
    } else if first_embedded_eq(toks, 0) < toks.len() {
        Some((assigned_name(toks), assigned_expr(toks)))
    } else {
        None
    }
}

/// The name before the first embedded `=`.
pub open spec fn assigned_name(toks: Seq<Seq<char>>) -> Seq<char> {
    toks[first_embedded_eq(toks, 0)].take(char_index_from(toks[first_embedded_eq(toks, 0)], '=', 0))
}

/// The expression tokens after the first embedded `=`: what follows the
/// `=` inside its token, when non-empty, then the remaining tokens.
pub open spec fn assigned_expr(toks: Seq<Seq<char>>) -> Seq<Seq<char>> {
    let fi = first_embedded_eq(toks, 0);
    let rest = toks[fi].skip(char_index_from(toks[fi], '=', 0) + 1);
    let head: Seq<Seq<char>> = if rest.len() > 0 {
        seq![rest]
    } else {
        Seq::empty()
    };
    head + toks.skip(fi + 1)
}

/// Split a `var match` token sequence into the assigned variable name and
/// the expression tokens.
pub fn extract_assignment(tokens: &Vec<String>) -> (r: Option<(String, Vec<String>)>)
    ensures
        r.deep_view() == extract_assignment_spec(tokens.deep_view()),
{
    let ghost dv = tokens.deep_view();
    let n = tokens.len();
    if n == 0 {
        return None;
    }
    proof {
        reveal_strlit("=");
        assert("="@ =~= seq!['=']);
    }
    let mut i: usize = 0;
    while i < n
        invariant
            i <= n == tokens.len(),
            dv == tokens.deep_view(),
            "="@ =~= seq!['='],
            forall|j: int| 0 <= j < i ==> #[trigger] dv[j] != seq!['='],
        decreases n - i,
    {
        if str_eq(tokens[i].as_str(), "=") {
            proof {
                assert(dv[i as int] == tokens@[i as int]@);
                assert(dv[i as int] == seq!['=']);
                lemma_first_eq_token(dv, 0);
                assert(first_eq_token(dv, 0) == i);
            }
            if i == 0 {
                return None;
            }
            let name = tokens[0].clone();
            let exprs = clone_range(tokens, i + 1, n);
            proof {
                assert(exprs.deep_view() =~= dv.skip(i + 1 as int));
            }
            return Some((name, exprs));
        }
        proof {
            assert(dv[i as int] == tokens@[i as int]@);
        }
        i += 1;
    }
    proof {
        lemma_first_eq_token(dv, 0);
        assert(first_eq_token(dv, 0) == n);
    }
    let mut k: usize = 0;
    while k < n
        invariant
            k <= n == tokens.len(),
            dv == tokens.deep_view(),
            first_eq_token(dv, 0) == n,
            forall|j: int|
                0 <= j < k ==> char_index_from(#[trigger] dv[j], '=', 0) == dv[j].len(),
        decreases n - k,
    {
        match find_char(tokens[k].as_str(), '=') {
            Some(p) => {
                proof {
                    assert(dv[k as int] == tokens@[k as int]@);
                    lemma_first_embedded_eq(dv, 0);
                    assert(first_embedded_eq(dv, 0) == k);
                }
                let tk = &tokens[k];
                let tk_len = tk.as_str().unicode_len();
                let name = tk.as_str().substring_char(0, p).to_owned();
                let rest = tk.as_str().substring_char(p + 1, tk_len).to_owned();
                let mut exprs: Vec<String> = Vec::new();
                if rest.as_str().unicode_len() > 0 {
                    exprs.push(rest);
                }
                let mut tail = clone_range(tokens, k + 1, n);
                exprs.append(&mut tail);
                proof {
                    assert(name@ =~= assigned_name(dv));
                    assert(exprs.deep_view() =~= assigned_expr(dv));
                }
                return Some((name, exprs));
            },
            None => {
                proof {
                    assert(dv[k as int] == tokens@[k as int]@);
                }
                k += 1;
            },
        }
    }
    proof {
        lemma_first_embedded_eq(dv, 0);
        assert(first_embedded_eq(dv, 0) == n);
    }
    None
}

/// The five binary operators the evaluator recognizes.
pub open spec fn is_op(c: char) -> bool {
    c == '+' || c == '-' || c == '*' || c == '/' || c == '^'
}

fn is_op_char(c: char) -> (r: bool)
    ensures
        r == is_op(c),
{
    c == '+' || c == '-' || c == '*' || c == '/' || c == '^'
}

/// The least index at or after `i` holding an operator that is neither the
/// first nor the last character, or the length if there is none.
pub open spec fn first_op_from(t: Seq<char>, i: int) -> int
    decreases t.len() - i,
{
    if !(0 <= i < t.len()) {
        t.len() as int
    } else if is_op(t[i]) && 0 < i < t.len() - 1 {
        i
    } else {
        first_op_from(t, i + 1)
    }
}

pub proof fn lemma_first_op_from(t: Seq<char>, i: int)
    requires
        0 <= i <= t.len(),
    ensures
        i <= first_op_from(t, i) <= t.len(),
        forall|j: int|
            i <= j < first_op_from(t, i) ==> !(is_op(#[trigger] t[j]) && 0 < j < t.len() - 1),
        first_op_from(t, i) < t.len() ==> is_op(t[first_op_from(t, i)]) && 0 < first_op_from(t, i)
            < t.len() - 1,
    decreases t.len() - i,
{
    if i < t.len() && !(is_op(t[i]) && 0 < i < t.len() - 1) {
        lemma_first_op_from(t, i + 1);
    }
}

/// What parsing a single binary expression yields: trim the text, find the
/// first operator standing strictly inside it, and trim both sides.
pub open spec fn parse_expression_spec(s: Seq<char>) -> Option<(Seq<char>, char, Seq<char>)> {
    let t = trim_of(s);
    if t.len() == 0 {
        None
    } else if first_op_from(t, 0) < t.len() {
        Some(
            (
                trim_of(t.take(first_op_from(t, 0))),
                t[first_op_from(t, 0)],
                trim_of(t.skip(first_op_from(t, 0) + 1)),
            ),
        )
    } else {
        None
    }
}

/// Parse a single binary arithmetic expression into its left operand,
/// operator and right operand.
pub fn parse_expression(expr: &str) -> (r: Option<(String, char, String)>)
    ensures
        r.deep_view() == parse_expression_spec(expr@),
{
    let t = trim(expr);
    let ts = t.as_str();
    let n = ts.unicode_len();
    if n == 0 {
        return None;
    }
    let mut i: usize = 1;
    while i < n - 1 && !is_op_char(ts.get_char(i))
        invariant
            1 <= n == t@.len(),
            1 <= i <= n,
            t@ == trim_of(expr@),
            ts@ == t@,
            forall|j: int| 1 <= j < i ==> !is_op(#[trigger] t@[j]),
        decreases n - i,
    {
        i += 1;
    }
    if i >= n - 1 {
        proof {
            lemma_first_op_from(t@, 0);
            assert(first_op_from(t@, 0) == t@.len());
        }
        return None;
    }
    proof {
        lemma_first_op_from(t@, 0);
        assert(first_op_from(t@, 0) == i);
    }
    let op = ts.get_char(i);
    let left = trim(ts.substring_char(0, i));
    let right = trim(ts.substring_char(i + 1, n));
    proof {
        assert(t@.subrange(0, i as int) =~= t@.take(i as int));
        assert(t@.subrange(i + 1 as int, n as int) =~= t@.skip(i + 1));
    }
    Some((left, op, right))
}

/// The errors a `var match` invocation can report.
pub enum MatchError {
    /// No assignment shape was found in the tokens.
    ExpectedAssignment,
    /// The expression text held no interior operator.
    InvalidExpression(String),
    /// An operand named a variable that is not set.
    UnknownVariable(String),
    /// An operand named a variable whose value is not numeric.
    NonNumeric(String),
}

/// The mathematical counterpart of `MatchError`.
pub enum SpecMatchError {
    ExpectedAssignment,
    InvalidExpression(Seq<char>),
    UnknownVariable(Seq<char>),
    NonNumeric(Seq<char>),
}

pub open spec fn match_error_view(e: &MatchError) -> SpecMatchError {
    match e {
        MatchError::ExpectedAssignment => SpecMatchError::ExpectedAssignment,
        MatchError::InvalidExpression(s) => SpecMatchError::InvalidExpression(s@),
        MatchError::UnknownVariable(s) => SpecMatchError::UnknownVariable(s@),
        MatchError::NonNumeric(s) => SpecMatchError::NonNumeric(s@),
    }
}

/// How one operand resolves: a numeric literal stands for itself; any other
/// token is read as a variable whose value must be numeric.
pub open spec fn resolve_operand_spec(tok: Seq<char>, vars: Map<Seq<char>, Seq<char>>) -> Result<
    Seq<char>,
    SpecMatchError,
> {
    if is_float_literal(tok) {
        Ok(tok)
    } else if vars.contains_key(tok) {
        if is_float_literal(vars[tok]) {
            Ok(vars[tok])
        } else {
            Err(SpecMatchError::NonNumeric(tok))
        }
    } else {
        Err(SpecMatchError::UnknownVariable(tok))
    }
}

/// Resolve one operand to the text of a numeric value.
pub fn resolve_operand(tok: &str, vars: &VarStore) -> (r: Result<String, MatchError>)
    ensures
        match r {
            Ok(v) => resolve_operand_spec(tok@, vars@) == Ok::<Seq<char>, SpecMatchError>(v@),
            Err(e) => resolve_operand_spec(tok@, vars@) == Err::<Seq<char>, SpecMatchError>(
                match_error_view(&e),
            ),
        },
{
    if is_numeric_literal(tok) {
        return Ok(tok.to_owned());
    }
    match vars.get(tok) {
        Some(v) => {
            if is_numeric_literal(v.as_str()) {
                Ok(v)
            } else {
                Err(MatchError::NonNumeric(tok.to_owned()))
            }
        },
        None => Err(MatchError::UnknownVariable(tok.to_owned())),
    }
}

/// A fully resolved `var match` request: the variable to assign and the two
/// numeric operand texts with their operator. Evaluating the arithmetic is
/// the embedding program's part.
pub struct MatchPlan {
    pub name: String,
    pub left: String,
    pub op: char,
    pub right: String,
}

/// What a `var match` token sequence asks for: discard tokens from the
/// first `;` on, extract the assignment, parse the expression joined with
/// single spaces, and resolve both operands.
pub open spec fn var_match_spec(toks: Seq<Seq<char>>, vars: Map<Seq<char>, Seq<char>>) -> Result<
    (Seq<char>, Seq<char>, char, Seq<char>),
    SpecMatchError,
> {
    let kept = toks.take(first_semi(toks, 0));
    match extract_assignment_spec(kept) {
        None => Err(SpecMatchError::ExpectedAssignment),
        Some(assignment) => match parse_expression_spec(join_spaces(assignment.1)) {
            None => Err(SpecMatchError::InvalidExpression(join_spaces(assignment.1))),
            Some(parts) => match resolve_operand_spec(parts.0, vars) {
                Err(e) => Err(e),
                Ok(lv) => match resolve_operand_spec(parts.2, vars) {
                    Err(e) => Err(e),
                    Ok(rv) => Ok((assignment.0, lv, parts.1, rv)),
                },
            },
        },
    }
}

/// Work out a `var match` request over the tokens that follow the word
/// `match`.
pub fn var_match(tokens: &Vec<String>, vars: &VarStore) -> (r: Result<MatchPlan, MatchError>)
    ensures
        match r {
            Ok(p) => var_match_spec(tokens.deep_view(), vars@) == Ok::<
                (Seq<char>, Seq<char>, char, Seq<char>),
                SpecMatchError,
            >((p.name@, p.left@, p.op, p.right@)),
            Err(e) => var_match_spec(tokens.deep_view(), vars@) == Err::<
                (Seq<char>, Seq<char>, char, Seq<char>),
                SpecMatchError,
            >(match_error_view(&e)),
        },
{
    let ghost dv = tokens.deep_view();
    let n = tokens.len();
    proof {
        reveal_strlit(";");
        assert(";"@ =~= seq![';']);
    }
    let mut si: usize = 0;
    while si < n && !str_eq(tokens[si].as_str(), ";")
        invariant
            si <= n == tokens.len(),
            dv == tokens.deep_view(),
            ";"@ =~= seq![';'],
            forall|j: int| 0 <= j < si ==> #[trigger] dv[j] != seq![';'],
        decreases n - si,
    {
        proof {
            assert(dv[si as int] == tokens@[si as int]@);
        }
        si += 1;
    }
    proof {
        if si < n {
            assert(dv[si as int] == tokens@[si as int]@);
        }
        lemma_first_semi(dv, 0);
        assert(first_semi(dv, 0) == si);
    }
    let kept = clone_range(tokens, 0, si);
    proof {
        assert(kept.deep_view() =~= dv.take(si as int));
    }
    match extract_assignment(&kept) {
        None => Err(MatchError::ExpectedAssignment),
        Some((name, expr_tokens)) => {
            let expr = join_tokens(&expr_tokens, 0);
            proof {
                assert(expr_tokens.deep_view().skip(0) =~= expr_tokens.deep_view());
            }
            match parse_expression(expr.as_str()) {
                None => Err(MatchError::InvalidExpression(expr)),
                Some((left_tok, op, right_tok)) => {
                    match resolve_operand(left_tok.as_str(), vars) {
                        Err(e) => Err(e),
                        Ok(lv) => match resolve_operand(right_tok.as_str(), vars) {
                            Err(e) => Err(e),
                            Ok(rv) => Ok(MatchPlan { name, left: lv, op, right: rv }),
                        },
                    }
                },
            }
        },
    }
}

} // verus!
