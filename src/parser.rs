//! Parsing of token streams into expression trees.
//!
//! A stream is the window `[pos, end)` of a token vector; past `end` the
//! stream is exhausted. The parser is an operator-precedence parser with an
//! operator stack: an incoming operator first reduces every stacked operator
//! of higher or equal precedence, so `+ - * /` associate to the left.
use vstd::prelude::*;
use vstd::string::StrSliceExecFns;

use crate::fixed::Fixed;
use crate::tokenizer::{lex_tokens, tokenize, SToken, Token};

verus! {

broadcast use vstd::std_specs::vec::axiom_vec_index_decreases;

/// Why a formula could not be read.
#[derive(Clone, Copy, PartialEq, Eq, Structural, Debug)]
pub enum ParseError {
    /// A numeral with more than one decimal point.
    MalformedNumber,
    /// A token that the grammar does not allow where it stands.
    UnexpectedToken,
    /// The token stream ended where more was expected.
    UnexpectedEnd,
}

/// An expression tree.
#[derive(Debug)]
pub enum Expr {
    Number(Fixed),
    Variable(String),
    Call(String, Vec<Expr>),
    Binary(Box<Expr>, String, Box<Expr>),
}

/// The mathematical model of an expression tree.
pub ghost enum SExpr {
    Number(Fixed),
    Variable(Seq<char>),
    Call(Seq<char>, Seq<SExpr>),
    Binary(Box<SExpr>, Seq<char>, Box<SExpr>),
}

pub open spec fn expr_view(e: Expr) -> SExpr
    decreases e,
{
    match e {
        Expr::Number(n) => SExpr::Number(n),
        Expr::Variable(s) => SExpr::Variable(s@),
        Expr::Call(name, args) => SExpr::Call(
            name@,
            Seq::new(
                args.len() as nat,
                |i: int|
                    if 0 <= i < args.len() {
                        expr_view(args[i])
                    } else {
                        SExpr::Number(Fixed { raw: 0 })
                    },
            ),
        ),
        Expr::Binary(l, op, r) => SExpr::Binary(Box::new(expr_view(*l)), op@, Box::new(expr_view(*r))),
    }
}

impl View for Expr {
    type V = SExpr;

    open spec fn view(&self) -> SExpr {
        expr_view(*self)
    }
}

/// A top-level statement: `name = expression`.
#[derive(Debug)]
pub enum Line {
    Assign(String, Expr),
}

pub open spec fn token_views(toks: Seq<Token>) -> Seq<SToken> {
    toks.map_values(|t: Token| t@)
}

pub open spec fn expr_views(es: Seq<Expr>) -> Seq<SExpr> {
    es.map_values(|e: Expr| e@)
}

pub open spec fn string_views(ss: Seq<String>) -> Seq<Seq<char>> {
    ss.map_values(|s: String| s@)
}

/// Binding strength of an operator; the empty text marks the end of an
/// expression.
pub open spec fn precedence_of(op: Seq<char>) -> nat {
    if op.len() == 0 {
        0
    } else if op == seq!['+'] || op == seq!['-'] {
        1
    } else if op == seq!['*'] || op == seq!['/'] {
        2
    } else {
        3
    }
}

/// The token at `pos` of the stream window `[.., end)`, if any.
pub open spec fn peek(toks: Seq<SToken>, pos: int, end: int) -> Option<SToken> {
    if 0 <= pos < end && end <= toks.len() {
        Some(toks[pos])
    } else {
        None
    }
}

/// Pops every stacked operator that binds at least as tightly as `op`,
/// combining the two topmost operands each time.
pub open spec fn reduce_ops(op: Seq<char>, ops: Seq<Seq<char>>, exprs: Seq<SExpr>) -> (
    Seq<Seq<char>>,
    Seq<SExpr>,
)
    decreases ops.len(),
{
    if ops.len() > 0 && exprs.len() >= 2 && precedence_of(op) <= precedence_of(ops.last()) {
        let n = exprs.len() as int;
        let node = SExpr::Binary(Box::new(exprs[n - 2]), ops.last(), Box::new(exprs[n - 1]));
        reduce_ops(op, ops.drop_last(), exprs.subrange(0, n - 2).push(node))
    } else {
        (ops, exprs)
    }
}

/// Pops every remaining operator, combining operands.
pub open spec fn finish_ops(ops: Seq<Seq<char>>, exprs: Seq<SExpr>) -> Seq<SExpr>
    decreases ops.len(),
{
    if ops.len() > 0 && exprs.len() >= 2 {
        let n = exprs.len() as int;
        let node = SExpr::Binary(Box::new(exprs[n - 2]), ops.last(), Box::new(exprs[n - 1]));
        finish_ops(ops.drop_last(), exprs.subrange(0, n - 2).push(node))
    } else {
        exprs
    }
}

/// Index of the first `)` at or after `p`, or `end` when there is none.
pub open spec fn find_close(toks: Seq<SToken>, p: int, end: int) -> int
    decreases end - p,
{
    if p < end && peek(toks, p, end) != Some(SToken::CloseParen) {
        find_close(toks, p + 1, end)
    } else {
        p
    }
}

/// An expression read from `pos`, and the position after it.
pub open spec fn parse_expr_spec(toks: Seq<SToken>, pos: int, end: int) -> Result<
    (SExpr, int),
    ParseError,
>
    decreases end - pos, 3nat,
{
    shunt(toks, pos, end, seq![], seq![])
}

/// The operator-stack loop: read a value, then either shift an operator and
/// go on, or stop and reduce what is stacked.
pub open spec fn shunt(
    toks: Seq<SToken>,
    pos: int,
    end: int,
    ops: Seq<Seq<char>>,
    exprs: Seq<SExpr>,
) -> Result<(SExpr, int), ParseError>
    decreases end - pos, 2nat,
{
    match parse_value_spec(toks, pos, end) {
        Err(e) => Err(e),
        Ok((v, p1)) => if pos < p1 <= end {
            let exprs1 = exprs.push(v);
            match peek(toks, p1, end) {
                Some(SToken::Operator(op)) => {
                    let (ops2, exprs2) = reduce_ops(op, ops, exprs1);
                    shunt(toks, p1 + 1, end, ops2.push(op), exprs2)
                },
                _ => Ok((finish_ops(ops, exprs1).last(), p1)),
            }
        } else {
            Err(ParseError::UnexpectedEnd)
        },
    }
}

/// A single value: a number, a variable, a call, or a parenthesized
/// expression. A parenthesized span runs to the first `)`, with no counting
/// of nested parentheses; with no `)` it runs to the end of the stream.
pub open spec fn parse_value_spec(toks: Seq<SToken>, pos: int, end: int) -> Result<
    (SExpr, int),
    ParseError,
>
    decreases end - pos, 1nat,
{
    match peek(toks, pos, end) {
        None => Err(ParseError::UnexpectedEnd),
        Some(SToken::Ident(name)) => if peek(toks, pos + 1, end) == Some(SToken::OpenParen) {
            parse_func_spec(toks, pos, end)
        } else {
            Ok((SExpr::Variable(name), pos + 1))
        },
        Some(SToken::Number(n)) => Ok((SExpr::Number(n), pos + 1)),
        Some(SToken::OpenParen) => {
            let close = find_close(toks, pos + 1, end);
            if pos + 1 <= close <= end {
                match parse_expr_spec(toks, pos + 1, close) {
                    Ok((e, _)) => Ok(
                        (
                            e,
                            if close < end {
                                close + 1
                            } else {
                                end
                            },
                        ),
                    ),
                    Err(e) => Err(e),
                }
            } else {
                Err(ParseError::UnexpectedEnd)
            }
        },
        Some(_) => Err(ParseError::UnexpectedToken),
    }
}

/// A call: a name, `(`, expressions separated by commas, `)`.
pub open spec fn parse_func_spec(toks: Seq<SToken>, pos: int, end: int) -> Result<
    (SExpr, int),
    ParseError,
>
    decreases end - pos, 0nat,
{
    match peek(toks, pos, end) {
        Some(SToken::Ident(name)) => match peek(toks, pos + 1, end) {
            Some(SToken::OpenParen) => parse_args_spec(toks, pos + 2, end, name, seq![]),
            Some(_) => Err(ParseError::UnexpectedToken),
            None => Err(ParseError::UnexpectedEnd),
        },
        Some(_) => Err(ParseError::UnexpectedToken),
        None => Err(ParseError::UnexpectedEnd),
    }
}

/// The argument list of a call from `p` on, `acc` holding the arguments
/// read so far.
pub open spec fn parse_args_spec(
    toks: Seq<SToken>,
    p: int,
    end: int,
    name: Seq<char>,
    acc: Seq<SExpr>,
) -> Result<(SExpr, int), ParseError>
    decreases end - p, 4nat,
{
    match peek(toks, p, end) {
        None => Err(ParseError::UnexpectedEnd),
        Some(SToken::CloseParen) => Ok((SExpr::Call(name, acc), p + 1)),
        Some(SToken::Comma) => parse_args_spec(toks, p + 1, end, name, acc),
        Some(_) => match parse_expr_spec(toks, p, end) {
            Ok((e, p2)) => if p < p2 <= end {
                parse_args_spec(toks, p2, end, name, acc.push(e))
            } else {
                Err(ParseError::UnexpectedEnd)
            },
            Err(e) => Err(e),
        },
    }
}

/// A statement `name = expression` read from the start of the stream.
pub open spec fn parse_line_spec(toks: Seq<SToken>) -> Result<(Seq<char>, SExpr), ParseError> {
    match peek(toks, 0, toks.len() as int) {
        Some(SToken::Ident(name)) => match peek(toks, 1, toks.len() as int) {
            Some(SToken::Assign) => match parse_expr_spec(toks, 2, toks.len() as int) {
                Ok((e, _)) => Ok((name, e)),
                Err(e) => Err(e),
            },
            Some(_) => Err(ParseError::UnexpectedToken),
            None => Err(ParseError::UnexpectedEnd),
        },
        Some(_) => Err(ParseError::UnexpectedToken),
        None => Err(ParseError::UnexpectedEnd),
    }
}

pub open spec fn result_view(r: Result<(Expr, usize), ParseError>) -> Result<
    (SExpr, int),
    ParseError,
> {
    match r {
        Ok((e, p)) => Ok((e@, p as int)),
        Err(e) => Err(e),
    }
}

/// Whether `s` is the one-character text `c`.
pub(crate) fn is_char_text(s: &String, c: char) -> (r: bool)
    ensures
        r == (s@ == seq![c]),
{
    let n = s.as_str().unicode_len();
    if n == 1 {
        let d = s.as_str().get_char(0);
        proof {
            if d == c {
                assert(s@ =~= seq![c]);
            }
        }
        d == c
    } else {
        proof {
            if s@ == seq![c] {
                assert(s@.len() == 1);
            }
        }
        false
    }
}

/// Binding strength of an operator: 0 for the empty text, 1 for `+` and
/// `-`, 2 for `*` and `/`, 3 for any other operator.
pub fn precedence(op: &String) -> (r: u32)
    ensures
        r == precedence_of(op@),
{
    if op.as_str().unicode_len() == 0 {
        0
    } else if is_char_text(op, '+') || is_char_text(op, '-') {
        1
    } else if is_char_text(op, '*') || is_char_text(op, '/') {
        2
    } else {
        3
    }
}

fn combine_top(op: String, exprs: &mut Vec<Expr>)
    requires
        old(exprs).len() >= 2,
    ensures
        ({
            let n = old(exprs).len() as int;
            let v = expr_views(old(exprs)@);
            expr_views(final(exprs)@) == v.subrange(0, n - 2).push(
                SExpr::Binary(Box::new(v[n - 2]), op@, Box::new(v[n - 1])),
            )
        }),
        final(exprs).len() == old(exprs).len() - 1,
{
    let ghost v = expr_views(exprs@);
    let ghost n = exprs.len() as int;
    let r = exprs.pop().unwrap();
    let l = exprs.pop().unwrap();
    assert(l@ == v[n - 2]);
    assert(r@ == v[n - 1]);
    exprs.push(Expr::Binary(Box::new(l), op, Box::new(r)));
    assert(expr_views(exprs@) =~= v.subrange(0, n - 2).push(
        SExpr::Binary(Box::new(v[n - 2]), op@, Box::new(v[n - 1])),
    ));
}

/// Reads an expression from the stream window `[pos, end)` of `toks`, and
/// returns it with the position of the first token after it.
pub fn parse_expr(toks: &Vec<Token>, pos: usize, end: usize) -> (r: Result<(Expr, usize), ParseError>)
    requires
        pos <= end <= toks.len(),
    ensures
        result_view(r) == parse_expr_spec(token_views(toks@), pos as int, end as int),
    decreases end - pos, 3nat,
{
    let ghost st = token_views(toks@);
    let mut ops: Vec<String> = Vec::new();
    let mut exprs: Vec<Expr> = Vec::new();
    let mut p = pos;
    assert(string_views(ops@) =~= seq![]);
    assert(expr_views(exprs@) =~= seq![]);
    loop
        invariant
            pos <= p <= end <= toks.len(),
            st == token_views(toks@),
            exprs.len() == ops.len(),
            shunt(st, p as int, end as int, string_views(ops@), expr_views(exprs@))
                == parse_expr_spec(st, pos as int, end as int),
        decreases end - p,
    {
        let v = parse_value(toks, p, end);
        let (v, p1) = match v {
            Err(e) => {
                return Err(e);
            },
            Ok(x) => x,
        };
        if !(p < p1 && p1 <= end) {
            return Err(ParseError::UnexpectedEnd);
        }
        let ghost ops0 = string_views(ops@);
        let ghost ex0 = expr_views(exprs@);
        let ghost ev1 = ex0.push(v@);
        exprs.push(v);
        assert(expr_views(exprs@) =~= ev1);
        let mut op_next: Option<String> = None;
        if p1 < end {
            match &toks[p1] {
                Token::Operator(op) => {
                    op_next = Some(op.clone());
                },
                _ => {},
            }
        }
        proof {
            if p1 < end {
                assert(st[p1 as int] == toks@[p1 as int]@);
            }
        }
        match op_next {
            Some(op) => {
                assert(peek(st, p1 as int, end as int) == Some(SToken::Operator(op@)));
                let ghost target = reduce_ops(op@, ops0, ev1);
                let prec = precedence(&op);
                while ops.len() > 0 && precedence(&ops[ops.len() - 1]) >= prec
                    invariant
                        exprs.len() == ops.len() + 1,
                        prec == precedence_of(op@),
                        reduce_ops(op@, string_views(ops@), expr_views(exprs@)) == target,
                    decreases ops.len(),
                {
                    let ghost so = string_views(ops@);
                    let top = ops.pop().unwrap();
                    assert(string_views(ops@) =~= so.drop_last());
                    combine_top(top, &mut exprs);
                }
                assert(target == (string_views(ops@), expr_views(exprs@)));
                let ghost ops2 = string_views(ops@);
                ops.push(op);
                assert(string_views(ops@) =~= ops2.push(op@));
                p = p1 + 1;
            },
            None => {
                let ghost target = finish_ops(ops0, ev1);
                while ops.len() > 0
                    invariant
                        exprs.len() == ops.len() + 1,
                        finish_ops(string_views(ops@), expr_views(exprs@)) == target,
                    decreases ops.len(),
                {
                    let ghost so = string_views(ops@);
                    let top = ops.pop().unwrap();
                    assert(string_views(ops@) =~= so.drop_last());
                    combine_top(top, &mut exprs);
                }
                assert(target == expr_views(exprs@));
                let e = exprs.pop().unwrap();
                return Ok((e, p1));
            },
        }
    }
}

fn is_close_paren(t: &Token) -> (r: bool)
    ensures
        r == (t@ == SToken::CloseParen),
{
    match t {
        Token::CloseParen => true,
        _ => false,
    }
}

fn find_close_exec(toks: &Vec<Token>, start: usize, end: usize) -> (c: usize)
    requires
        start <= end <= toks.len(),
    ensures
        c == find_close(token_views(toks@), start as int, end as int),
        start <= c <= end,
{
    let mut p = start;
    while p < end && !is_close_paren(&toks[p])
        invariant
            start <= p <= end <= toks.len(),
            find_close(token_views(toks@), p as int, end as int) == find_close(
                token_views(toks@),
                start as int,
                end as int,
            ),
        decreases end - p,
    {
        assert(token_views(toks@)[p as int] == toks@[p as int]@);
        p = p + 1;
    }
    proof {
        if p < end {
            assert(token_views(toks@)[p as int] == toks@[p as int]@);
        }
    }
    p
}

/// Reads one value from the stream window `[pos, end)` of `toks`.
fn parse_value(toks: &Vec<Token>, pos: usize, end: usize) -> (r: Result<(Expr, usize), ParseError>)
    requires
        pos <= end <= toks.len(),
    ensures
        result_view(r) == parse_value_spec(token_views(toks@), pos as int, end as int),
    decreases end - pos, 2nat,
{
    let ghost st = token_views(toks@);
    if pos >= end {
        return Err(ParseError::UnexpectedEnd);
    }
    assert(st[pos as int] == toks@[pos as int]@);
    match &toks[pos] {
        Token::Ident(name) => {
            let is_call = pos + 1 < end && match &toks[pos + 1] {
                Token::OpenParen => true,
                _ => false,
            };
            proof {
                if pos + 1 < end {
                    assert(st[pos + 1] == toks@[pos + 1]@);
                }
            }
            if is_call {
                parse_func(toks, pos, end)
            } else {
                Ok((Expr::Variable(name.clone()), pos + 1))
            }
        },
        Token::Number(n) => Ok((Expr::Number(*n), pos + 1)),
        Token::OpenParen => {
            let close = find_close_exec(toks, pos + 1, end);
            match parse_expr(toks, pos + 1, close) {
                Ok((e, _)) => Ok(
                    (
                        e,
                        if close < end {
                            close + 1
                        } else {
                            end
                        },
                    ),
                ),
                Err(e) => Err(e),
            }
        },
        _ => Err(ParseError::UnexpectedToken),
    }
}

/// Reads a call `name(arg, ...)` from the stream window `[pos, end)`.
fn parse_func(toks: &Vec<Token>, pos: usize, end: usize) -> (r: Result<(Expr, usize), ParseError>)
    requires
        pos <= end <= toks.len(),
    ensures
        result_view(r) == parse_func_spec(token_views(toks@), pos as int, end as int),
    decreases end - pos, 1nat,
{
    let ghost st = token_views(toks@);
    if pos >= end {
        return Err(ParseError::UnexpectedEnd);
    }
    assert(st[pos as int] == toks@[pos as int]@);
    let name = match &toks[pos] {
        Token::Ident(n) => n.clone(),
        _ => {
            return Err(ParseError::UnexpectedToken);
        },
    };
    if pos + 1 >= end {
        return Err(ParseError::UnexpectedEnd);
    }
    assert(st[pos + 1] == toks@[pos + 1]@);
    match &toks[pos + 1] {
        Token::OpenParen => {},
        _ => {
            return Err(ParseError::UnexpectedToken);
        },
    }
    let mut items: Vec<Expr> = Vec::new();
    let mut p = pos + 2;
    assert(expr_views(items@) =~= seq![]);
    loop
        invariant
            pos + 2 <= p <= end <= toks.len(),
            st == token_views(toks@),
            parse_args_spec(st, p as int, end as int, name@, expr_views(items@)) == parse_func_spec(
                st,
                pos as int,
                end as int,
            ),
        decreases end - p,
    {
        if p >= end {
            return Err(ParseError::UnexpectedEnd);
        }
        assert(st[p as int] == toks@[p as int]@);
        match &toks[p] {
            Token::CloseParen => {
                let ghost iv = expr_views(items@);
                let call = Expr::Call(name, items);
                assert(call@ == SExpr::Call(name@, iv)) by {
                    if let SExpr::Call(_, args) = call@ {
                        assert(args =~= iv);
                    }
                }
                return Ok((call, p + 1));
            },
            Token::Comma => {
                p = p + 1;
            },
            _ => {
                match parse_expr(toks, p, end) {
                    Ok((e, p2)) => {
                        if !(p < p2 && p2 <= end) {
                            return Err(ParseError::UnexpectedEnd);
                        }
                        let ghost iv = expr_views(items@);
                        items.push(e);
                        assert(expr_views(items@) =~= iv.push(e@));
                        p = p2;
                    },
                    Err(e) => {
                        return Err(e);
                    },
                }
            },
        }
    }
}

/// Reads a statement `name = expression` from the start of `toks`.
pub fn parse_line(toks: &Vec<Token>) -> (r: Result<Line, ParseError>)
    ensures
        match r {
            Ok(Line::Assign(name, e)) => parse_line_spec(token_views(toks@)) == Ok::<
                (Seq<char>, SExpr),
                ParseError,
            >((name@, e@)),
            Err(x) => parse_line_spec(token_views(toks@)) == Err::<(Seq<char>, SExpr), ParseError>(
                x,
            ),
        },
{
    let ghost st = token_views(toks@);
    let n = toks.len();
    if n == 0 {
        return Err(ParseError::UnexpectedEnd);
    }
    assert(st[0] == toks@[0]@);
    let name = match &toks[0] {
        Token::Ident(s) => s.clone(),
        _ => {
            return Err(ParseError::UnexpectedToken);
        },
    };
    if n < 2 {
        return Err(ParseError::UnexpectedEnd);
    }
    assert(st[1] == toks@[1]@);
    match &toks[1] {
        Token::Assign => {},
        _ => {
            return Err(ParseError::UnexpectedToken);
        },
    }
    match parse_expr(toks, 2, n) {
        Ok((e, _)) => Ok(Line::Assign(name, e)),
        Err(x) => Err(x),
    }
}

/// The tokens of a line of text, or why it cannot be lexed.
pub open spec fn line_tokens(text: Seq<char>) -> Result<Seq<SToken>, ParseError> {
    lex_tokens(text, 0)
}

/// Lexes one line of text and reads an expression from its start.
pub fn parse_formula(text: &str) -> (r: Result<Expr, ParseError>)
    ensures
        match line_tokens(text@) {
            Err(x) => r == Err::<Expr, ParseError>(x),
            Ok(ts) => match parse_expr_spec(ts, 0, ts.len() as int) {
                Ok((e, _)) => r is Ok && r->Ok_0@ == e,
                Err(x) => r == Err::<Expr, ParseError>(x),
            },
        },
{
    let toks = match tokenize(text) {
        Ok(t) => t,
        Err(x) => {
            return Err(x);
        },
    };
    match parse_expr(&toks, 0, toks.len()) {
        Ok((e, _)) => Ok(e),
        Err(x) => Err(x),
    }
}

/// Lexes one line of text and reads a statement `name = expression`.
pub fn parse_statement(text: &str) -> (r: Result<Line, ParseError>)
    ensures
        match line_tokens(text@) {
            Err(x) => r is Err && r->Err_0 == x,
            Ok(ts) => match parse_line_spec(ts) {
                Ok((name, e)) => r is Ok && (match r->Ok_0 {
                    Line::Assign(n, x) => n@ == name && x@ == e,
                }),
                Err(x) => r is Err && r->Err_0 == x,
            },
        },
{
    let toks = match tokenize(text) {
        Ok(t) => t,
        Err(x) => {
            return Err(x);
        },
    };
    parse_line(&toks)
}

} // verus!
