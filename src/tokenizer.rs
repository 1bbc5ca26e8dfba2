//! Lexing of formula text into tokens.
use vstd::prelude::*;
use vstd::string::StrSliceExecFns;

use crate::fixed::{clamp, Fixed, SCALE};
use crate::parser::ParseError;

verus! {

/// A lexical token of the formula language.
#[derive(Clone, Debug)]
pub enum Token {
    Operator(String),
    Assign,
    Ident(String),
    Number(Fixed),
    OpenParen,
    CloseParen,
    Comma,
    EoL,
}

/// The mathematical model of a token: text becomes a character sequence.
pub ghost enum SToken {
    Operator(Seq<char>),
    Assign,
    Ident(Seq<char>),
    Number(Fixed),
    OpenParen,
    CloseParen,
    Comma,
    EoL,
}

impl View for Token {
    type V = SToken;

    open spec fn view(&self) -> SToken {
        match self {
            Token::Operator(s) => SToken::Operator(s@),
            Token::Assign => SToken::Assign,
            Token::Ident(s) => SToken::Ident(s@),
            Token::Number(n) => SToken::Number(*n),
            Token::OpenParen => SToken::OpenParen,
            Token::CloseParen => SToken::CloseParen,
            Token::Comma => SToken::Comma,
            Token::EoL => SToken::EoL,
        }
    }
}

/// Characters with the Unicode `White_Space` property.
pub open spec fn is_space(c: char) -> bool {
    ('\u{9}' <= c <= '\u{d}') || c == ' ' || c == '\u{85}' || c == '\u{a0}' || c == '\u{1680}'
        || ('\u{2000}' <= c <= '\u{200a}') || c == '\u{2028}' || c == '\u{2029}' || c
        == '\u{202f}' || c == '\u{205f}' || c == '\u{3000}'
}

pub open spec fn is_digit(c: char) -> bool {
    '0' <= c <= '9'
}

/// Characters that may start or continue an identifier.
pub open spec fn is_ident_char(c: char) -> bool {
    ('a' <= c <= 'z') || ('A' <= c <= 'Z') || c == '_' || c == '.'
}

/// The three kinds of maximal runs the lexer consumes.
#[derive(Clone, Copy, PartialEq, Eq, Structural, Debug)]
pub enum RunKind {
    Number,
    Ident,
    Operator,
}

pub open spec fn in_run(k: RunKind, c: char) -> bool {
    match k {
        RunKind::Number => is_digit(c) || c == '.',
        RunKind::Ident => is_ident_char(c),
        RunKind::Operator => !is_space(c),
    }
}

/// End of the maximal run of `k` characters of `s` that starts at `i`.
pub open spec fn run_end(s: Seq<char>, i: int, k: RunKind) -> int
    decreases s.len() - i,
{
    if 0 <= i < s.len() && in_run(k, s[i]) {
        run_end(s, i + 1, k)
    } else {
        i
    }
}

/// State after reading a numeral left to right: whether it is well formed,
/// its integer part, its fractional part in millionths (digits past the
/// sixth dropped), the place value of the next fractional digit, and
/// whether the point has been seen.
pub open spec fn numeral_state(t: Seq<char>) -> (bool, int, int, int, bool)
    decreases t.len(),
{
    if t.len() == 0 {
        (true, 0, 0, 100_000, false)
    } else {
        let (ok, ip, fr, place, dot) = numeral_state(t.drop_last());
        let c = t.last();
        let d = c as int - '0' as int;
        if c == '.' {
            if dot {
                (false, ip, fr, place, dot)
            } else {
                (ok, ip, fr, place, true)
            }
        } else if !dot {
            (ok, ip * 10 + d, fr, place, dot)
        } else {
            (ok, ip, fr + d * place, place / 10, dot)
        }
    }
}

/// The value of a numeral of digits and at most one point, or `None` when
/// it holds two points. Values too large for a `Fixed` saturate.
pub open spec fn numeral_value(t: Seq<char>) -> Option<Fixed> {
    let (ok, ip, fr, place, dot) = numeral_state(t);
    if ok {
        Some(Fixed { raw: clamp(ip * SCALE + fr) as i64 })
    } else {
        None
    }
}

/// The token that starts at character `pos` of `s`, and the position after
/// it. Whitespace is skipped; a line break yields `EoL` without advancing,
/// and so does the end of the text.
pub open spec fn lex(s: Seq<char>, pos: int) -> (Result<SToken, ParseError>, int)
    decreases s.len() - pos,
{
    if pos < 0 || pos >= s.len() {
        (Ok(SToken::EoL), pos)
    } else {
        let c = s[pos];
        if is_digit(c) {
            let e = run_end(s, pos, RunKind::Number);
            match numeral_value(s.subrange(pos, e)) {
                Some(v) => (Ok(SToken::Number(v)), e),
                None => (Err(ParseError::MalformedNumber), e),
            }
        } else if c == '(' {
            (Ok(SToken::OpenParen), pos + 1)
        } else if c == ')' {
            (Ok(SToken::CloseParen), pos + 1)
        } else if c == ',' {
            (Ok(SToken::Comma), pos + 1)
        } else if c == '=' {
            (Ok(SToken::Assign), pos + 1)
        } else if is_ident_char(c) {
            let e = run_end(s, pos, RunKind::Ident);
            (Ok(SToken::Ident(s.subrange(pos, e))), e)
        } else if c == '\n' || c == '\r' {
            (Ok(SToken::EoL), pos)
        } else if is_space(c) {
            lex(s, pos + 1)
        } else {
            let e = run_end(s, pos, RunKind::Operator);
            (Ok(SToken::Operator(s.subrange(pos, e))), e)
        }
    }
}

pub fn is_space_char(c: char) -> (r: bool)
    ensures
        r == is_space(c),
{
    ('\u{9}' <= c && c <= '\u{d}') || c == ' ' || c == '\u{85}' || c == '\u{a0}' || c == '\u{1680}'
        || ('\u{2000}' <= c && c <= '\u{200a}') || c == '\u{2028}' || c == '\u{2029}' || c
        == '\u{202f}' || c == '\u{205f}' || c == '\u{3000}'
}

fn in_run_exec(k: RunKind, c: char) -> (r: bool)
    ensures
        r == in_run(k, c),
{
    match k {
        RunKind::Number => ('0' <= c && c <= '9') || c == '.',
        RunKind::Ident => ('a' <= c && c <= 'z') || ('A' <= c && c <= 'Z') || c == '_' || c == '.',
        RunKind::Operator => !is_space_char(c),
    }
}

/// Reads a numeral; `None` when it holds two points.
fn numeral(text: &str, start: usize, end: usize) -> (r: Option<Fixed>)
    requires
        start <= end <= text@.len(),
        forall|i: int| start <= i < end ==> is_digit(#[trigger] text@[i]) || text@[i] == '.',
    ensures
        r == numeral_value(text@.subrange(start as int, end as int)),
{
    let ghost t = text@.subrange(start as int, end as int);
    // The integer part saturates at `cap`, past which the value is too
    // large for a `Fixed` in any case.
    let cap: i64 = 9_223_372_036_855;
    let mut ok = true;
    let mut ip: i64 = 0;
    let mut fr: i64 = 0;
    let mut place: i64 = 100_000;
    let mut dot = false;
    let mut i = start;
    while i < end
        invariant
            start <= i <= end <= text@.len(),
            t == text@.subrange(start as int, end as int),
            forall|j: int| start <= j < end ==> is_digit(#[trigger] text@[j]) || text@[j] == '.',
            ok == numeral_state(t.subrange(0, i - start)).0,
            ip as int == if numeral_state(t.subrange(0, i - start)).1 < cap {
                numeral_state(t.subrange(0, i - start)).1
            } else {
                cap as int
            },
            fr == numeral_state(t.subrange(0, i - start)).2,
            place == numeral_state(t.subrange(0, i - start)).3,
            dot == numeral_state(t.subrange(0, i - start)).4,
            cap == 9_223_372_036_855,
            0 <= ip <= cap,
            0 <= fr < 1_000_000,
            0 <= place <= 100_000,
            fr + 10 * place <= 1_000_000,
        decreases end - i,
    {
        let c = text.get_char(i);
        proof {
            let p = t.subrange(0, i - start + 1);
            assert(p.drop_last() =~= t.subrange(0, i - start));
            assert(p.last() == c);
            let (sok, sip, sfr, splace, sdot) = numeral_state(t.subrange(0, i - start));
            assert(sip >= 0) by {
                lemma_numeral_nonneg(t.subrange(0, i - start));
            }
        }
        if c == '.' {
            if dot {
                ok = false;
            } else {
                dot = true;
            }
        } else {
            assert(is_digit(c)) by {
                assert(c == text@[i as int]);
            }
            let d = (c as u32 - '0' as u32) as i64;
            assert(0 <= d <= 9);
            if !dot {
                ip = if ip > 922_337_203_685 {
                    cap
                } else {
                    let n = ip * 10 + d;
                    if n > cap {
                        cap
                    } else {
                        n
                    }
                };
            } else {
                assert(0 <= d * place <= 9 * place) by (nonlinear_arith)
                    requires
                        0 <= d <= 9,
                        0 <= place,
                ;
                fr = fr + d * place;
                place = place / 10;
            }
        }
        proof {
            let p = t.subrange(0, i - start + 1);
            let (sok, sip, sfr, splace, sdot) = numeral_state(t.subrange(0, i - start));
            assert(numeral_state(p) == {
                let d = c as int - '0' as int;
                if c == '.' {
                    if sdot {
                        (false, sip, sfr, splace, sdot)
                    } else {
                        (sok, sip, sfr, splace, true)
                    }
                } else if !sdot {
                    (sok, sip * 10 + d, sfr, splace, sdot)
                } else {
                    (sok, sip, sfr + d * splace, splace / 10, sdot)
                }
            });
        }
        i = i + 1;
    }
    proof {
        assert(t.subrange(0, end - start) =~= t);
    }
    if ok {
        let v = (ip as i128) * (SCALE as i128) + fr as i128;
        let raw = if v > i64::MAX as i128 {
            i64::MAX
        } else {
            v as i64
        };
        Some(Fixed { raw })
    } else {
        None
    }
}

proof fn lemma_numeral_nonneg(t: Seq<char>)
    requires
        forall|i: int| 0 <= i < t.len() ==> is_digit(#[trigger] t[i]) || t[i] == '.',
    ensures
        numeral_state(t).1 >= 0,
    decreases t.len(),
{
    if t.len() > 0 {
        let p = t.drop_last();
        assert forall|i: int| 0 <= i < p.len() implies is_digit(#[trigger] p[i]) || p[i] == '.' by {
            assert(p[i] == t[i]);
        }
        lemma_numeral_nonneg(p);
        assert(is_digit(t[t.len() - 1]) || t[t.len() - 1] == '.');
    }
}

/// A lexer over a line of formula text.
#[derive(Clone, Debug)]
pub struct Tokenizer<'a> {
    pub text: &'a str,
    /// Number of characters in `text`.
    pub len: usize,
    /// Character position of the next token.
    pub pos: usize,
}

impl<'a> Tokenizer<'a> {
    pub open spec fn wf(&self) -> bool {
        self.len == self.text@.len() && self.pos <= self.len
    }

    pub fn new(base: &'a str) -> (r: Tokenizer<'a>)
        ensures
            r.wf(),
            r.text@ == base@,
            r.pos == 0,
    {
        Tokenizer { text: base, len: base.unicode_len(), pos: 0 }
    }

    fn run_end_exec(&self, start: usize, k: RunKind) -> (e: usize)
        requires
            self.wf(),
            start <= self.len,
        ensures
            e == run_end(self.text@, start as int, k),
            start <= e <= self.len,
            forall|i: int| start <= i < e ==> in_run(k, #[trigger] self.text@[i]),
    {
        let mut i = start;
        while i < self.len && in_run_exec(k, self.text.get_char(i))
            invariant
                self.wf(),
                start <= i <= self.len,
                run_end(self.text@, start as int, k) == run_end(self.text@, i as int, k),
                forall|j: int| start <= j < i ==> in_run(k, #[trigger] self.text@[j]),
            decreases self.len - i,
        {
            i = i + 1;
        }
        i
    }

    /// The next token. Once the text is used up, or a line break is
    /// reached, every call yields `EoL`.
    pub fn next_token(&mut self) -> (r: Result<Token, ParseError>)
        requires
            old(self).wf(),
        ensures
            final(self).wf(),
            final(self).text@ == old(self).text@,
            (match r {
                Ok(t) => Ok(t@),
                Err(e) => Err(e),
            }, final(self).pos as int) == lex(old(self).text@, old(self).pos as int),
    {
        loop
            invariant
                self.wf(),
                self.text@ == old(self).text@,
                lex(self.text@, self.pos as int) == lex(old(self).text@, old(self).pos as int),
            decreases self.len - self.pos,
        {
            if self.pos >= self.len {
                return Ok(Token::EoL);
            }
            let c = self.text.get_char(self.pos);
            let start = self.pos;
            if '0' <= c && c <= '9' {
                let e = self.run_end_exec(start, RunKind::Number);
                self.pos = e;
                return match numeral(self.text, start, e) {
                    Some(v) => Ok(Token::Number(v)),
                    None => Err(ParseError::MalformedNumber),
                };
            } else if c == '(' {
                self.pos = start + 1;
                return Ok(Token::OpenParen);
            } else if c == ')' {
                self.pos = start + 1;
                return Ok(Token::CloseParen);
            } else if c == ',' {
                self.pos = start + 1;
                return Ok(Token::Comma);
            } else if c == '=' {
                self.pos = start + 1;
                return Ok(Token::Assign);
            } else if in_run_exec(RunKind::Ident, c) {
                let e = self.run_end_exec(start, RunKind::Ident);
                self.pos = e;
                return Ok(Token::Ident(self.text.substring_char(start, e).to_owned()));
            } else if c == '\n' || c == '\r' {
                return Ok(Token::EoL);
            } else if is_space_char(c) {
                self.pos = start + 1;
            } else {
                let e = self.run_end_exec(start, RunKind::Operator);
                self.pos = e;
                return Ok(Token::Operator(self.text.substring_char(start, e).to_owned()));
            }
        }
    }
}

/// Every token from `pos` up to and including the first `EoL`.
pub open spec fn lex_tokens(s: Seq<char>, pos: int) -> Result<Seq<SToken>, ParseError>
    decreases s.len() - pos,
{
    match lex(s, pos) {
        (Err(e), _) => Err(e),
        (Ok(SToken::EoL), _) => Ok(seq![SToken::EoL]),
        (Ok(t), p) => if pos < p <= s.len() {
            match lex_tokens(s, p) {
                Ok(rest) => Ok(seq![t] + rest),
                Err(e) => Err(e),
            }
        } else {
            Err(ParseError::UnexpectedEnd)
        },
    }
}

/// Lexes a whole line: every token up to and including the first `EoL`.
pub fn tokenize(line: &str) -> (r: Result<Vec<Token>, ParseError>)
    ensures
        match r {
            Ok(ts) => lex_tokens(line@, 0) == Ok::<Seq<SToken>, ParseError>(ts@.map_values(|t: Token| t@)),
            Err(e) => lex_tokens(line@, 0) == Err::<Seq<SToken>, ParseError>(e),
        },
{
    let mut t = Tokenizer::new(line);
    let mut out: Vec<Token> = Vec::new();
    assert(out@.map_values(|t: Token| t@) =~= seq![]);
    loop
        invariant
            t.wf(),
            t.text@ == line@,
            lex_tokens(line@, 0) == match lex_tokens(line@, t.pos as int) {
                Ok(rest) => Ok(out@.map_values(|t: Token| t@) + rest),
                Err(e) => Err(e),
            },
        decreases t.len - t.pos,
    {
        let before = t.pos;
        let ghost ov = out@.map_values(|t: Token| t@);
        proof {
            lemma_lex_advances(line@, before as int);
        }
        let tok = t.next_token();
        match tok {
            Err(e) => {
                return Err(e);
            },
            Ok(tok) => {
                let is_end = match tok {
                    Token::EoL => true,
                    _ => false,
                };
                let ghost tv = tok@;
                out.push(tok);
                assert(out@.map_values(|t: Token| t@) =~= ov.push(tv));
                if is_end {
                    assert(ov.push(tv) =~= ov + seq![SToken::EoL]);
                    return Ok(out);
                }
                assert(ov + (seq![tv] + lex_tokens(line@, t.pos as int)->Ok_0) =~= ov.push(tv)
                    + lex_tokens(line@, t.pos as int)->Ok_0);
            },
        }
    }
}

/// A token other than `EoL` always advances past at least one character.
proof fn lemma_lex_advances(s: Seq<char>, pos: int)
    requires
        0 <= pos <= s.len(),
    ensures
        lex(s, pos).0 is Ok && lex(s, pos).0->Ok_0 != SToken::EoL ==> lex(s, pos).1 > pos,
        lex(s, pos).1 <= s.len(),
    decreases s.len() - pos,
{
    if pos < s.len() {
        let c = s[pos];
        if is_digit(c) {
            lemma_run_end(s, pos, RunKind::Number);
        } else if is_ident_char(c) {
            lemma_run_end(s, pos, RunKind::Ident);
        } else if c == '\n' || c == '\r' {
        } else if is_space(c) {
            lemma_lex_advances(s, pos + 1);
        } else if c != '(' && c != ')' && c != ',' && c != '=' {
            lemma_run_end(s, pos, RunKind::Operator);
        }
    }
}

proof fn lemma_run_end(s: Seq<char>, i: int, k: RunKind)
    requires
        0 <= i <= s.len(),
    ensures
        i <= run_end(s, i, k) <= s.len(),
        i < s.len() && in_run(k, s[i]) ==> run_end(s, i, k) > i,
    decreases s.len() - i,
{
    if i < s.len() && in_run(k, s[i]) {
        lemma_run_end(s, i + 1, k);
    }
}

} // verus!
