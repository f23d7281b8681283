pub mod laws;
pub mod layout;
pub mod scan;

use vstd::prelude::*;
use vstd::string::StringSliceAdditionalSpecFns;
use crate::error::{Error, ErrorKind};
use crate::span::Span;
use crate::token::{SKind, SToken, Token, TokenKind};
use layout::{depth_after, last_after, stack_wf, suppresses, Layout};
use scan::{
    error_is, is_alpha, is_digit, lemma_run_end, lex_error, number_token, run_end, string_body,
    underscore_token, ident_token, LexError, LexFault, HASH, NEWLINE, QUOTE, SPACE, TAB,
    UNDERSCORE,
};

verus! {

// ---------------------------------------------------------------------------
// Trivia and indentation

pub open spec fn is_blank(c: u8) -> bool {
    c == SPACE || c == TAB
}

pub open spec fn not_newline(c: u8) -> bool {
    c != NEWLINE
}

/// The first position at or after `i` that is not a space or a tab.
pub open spec fn skip_blanks(b: Seq<u8>, i: int) -> int {
    run_end(b, i, |c: u8| is_blank(c))
}

/// The position of the `\n` that ends the line holding `i`, or the end.
pub open spec fn line_end(b: Seq<u8>, i: int) -> int {
    run_end(b, i, |c: u8| not_newline(c))
}

/// Spaces, tabs and one `#` comment are skipped; a `\n` is not.
pub open spec fn skip_trivia(b: Seq<u8>, i: int) -> int {
    let j = skip_blanks(b, i);
    if 0 <= j < b.len() && b[j] == HASH {
        line_end(b, j)
    } else {
        j
    }
}

pub proof fn lemma_skip_trivia(b: Seq<u8>, i: int)
    requires
        0 <= i <= b.len(),
    ensures
        i <= skip_trivia(b, i) <= b.len(),
        skip_trivia(b, i) < b.len() ==> b[skip_trivia(b, i)] != SPACE && b[skip_trivia(b, i)]
            != TAB && b[skip_trivia(b, i)] != HASH,
{
    lemma_run_end(b, i, |c: u8| is_blank(c));
    let j = skip_blanks(b, i);
    if j < b.len() && b[j] == HASH {
        lemma_run_end(b, j, |c: u8| not_newline(c));
    }
}

/// The column and position of the first significant byte of the next line
/// that holds more than blanks and a comment, read from the start of a
/// line at `i`; `None` at the end of the input.
pub open spec fn read_indent(b: Seq<u8>, i: int) -> Option<(nat, int)>
    decreases b.len() - i,
{
    if i < 0 || i > b.len() {
        None
    } else {
        let j = skip_blanks(b, i);
        proof {
            lemma_run_end(b, i, |c: u8| is_blank(c));
        }
        if j >= b.len() {
            None
        } else if b[j] == NEWLINE {
            read_indent(b, j + 1)
        } else if b[j] == HASH {
            proof {
                lemma_run_end(b, j, |c: u8| not_newline(c));
                lemma_run_end(b, j + 1, |c: u8| not_newline(c));
            }
            read_indent(b, line_end(b, j))
        } else {
            Some(((j - i) as nat, j))
        }
    }
}

pub proof fn lemma_read_indent(b: Seq<u8>, i: int)
    requires
        0 <= i <= b.len(),
    ensures
        read_indent(b, i) matches Some((c, p)) ==> i <= p < b.len() && c <= p,
    decreases b.len() - i,
{
    lemma_run_end(b, i, |c: u8| is_blank(c));
    let j = skip_blanks(b, i);
    if j < b.len() {
        if b[j] == NEWLINE {
            lemma_read_indent(b, j + 1);
        } else if b[j] == HASH {
            lemma_run_end(b, j, |c: u8| not_newline(c));
            lemma_run_end(b, j + 1, |c: u8| not_newline(c));
            lemma_read_indent(b, line_end(b, j));
        }
    }
}

fn skip_blanks_exec(b: &[u8], i: usize) -> (j: usize)
    requires
        i <= b@.len(),
    ensures
        j == skip_blanks(b@, i as int),
{
    proof { lemma_run_end(b@, i as int, |c: u8| is_blank(c)); }
    let mut j = i;
    while j < b.len() && (b[j] == SPACE || b[j] == TAB)
        invariant
            i <= j <= b@.len(),
            run_end(b@, j as int, |c: u8| is_blank(c)) == skip_blanks(b@, i as int),
        decreases b@.len() - j,
    {
        j = j + 1;
    }
    j
}

fn line_end_exec(b: &[u8], i: usize) -> (j: usize)
    requires
        i <= b@.len(),
    ensures
        j == line_end(b@, i as int),
{
    proof { lemma_run_end(b@, i as int, |c: u8| not_newline(c)); }
    let mut j = i;
    while j < b.len() && b[j] != NEWLINE
        invariant
            i <= j <= b@.len(),
            run_end(b@, j as int, |c: u8| not_newline(c)) == line_end(b@, i as int),
        decreases b@.len() - j,
    {
        j = j + 1;
    }
    j
}

/// Skips spaces, tabs and a `#` comment; a `\n` is left for the caller.
fn skip_trivia_exec(b: &[u8], i: usize) -> (j: usize)
    requires
        i <= b@.len(),
    ensures
        j == skip_trivia(b@, i as int),
{
    let j = skip_blanks_exec(b, i);
    proof { lemma_run_end(b@, i as int, |c: u8| is_blank(c)); }
    if j < b.len() && b[j] == HASH {
        line_end_exec(b, j)
    } else {
        j
    }
}

/// Reads the indentation of the next significant line, skipping blank and
/// comment-only lines; `None` at the end of the input.
fn read_indent_or_eof(b: &[u8], i: usize) -> (r: Option<(u32, usize)>)
    requires
        i <= b@.len() < u32::MAX,
    ensures
        match read_indent(b@, i as int) {
            None => r is None,
            Some((c, p)) => r matches Some((c2, p2)) && c2 == c && p2 == p,
        },
{
    let mut k = i;
    loop
        invariant
            i <= k <= b@.len() < u32::MAX,
            read_indent(b@, k as int) == read_indent(b@, i as int),
        decreases b@.len() - k,
    {
        let j = skip_blanks_exec(b, k);
        proof { lemma_run_end(b@, k as int, |c: u8| is_blank(c)); }
        if j >= b.len() {
            return None;
        }
        if b[j] == NEWLINE {
            k = j + 1;
        } else if b[j] == HASH {
            proof {
                lemma_run_end(b@, j as int, |c: u8| not_newline(c));
                lemma_run_end(b@, j + 1, |c: u8| not_newline(c));
            }
            k = line_end_exec(b, j);
        } else {
            return Some(((j - k) as u32, j));
        }
    }
}

/// The bytes `b[s..p]` are all `c`.
pub open spec fn all_same(b: Seq<u8>, s: int, p: int, c: u8) -> bool {
    forall|k: int| s <= k < p ==> b[k] == c
}

/// The kind of indentation (the byte it repeats) after a line indented by
/// `b[s..p]`, when the lines before were indented with `style`: `None` when
/// the line mixes tabs and spaces, or uses the kind the file did not start
/// with.
pub open spec fn indent_style(b: Seq<u8>, s: int, p: int, style: Option<u8>) -> Option<Option<u8>> {
    if s >= p {
        Some(style)
    } else if all_same(b, s, p, b[s]) && (style is None || style == Some(b[s])) {
        Some(Some(b[s]))
    } else {
        None
    }
}

fn indent_style_exec(b: &[u8], s: usize, p: usize, style: Option<u8>) -> (r: Option<Option<u8>>)
    requires
        s <= p <= b@.len(),
    ensures
        r == indent_style(b@, s as int, p as int, style),
{
    if s >= p {
        return Some(style);
    }
    let c = b[s];
    let mut k = s;
    while k < p
        invariant
            s <= k <= p <= b@.len(),
            c == b@[s as int],
            forall|m: int| s <= m < k ==> b@[m] == c,
        decreases p - k,
    {
        if b[k] != c {
            assert(!all_same(b@, s as int, p as int, c));
            return None;
        }
        k = k + 1;
    }
    match style {
        Some(d) => if d == c {
            Some(Some(c))
        } else {
            None
        },
        None => Some(Some(c)),
    }
}

// ---------------------------------------------------------------------------
// One token

/// The punctuation token at `i`, if the byte there starts one.
pub open spec fn punct(b: Seq<u8>, i: int) -> Option<(TokenKind, int)> {
    let c = b[i];
    let n: int = if i + 1 < b.len() {
        b[i + 1] as int
    } else {
        -1
    };
    if c == 40 {
        Some((TokenKind::LParen, i + 1))
    } else if c == 41 {
        Some((TokenKind::RParen, i + 1))
    } else if c == 91 {
        Some((TokenKind::LBracket, i + 1))
    } else if c == 93 {
        Some((TokenKind::RBracket, i + 1))
    } else if c == 44 {
        Some((TokenKind::Comma, i + 1))
    } else if c == 43 {
        if n == 43 {
            Some((TokenKind::PlusPlus, i + 2))
        } else {
            Some((TokenKind::Plus, i + 1))
        }
    } else if c == 45 {
        if n == 62 {
            Some((TokenKind::Arrow, i + 2))
        } else {
            Some((TokenKind::Minus, i + 1))
        }
    } else if c == 42 {
        Some((TokenKind::Star, i + 1))
    } else if c == 47 {
        if n == 61 {
            Some((TokenKind::SlashEq, i + 2))
        } else {
            Some((TokenKind::Slash, i + 1))
        }
    } else if c == 94 {
        Some((TokenKind::Caret, i + 1))
    } else if c == 61 {
        if n == 61 {
            Some((TokenKind::EqEq, i + 2))
        } else {
            Some((TokenKind::Equals, i + 1))
        }
    } else if c == 60 {
        if n == 61 {
            Some((TokenKind::LtEq, i + 2))
        } else {
            Some((TokenKind::Lt, i + 1))
        }
    } else if c == 62 {
        if n == 61 {
            Some((TokenKind::GtEq, i + 2))
        } else {
            Some((TokenKind::Gt, i + 1))
        }
    } else if c == 33 {
        Some((TokenKind::Bang, i + 1))
    } else if c == 63 {
        Some((TokenKind::Question, i + 1))
    } else if c == 58 {
        Some((TokenKind::Colon, i + 1))
    } else if c == 46 {
        if n == 46 {
            Some((TokenKind::DotDot, i + 2))
        } else {
            Some((TokenKind::Dot, i + 1))
        }
    } else {
        None
    }
}

/// The token that starts at the significant byte at `i`, and where it ends.
pub open spec fn token_at(b: Seq<u8>, i: int) -> Result<(SKind, int), LexError> {
    let c = b[i];
    if c == QUOTE {
        match string_body(b, i, i + 1, seq![]) {
            Ok((t, e)) => Ok((SKind::StringLit(t), e)),
            Err(x) => Err(x),
        }
    } else if is_digit(c) {
        number_token(b, i)
    } else if c == UNDERSCORE {
        underscore_token(b, i)
    } else if is_alpha(c) {
        ident_token(b, i)
    } else {
        match punct(b, i) {
            Some((k, e)) => Ok((SKind::Plain(k), e)),
            None => Err(lex_error(i, i + 1, LexFault::UnexpectedChar(c as char))),
        }
    }
}

pub proof fn lemma_string_end(b: Seq<u8>, start: int, j: int, acc: Seq<char>)
    requires
        0 <= j <= b.len(),
    ensures
        string_body(b, start, j, acc) matches Ok((t, e)) ==> j < e <= b.len(),
    decreases b.len() - j,
{
    if j < b.len() && b[j] != QUOTE && b[j] != NEWLINE {
        if b[j] == scan::BACKSLASH {
            if j + 1 < b.len() {
                if let Some(c) = scan::unescape(b[j + 1]) {
                    lemma_string_end(b, start, j + 2, acc.push(c));
                }
            }
        } else {
            lemma_string_end(b, start, j + 1, acc.push(b[j] as char));
        }
    }
}

pub proof fn lemma_token_end(b: Seq<u8>, i: int)
    requires
        0 <= i < b.len(),
    ensures
        token_at(b, i) matches Ok((k, e)) ==> i < e <= b.len(),
{
    let c = b[i];
    if c == QUOTE {
        lemma_string_end(b, i, i + 1, seq![]);
    } else if is_digit(c) {
        lemma_run_end(b, i, |c: u8| is_digit(c));
        let j = scan::digits_end(b, i);
        if j + 1 < b.len() {
            lemma_run_end(b, j + 1, |c: u8| is_digit(c));
        }
    } else if is_alpha(c) {
        lemma_run_end(b, i + 1, |c: u8| scan::is_alnum(c));
    }
}

fn punct_exec(b: &[u8], i: usize) -> (r: Option<(TokenKind, usize)>)
    requires
        i < b@.len(),
    ensures
        match punct(b@, i as int) {
            None => r is None,
            Some((k, e)) => r matches Some((k2, e2)) && k2 == k && e2 == e,
        },
{
    let c = b[i];
    let n: i32 = if i + 1 < b.len() {
        b[i + 1] as i32
    } else {
        -1
    };
    if c == 40 {
        Some((TokenKind::LParen, i + 1))
    } else if c == 41 {
        Some((TokenKind::RParen, i + 1))
    } else if c == 91 {
        Some((TokenKind::LBracket, i + 1))
    } else if c == 93 {
        Some((TokenKind::RBracket, i + 1))
    } else if c == 44 {
        Some((TokenKind::Comma, i + 1))
    } else if c == 43 {
        if n == 43 {
            Some((TokenKind::PlusPlus, i + 2))
        } else {
            Some((TokenKind::Plus, i + 1))
        }
    } else if c == 45 {
        if n == 62 {
            Some((TokenKind::Arrow, i + 2))
        } else {
            Some((TokenKind::Minus, i + 1))
        }
    } else if c == 42 {
        Some((TokenKind::Star, i + 1))
    } else if c == 47 {
        if n == 61 {
            Some((TokenKind::SlashEq, i + 2))
        } else {
            Some((TokenKind::Slash, i + 1))
        }
    } else if c == 94 {
        Some((TokenKind::Caret, i + 1))
    } else if c == 61 {
        if n == 61 {
            Some((TokenKind::EqEq, i + 2))
        } else {
            Some((TokenKind::Equals, i + 1))
        }
    } else if c == 60 {
        if n == 61 {
            Some((TokenKind::LtEq, i + 2))
        } else {
            Some((TokenKind::Lt, i + 1))
        }
    } else if c == 62 {
        if n == 61 {
            Some((TokenKind::GtEq, i + 2))
        } else {
            Some((TokenKind::Gt, i + 1))
        }
    } else if c == 33 {
        Some((TokenKind::Bang, i + 1))
    } else if c == 63 {
        Some((TokenKind::Question, i + 1))
    } else if c == 58 {
        Some((TokenKind::Colon, i + 1))
    } else if c == 46 {
        if n == 46 {
            Some((TokenKind::DotDot, i + 2))
        } else {
            Some((TokenKind::Dot, i + 1))
        }
    } else {
        None
    }
}

/// Scans the token that starts at the significant byte at `i`.
fn scan_token(b: &[u8], i: usize) -> (r: Result<(TokenKind, usize), Error>)
    requires
        i < b@.len() < u32::MAX,
    ensures
        match token_at(b@, i as int) {
            Ok((k, end)) => r matches Ok((t, e)) && t@ == k && e == end,
            Err(le) => r matches Err(e) && error_is(e, le),
        },
{
    let c = b[i];
    if c == QUOTE {
        scan::scan_string(b, i)
    } else if 48 <= c && c <= 57 {
        scan::scan_number(b, i)
    } else if c == UNDERSCORE {
        scan::scan_underscore(b, i)
    } else if (65 <= c && c <= 90) || (97 <= c && c <= 122) {
        scan::scan_ident_or_keyword(b, i)
    } else {
        match punct_exec(b, i) {
            Some((k, e)) => Ok((k, e)),
            None => Err(
                Error {
                    span: Span::new(i as u32, (i + 1) as u32),
                    kind: ErrorKind::UnexpectedChar(c as char),
                },
            ),
        }
    }
}

// ---------------------------------------------------------------------------
// The token stream

pub open spec fn stok(k: SKind, s: int, e: int) -> SToken {
    SToken { span: Span { start: s as u32, end: e as u32 }, kind: k }
}

pub open spec fn plain_tok(k: TokenKind, s: int, e: int) -> SToken {
    stok(SKind::Plain(k), s, e)
}

/// `n` `Dedent` tokens at position `p`.
pub open spec fn dedents(n: nat, p: int) -> Seq<SToken> {
    Seq::new(n, |_k: int| plain_tok(TokenKind::Dedent, p, p))
}

/// The indent stack after closing every block deeper than `col`.
pub open spec fn pop_above(s: Seq<u32>, col: nat) -> Seq<u32>
    decreases s.len(),
{
    if s.len() > 1 && col < s.last() {
        pop_above(s.drop_last(), col)
    } else {
        s
    }
}

/// The tokens at the end of the input: a `Dedent` for each open block,
/// then `Eof`.
pub open spec fn finish(end: int, stack: Seq<u32>, out: Seq<SToken>) -> Seq<SToken> {
    out + dedents((stack.len() - 1) as nat, end) + seq![plain_tok(TokenKind::Eof, end, end)]
}

/// The tokens after a `\n` at `i` that layout does not suppress: a
/// `Newline`, unless nothing came yet or a `Newline` came last.
pub open spec fn newline_out(out: Seq<SToken>, i: int) -> Seq<SToken> {
    if out.len() > 0 && out.last().kind != SKind::Plain(TokenKind::Newline) {
        out.push(plain_tok(TokenKind::Newline, i, i + 1))
    } else {
        out
    }
}

/// The lexer from position `pos`, with the bracket depth, the last
/// significant token, the indent stack and the tokens so far.
pub open spec fn lex_run(
    b: Seq<u8>,
    pos: int,
    depth: nat,
    last: Option<SKind>,
    style: Option<u8>,
    stack: Seq<u32>,
    out: Seq<SToken>,
) -> Result<Seq<SToken>, LexError>
    decreases b.len() - pos,
{
    if pos < 0 || pos > b.len() {
        Ok(out)
    } else {
        let i = skip_trivia(b, pos);
        proof {
            lemma_skip_trivia(b, pos);
        }
        if i >= b.len() {
            Ok(finish(b.len() as int, stack, out))
        } else if b[i] == NEWLINE {
            let active = !suppresses(depth, last);
            let out1 = if active {
                newline_out(out, i)
            } else {
                out
            };
            proof {
                lemma_read_indent(b, i + 1);
            }
            match read_indent(b, i + 1) {
                None => Ok(finish(b.len() as int, stack, out1)),
                Some((col, p)) => match indent_style(b, p - col, p, style) {
                    None => Err(lex_error(p - col, p, LexFault::MixedTabsAndSpaces)),
                    Some(style2) => if !active {
                        lex_run(b, p, depth, last, style2, stack, out1)
                    } else {
                        let st2 = pop_above(stack, col);
                        let out2 = out1 + dedents((stack.len() - st2.len()) as nat, p);
                        if col > st2.last() {
                            lex_run(
                                b,
                                p,
                                depth,
                                last,
                                style2,
                                st2.push(col as u32),
                                out2.push(plain_tok(TokenKind::Indent, p, p)),
                            )
                        } else if col != st2.last() {
                            Err(lex_error(p, p, LexFault::InconsistentDedent))
                        } else {
                            lex_run(b, p, depth, last, style2, st2, out2)
                        }
                    },
                },
            }
        } else {
            proof {
                lemma_token_end(b, i);
            }
            match token_at(b, i) {
                Err(e) => Err(e),
                Ok((k, e)) => lex_run(
                    b,
                    e,
                    depth_after(depth, k),
                    last_after(last, k),
                    style,
                    stack,
                    out.push(stok(k, i, e)),
                ),
            }
        }
    }
}

/// What the lexer makes of the bytes `b`.
pub open spec fn lex_spec(b: Seq<u8>) -> Result<Seq<SToken>, LexError> {
    lex_run(b, 0, 0, None, None, seq![0u32], seq![])
}

pub open spec fn toks_view(v: Seq<Token>) -> Seq<SToken> {
    v.map_values(|t: Token| t@)
}

pub proof fn lemma_pop_above(s: Seq<u32>, col: nat)
    requires
        stack_wf(s),
    ensures
        stack_wf(pop_above(s, col)),
        pop_above(s, col).len() <= s.len(),
        pop_above(s, col) == s.take(pop_above(s, col).len() as int),
        col >= pop_above(s, col).last(),
    decreases s.len(),
{
    if s.len() > 1 && col < s.last() {
        let d = s.drop_last();
        assert(stack_wf(d));
        lemma_pop_above(d, col);
        let p = pop_above(d, col);
        assert(p =~= s.take(p.len() as int));
    } else {
        assert(s =~= s.take(s.len() as int));
    }
}

/// Lexes the bytes of a source file into tokens with layout tokens.
pub fn lex_bytes(b: &[u8]) -> (r: Result<Vec<Token>, Error>)
    requires
        b@.len() < u32::MAX,
    ensures
        match lex_spec(b@) {
            Ok(ts) => r matches Ok(v) && toks_view(v@) == ts,
            Err(le) => r matches Err(e) && error_is(e, le),
        },
{
    let mut pos: usize = 0;
    let mut out: Vec<Token> = Vec::new();
    let mut layout = Layout::new();
    let mut style: Option<u8> = None;
    proof {
        assert(toks_view(out@) =~= Seq::<SToken>::empty());
    }
    loop
        invariant_except_break
            pos <= b@.len() < u32::MAX,
            layout.paren_depth <= pos,
            stack_wf(layout.indent_stack@),
            lex_run(
                b@,
                pos as int,
                layout.paren_depth as nat,
                layout.last_view(),
                style,
                layout.indent_stack@,
                toks_view(out@),
            ) == lex_spec(b@),
        ensures
            b@.len() < u32::MAX,
            stack_wf(layout.indent_stack@),
            lex_spec(b@) == Ok::<Seq<SToken>, LexError>(
                finish(b@.len() as int, layout.indent_stack@, toks_view(out@)),
            ),
        decreases b@.len() - pos,
    {
        let i = skip_trivia_exec(b, pos);
        proof {
            lemma_skip_trivia(b@, pos as int);
        }
        if i >= b.len() {
            break;
        }
        if b[i] == NEWLINE {
            let suppress = layout.suppresses_newline();
            let active = !suppress;
            if active {
                let last_was_newline = out.len() > 0 && match &out[out.len() - 1].kind {
                    TokenKind::Newline => true,
                    _ => false,
                };
                let ghost before = toks_view(out@);
                if !last_was_newline && out.len() > 0 {
                    let kind = TokenKind::Newline;
                    out.push(Token { span: Span::new(i as u32, (i + 1) as u32), kind });
                    proof {
                        assert(toks_view(out@) =~= newline_out(
                            before,
                            i as int,
                        ));
                    }
                } else {
                    proof {
                        if out@.len() > 0 {
                            assert(toks_view(out@).last() == out@.last()@);
                        }
                    }
                }
            }
            proof {
                lemma_read_indent(b@, i + 1);
            }
            match read_indent_or_eof(b, i + 1) {
                None => {
                    break;
                },
                Some((col, p)) => {
                    let s = p - col as usize;
                    style = match indent_style_exec(b, s, p, style) {
                        Some(st) => st,
                        None => {
                            return Err(
                                Error {
                                    span: Span::new(s as u32, p as u32),
                                    kind: ErrorKind::MixedTabsAndSpaces,
                                },
                            );
                        },
                    };
                    if active {
                        let ghost stack0 = layout.indent_stack@;
                        let ghost out1 = toks_view(out@);
                        let ghost depth0 = layout.paren_depth;
                        let ghost last0 = layout.last_view();
                        proof {
                            lemma_pop_above(stack0, col as nat);
                            assert(out1 =~= out1 + dedents(0, p as int));
                        }
                        while col < layout.top()
                            invariant
                                stack_wf(layout.indent_stack@),
                                stack_wf(stack0),
                                layout.indent_stack@.len() <= stack0.len(),
                                pop_above(layout.indent_stack@, col as nat) == pop_above(
                                    stack0,
                                    col as nat,
                                ),
                                toks_view(out@) == out1 + dedents(
                                    (stack0.len() - layout.indent_stack@.len()) as nat,
                                    p as int,
                                ),
                                layout.paren_depth == depth0,
                                p < b@.len() < u32::MAX,
                                layout.last_view() == last0,
                            decreases layout.indent_stack@.len(),
                        {
                            let ghost before = layout.indent_stack@;
                            layout.indent_stack.pop();
                            proof {
                                assert(before.len() > 1);
                                assert(stack_wf(layout.indent_stack@));
                            }
                            let ghost ov = toks_view(out@);
                            out.push(
                                Token {
                                    span: Span::new(p as u32, p as u32),
                                    kind: TokenKind::Dedent,
                                },
                            );
                            proof {
                                let n = (stack0.len() - before.len()) as nat;
                                assert(toks_view(out@) =~= ov.push(
                                    plain_tok(TokenKind::Dedent, p as int, p as int),
                                ));
                                assert(dedents(n + 1, p as int) =~= dedents(n, p as int).push(
                                    plain_tok(TokenKind::Dedent, p as int, p as int),
                                ));
                                assert(toks_view(out@) =~= out1 + dedents(
                                    (stack0.len() - layout.indent_stack@.len()) as nat,
                                    p as int,
                                ));
                            }
                        }
                        proof {
                            assert(pop_above(layout.indent_stack@, col as nat)
                                == layout.indent_stack@);
                        }
                        let top = layout.top();
                        if col > top {
                            let ghost before = layout.indent_stack@;
                            layout.indent_stack.push(col);
                            proof {
                                assert forall|a: int, c: int|
                                    0 <= a < c < layout.indent_stack@.len() implies
                                    layout.indent_stack@[a] < layout.indent_stack@[c] by {
                                    if c == before.len() {
                                        assert(before[a] <= before.last());
                                    }
                                }
                            }
                            out.push(
                                Token { span: Span::new(p as u32, p as u32), kind: TokenKind::Indent },
                            );
                            proof {
                                assert(toks_view(out@) =~= (out1 + dedents(
                                    (stack0.len() - before.len()) as nat,
                                    p as int,
                                )).push(plain_tok(TokenKind::Indent, p as int, p as int)));
                            }
                        } else if col != top {
                            return Err(
                                Error {
                                    span: Span::new(p as u32, p as u32),
                                    kind: ErrorKind::InconsistentDedent,
                                },
                            );
                        }
                    }
                    pos = p;
                },
            }
        } else {
            proof {
                lemma_token_end(b@, i as int);
            }
            let (kind, e) = match scan_token(b, i) {
                Ok(x) => x,
                Err(err) => {
                    return Err(err);
                },
            };
            let ghost out0 = toks_view(out@);
            out.push(Token { span: Span::new(i as u32, e as u32), kind: kind.copy() });
            proof {
                assert(toks_view(out@) =~= out0.push(stok(kind@, i as int, e as int)));
            }
            layout.note_emitted(&kind);
            pos = e;
        }
    }
    // Close the blocks still open at the end of the input.
    let end = b.len();
    let ghost stack0 = layout.indent_stack@;
    let ghost out1 = toks_view(out@);
    proof {
        assert(out1 =~= out1 + dedents(0, end as int));
    }
    while layout.top() > 0
        invariant
            stack_wf(layout.indent_stack@),
            layout.indent_stack@.len() <= stack0.len(),
            end == b@.len() < u32::MAX,
            toks_view(out@) == out1 + dedents(
                (stack0.len() - layout.indent_stack@.len()) as nat,
                end as int,
            ),
        decreases layout.indent_stack@.len(),
    {
        let ghost before = layout.indent_stack@;
        layout.indent_stack.pop();
        let ghost ov = toks_view(out@);
        out.push(Token { span: Span::new(end as u32, end as u32), kind: TokenKind::Dedent });
        proof {
            let n = (stack0.len() - before.len()) as nat;
            assert(toks_view(out@) =~= ov.push(
                plain_tok(TokenKind::Dedent, end as int, end as int),
            ));
            assert(dedents(n + 1, end as int) =~= dedents(n, end as int).push(
                plain_tok(TokenKind::Dedent, end as int, end as int),
            ));
            assert(toks_view(out@) =~= out1 + dedents(
                (stack0.len() - layout.indent_stack@.len()) as nat,
                end as int,
            ));
        }
    }
    proof {
        assert(layout.indent_stack@.len() == 1);
    }
    out.push(Token { span: Span::new(end as u32, end as u32), kind: TokenKind::Eof });
    proof {
        assert(toks_view(out@) =~= finish(end as int, stack0, out1));
    }
    Ok(out)
}

/// Lexes a source text into tokens, with `Newline`, `Indent` and `Dedent`
/// for its layout, ending with `Eof`.
pub fn lex(src: &str) -> (r: Result<Vec<Token>, Error>)
    requires
        src.spec_bytes().len() < u32::MAX,
    ensures
        match lex_spec(src.spec_bytes()) {
            Ok(ts) => r matches Ok(v) && toks_view(v@) == ts,
            Err(le) => r matches Err(e) && error_is(e, le),
        },
        r matches Ok(v) ==> crate::lex::laws::layout_ok(toks_view(v@)),
        r matches Ok(v) ==> crate::lex::laws::spans_ok(toks_view(v@), src.spec_bytes().len() as int),
        r matches Ok(v) ==> crate::lex::laws::no_newline_after_continuation(toks_view(v@)),
        r matches Ok(v) ==> crate::lex::laws::no_layout_in_brackets(toks_view(v@)),
{
    proof {
        crate::lex::laws::lex_continuation_lines(src.spec_bytes());
        crate::lex::laws::lex_layout_outside_brackets(src.spec_bytes());
        crate::lex::laws::lex_output_layout(src.spec_bytes());
        crate::lex::laws::lex_spans_ordered(src.spec_bytes());
    }
    lex_bytes(src.as_bytes())
}

} // verus!
