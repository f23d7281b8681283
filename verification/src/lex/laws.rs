//! What every token stream from the lexer looks like.
use vstd::prelude::*;
use crate::lex::layout::{continues, depth_after, last_after, stack_wf};
use crate::lex::scan::{is_alpha, is_digit, ident_token, keyword, LexError, QUOTE, UNDERSCORE};
use crate::lex::{
    dedents, finish, lemma_pop_above, lemma_read_indent, lemma_skip_trivia, lemma_token_end,
    indent_style, lex_run, lex_spec, newline_out, plain_tok, pop_above, punct, read_indent,
    skip_trivia, stok, token_at,
};
use crate::lex::scan::NEWLINE;
use crate::token::{SKind, SToken, TokenKind};

verus! {

pub open spec fn is_plain_kind(t: SToken, k: TokenKind) -> bool {
    t.kind == SKind::Plain(k)
}

/// What a token adds to the nesting of indented blocks.
pub open spec fn delta(t: SToken) -> int {
    if is_plain_kind(t, TokenKind::Indent) {
        1
    } else if is_plain_kind(t, TokenKind::Dedent) {
        -1
    } else {
        0
    }
}

/// The number of blocks open after the tokens `s`.
pub open spec fn nesting(s: Seq<SToken>) -> int
    decreases s.len(),
{
    if s.len() == 0 {
        0
    } else {
        nesting(s.drop_last()) + delta(s.last())
    }
}

/// No prefix of `s` closes more blocks than it opened.
pub open spec fn never_negative(s: Seq<SToken>) -> bool {
    forall|k: int| 0 <= k <= s.len() ==> nesting(#[trigger] s.take(k)) >= 0
}

/// No two `Newline`s in a row, and none first.
pub open spec fn newlines_single(s: Seq<SToken>) -> bool {
    &&& (s.len() > 0 ==> !is_plain_kind(s[0], TokenKind::Newline))
    &&& forall|i: int| 0 <= i < s.len() - 1 ==> !(is_plain_kind(#[trigger] s[i], TokenKind::Newline)
        && is_plain_kind(s[i + 1], TokenKind::Newline))
}

pub open spec fn no_eof(s: Seq<SToken>) -> bool {
    forall|i: int| 0 <= i < s.len() ==> !is_plain_kind(#[trigger] s[i], TokenKind::Eof)
}

/// The shape of every token stream the lexer produces: it ends with its
/// only `Eof`, has no leading and no doubled `Newline`, and its `Indent`s
/// and `Dedent`s nest and balance.
pub open spec fn layout_ok(ts: Seq<SToken>) -> bool {
    &&& ts.len() > 0
    &&& is_plain_kind(ts.last(), TokenKind::Eof)
    &&& no_eof(ts.drop_last())
    &&& newlines_single(ts)
    &&& never_negative(ts)
    &&& nesting(ts) == 0
}

/// What holds of the tokens so far while the lexer runs with indent stack
/// `stack`.
pub open spec fn partial_ok(out: Seq<SToken>, stack: Seq<u32>) -> bool {
    &&& stack_wf(stack)
    &&& no_eof(out)
    &&& newlines_single(out)
    &&& never_negative(out)
    &&& nesting(out) == stack.len() - 1
}

proof fn lemma_push(s: Seq<SToken>, t: SToken)
    requires
        no_eof(s),
        newlines_single(s),
        never_negative(s),
        !is_plain_kind(t, TokenKind::Eof),
        nesting(s) + delta(t) >= 0,
        is_plain_kind(t, TokenKind::Newline) ==> s.len() > 0 && !is_plain_kind(
            s.last(),
            TokenKind::Newline,
        ),
    ensures
        no_eof(s.push(t)),
        newlines_single(s.push(t)),
        never_negative(s.push(t)),
        nesting(s.push(t)) == nesting(s) + delta(t),
{
    let u = s.push(t);
    assert(u.drop_last() =~= s);
    assert forall|k: int| 0 <= k <= u.len() implies nesting(#[trigger] u.take(k)) >= 0 by {
        if k < u.len() {
            assert(u.take(k) =~= s.take(k));
        } else {
            assert(u.take(k) =~= u);
        }
    }
    assert forall|i: int| 0 <= i < u.len() - 1 implies !(is_plain_kind(#[trigger] u[i], TokenKind::Newline)
        && is_plain_kind(u[i + 1], TokenKind::Newline)) by {
        if i < s.len() - 1 {
            assert(u[i] == s[i] && u[i + 1] == s[i + 1]);
        } else {
            assert(u[i] == s.last());
        }
    }
}

proof fn lemma_dedents(s: Seq<SToken>, n: nat, p: int)
    requires
        no_eof(s),
        newlines_single(s),
        never_negative(s),
        nesting(s) >= n,
    ensures
        no_eof(s + dedents(n, p)),
        newlines_single(s + dedents(n, p)),
        never_negative(s + dedents(n, p)),
        nesting(s + dedents(n, p)) == nesting(s) - n,
    decreases n,
{
    if n == 0 {
        assert(s + dedents(0, p) =~= s);
    } else {
        lemma_dedents(s, (n - 1) as nat, p);
        let d = plain_tok(TokenKind::Dedent, p, p);
        assert(s + dedents(n, p) =~= (s + dedents((n - 1) as nat, p)).push(d));
        lemma_push(s + dedents((n - 1) as nat, p), d);
    }
}

proof fn lemma_finish(end: int, stack: Seq<u32>, out: Seq<SToken>)
    requires
        partial_ok(out, stack),
    ensures
        layout_ok(finish(end, stack, out)),
{
    let n = (stack.len() - 1) as nat;
    lemma_dedents(out, n, end);
    let s = out + dedents(n, end);
    let e = plain_tok(TokenKind::Eof, end, end);
    assert(finish(end, stack, out) =~= s.push(e));
    let u = s.push(e);
    assert(u.drop_last() =~= s);
    assert forall|k: int| 0 <= k <= u.len() implies nesting(#[trigger] u.take(k)) >= 0 by {
        if k < u.len() {
            assert(u.take(k) =~= s.take(k));
        } else {
            assert(u.take(k) =~= u);
        }
    }
    assert forall|i: int| 0 <= i < u.len() - 1 implies !(is_plain_kind(#[trigger] u[i], TokenKind::Newline)
        && is_plain_kind(u[i + 1], TokenKind::Newline)) by {
        if i < s.len() - 1 {
            assert(u[i] == s[i] && u[i + 1] == s[i + 1]);
        }
    }
}

/// The tokens scanned at a significant byte are never layout tokens nor `Eof`.
proof fn lemma_token_kind(b: Seq<u8>, i: int)
    requires
        0 <= i < b.len(),
    ensures
        token_at(b, i) matches Ok((k, e)) ==> !(k == SKind::Plain(TokenKind::Newline) || k
            == SKind::Plain(TokenKind::Indent) || k == SKind::Plain(TokenKind::Dedent) || k
            == SKind::Plain(TokenKind::Eof)),
{
}

/// The invariant of the lexer's state is kept to the end of the input.
proof fn lemma_run(
    b: Seq<u8>,
    pos: int,
    depth: nat,
    last: Option<SKind>,
    style: Option<u8>,
    stack: Seq<u32>,
    out: Seq<SToken>,
)
    requires
        0 <= pos <= b.len(),
        b.len() < u32::MAX,
        partial_ok(out, stack),
    ensures
        lex_run(b, pos, depth, last, style, stack, out) matches Ok(ts) ==> layout_ok(ts),
    decreases b.len() - pos,
{
    lemma_skip_trivia(b, pos);
    let i = skip_trivia(b, pos);
    if i >= b.len() {
        lemma_finish(b.len() as int, stack, out);
    } else if b[i] == NEWLINE {
        let active = !crate::lex::layout::suppresses(depth, last);
        let out1 = if active {
            newline_out(out, i)
        } else {
            out
        };
        if active && out.len() > 0 && out.last().kind != SKind::Plain(TokenKind::Newline) {
            lemma_push(out, plain_tok(TokenKind::Newline, i, i + 1));
        }
        assert(partial_ok(out1, stack));
        lemma_read_indent(b, i + 1);
        match read_indent(b, i + 1) {
            None => {
                lemma_finish(b.len() as int, stack, out1);
            },
            Some((col, p)) => {
                let style2 = match crate::lex::indent_style(b, p - col, p, style) {
                    Some(st) => st,
                    None => style,
                };
                if !active {
                    lemma_run(b, p, depth, last, style2, stack, out1);
                } else {
                    lemma_pop_above(stack, col);
                    let st2 = pop_above(stack, col);
                    let n = (stack.len() - st2.len()) as nat;
                    lemma_dedents(out1, n, p);
                    let out2 = out1 + dedents(n, p);
                    assert(partial_ok(out2, st2));
                    if col > st2.last() {
                        let st3 = st2.push(col as u32);
                        let t = plain_tok(TokenKind::Indent, p, p);
                        lemma_push(out2, t);
                        assert forall|a: int, c: int| 0 <= a < c < st3.len() implies st3[a] < st3[c] by {
                            assert(st3[a] == st2[a]);
                            if c == st2.len() {
                                assert(col < u32::MAX);
                                assert(st3[c] == col as u32);
                                if a < st2.len() - 1 {
                                    assert(st2[a] < st2[st2.len() - 1]);
                                }
                            } else {
                                assert(st3[c] == st2[c]);
                                assert(st2[a] < st2[c]);
                            }
                        }
                        assert(stack_wf(st3));
                        assert(partial_ok(out2.push(t), st3));
                        lemma_run(b, p, depth, last, style2, st3, out2.push(t));
                    } else if col == st2.last() {
                        lemma_run(b, p, depth, last, style2, st2, out2);
                    }
                }
            },
        }
    } else {
        lemma_token_end(b, i);
        lemma_token_kind(b, i);
        match token_at(b, i) {
            Err(_) => {},
            Ok((k, e)) => {
                let t = crate::lex::stok(k, i, e);
                lemma_push(out, t);
                lemma_run(b, e, depth_after(depth, k), last_after(last, k), style, stack, out.push(t));
            },
        }
    }
}

/// Every token stream the lexer produces ends with its only `Eof`, never
/// starts with a `Newline` nor holds two in a row (blank lines collapse),
/// and its `Indent`s and `Dedent`s nest and balance.
pub proof fn lex_output_layout(b: Seq<u8>)
    requires
        b.len() < u32::MAX,
    ensures
        lex_spec(b) matches Ok(ts) ==> layout_ok(ts),
{
    assert(stack_wf(seq![0u32]));
    assert(nesting(Seq::<SToken>::empty()) == 0);
    assert forall|k: int| 0 <= k <= 0 implies nesting(#[trigger] Seq::<SToken>::empty().take(k)) >= 0 by {
        assert(Seq::<SToken>::empty().take(k) =~= Seq::<SToken>::empty());
    }
    lemma_run(b, 0, 0, None, None, seq![0u32], seq![]);
}

/// Every token's span lies inside the input, starts no later than it ends,
/// and ends no later than the next token starts.
pub open spec fn spans_ok(ts: Seq<SToken>, len: int) -> bool {
    &&& forall|i: int| 0 <= i < ts.len() ==> (#[trigger] ts[i]).span.start <= ts[i].span.end <= len
    &&& forall|i: int| 0 <= i < ts.len() - 1 ==> (#[trigger] ts[i]).span.end <= ts[i + 1].span.start
}

/// The tokens so far are in order and end at or before `q`.
#[verifier::opaque]
spec fn spans_upto(ts: Seq<SToken>, q: int) -> bool {
    &&& forall|i: int| 0 <= i < ts.len() ==> (#[trigger] ts[i]).span.start <= ts[i].span.end <= q
    &&& forall|i: int| 0 <= i < ts.len() - 1 ==> (#[trigger] ts[i]).span.end <= ts[i + 1].span.start
}

proof fn lemma_spans_weaken(ts: Seq<SToken>, q: int, r: int)
    requires
        spans_upto(ts, q),
        q <= r,
    ensures
        spans_upto(ts, r),
{
    reveal(spans_upto);
}

proof fn lemma_spans_push(ts: Seq<SToken>, q: int, t: SToken)
    requires
        spans_upto(ts, q),
        q <= t.span.start <= t.span.end,
    ensures
        spans_upto(ts.push(t), t.span.end as int),
{
    reveal(spans_upto);
    assert forall|i: int| 0 <= i < ts.push(t).len() - 1 implies (#[trigger] ts.push(t)[i]).span.end
        <= ts.push(t)[i + 1].span.start by {
        if i < ts.len() - 1 {
            assert(ts.push(t)[i] == ts[i] && ts.push(t)[i + 1] == ts[i + 1]);
        } else {
            assert(ts.push(t)[i] == ts[i]);
        }
    }
}

proof fn lemma_spans_dedents(ts: Seq<SToken>, q: int, n: nat, p: int)
    requires
        spans_upto(ts, q),
        0 <= q <= p < u32::MAX,
    ensures
        spans_upto(ts + dedents(n, p), p),
    decreases n,
{
    if n == 0 {
        assert(ts + dedents(0, p) =~= ts);
        lemma_spans_weaken(ts, q, p);
    } else {
        lemma_spans_dedents(ts, q, (n - 1) as nat, p);
        assert(dedents(n, p) =~= dedents((n - 1) as nat, p).push(plain_tok(TokenKind::Dedent, p, p)));
        assert(ts + dedents(n, p) =~= (ts + dedents((n - 1) as nat, p)).push(plain_tok(TokenKind::Dedent, p, p)));
        let t = plain_tok(TokenKind::Dedent, p, p);
        assert(t.span.start == p && t.span.end == p);
        lemma_spans_push(ts + dedents((n - 1) as nat, p), p, t);
    }
}

proof fn lemma_spans_finish(b: Seq<u8>, stack: Seq<u32>, out: Seq<SToken>, q: int)
    requires
        spans_upto(out, q),
        0 <= q <= b.len() < u32::MAX,
        stack.len() >= 1,
    ensures
        spans_ok(finish(b.len() as int, stack, out), b.len() as int),
{
    let n = (stack.len() - 1) as nat;
    lemma_spans_dedents(out, q, n, b.len() as int);
    let e = plain_tok(TokenKind::Eof, b.len() as int, b.len() as int);
    lemma_spans_push(out + dedents(n, b.len() as int), b.len() as int, e);
    reveal(spans_upto);
}

/// The spans stay in order and inside the input to the end of the input.
proof fn lemma_run_spans(
    b: Seq<u8>,
    pos: int,
    depth: nat,
    last: Option<SKind>,
    style: Option<u8>,
    stack: Seq<u32>,
    out: Seq<SToken>,
)
    requires
        0 <= pos <= b.len(),
        b.len() < u32::MAX,
        stack_wf(stack),
        spans_upto(out, pos),
    ensures
        lex_run(b, pos, depth, last, style, stack, out) matches Ok(ts) ==> spans_ok(ts, b.len() as int),
    decreases b.len() - pos,
{
    lemma_skip_trivia(b, pos);
    let i = skip_trivia(b, pos);
    lemma_spans_weaken(out, pos, i);
    if i >= b.len() {
        lemma_spans_finish(b, stack, out, i);
    } else if b[i] == NEWLINE {
        let active = !crate::lex::layout::suppresses(depth, last);
        let out1 = if active {
            newline_out(out, i)
        } else {
            out
        };
        if active && out.len() > 0 && out.last().kind != SKind::Plain(TokenKind::Newline) {
            lemma_spans_push(out, i, plain_tok(TokenKind::Newline, i, i + 1));
        } else {
            lemma_spans_weaken(out, i, i + 1);
        }
        assert(spans_upto(out1, i + 1));
        lemma_read_indent(b, i + 1);
        match read_indent(b, i + 1) {
            None => {
                lemma_spans_finish(b, stack, out1, i + 1);
            },
            Some((col, p)) => {
                let style2 = match indent_style(b, p - col, p, style) {
                    Some(st) => st,
                    None => style,
                };
                lemma_spans_weaken(out1, i + 1, p);
                if !active {
                    lemma_run_spans(b, p, depth, last, style2, stack, out1);
                } else {
                    lemma_pop_above(stack, col);
                    let st2 = pop_above(stack, col);
                    let n = (stack.len() - st2.len()) as nat;
                    lemma_spans_dedents(out1, p, n, p);
                    let out2 = out1 + dedents(n, p);
                    if col > st2.last() {
                        let st3 = st2.push(col as u32);
                        let t = plain_tok(TokenKind::Indent, p, p);
                        lemma_spans_push(out2, p, t);
                        assert forall|a: int, c: int| 0 <= a < c < st3.len() implies st3[a] < st3[c] by {
                            assert(st3[a] == st2[a]);
                            if c == st2.len() {
                                assert(col < u32::MAX);
                                assert(st3[c] == col as u32);
                                if a < st2.len() - 1 {
                                    assert(st2[a] < st2[st2.len() - 1]);
                                }
                            } else {
                                assert(st3[c] == st2[c]);
                                assert(st2[a] < st2[c]);
                            }
                        }
                        assert(stack_wf(st3));
                        lemma_run_spans(b, p, depth, last, style2, st3, out2.push(t));
                    } else if col == st2.last() {
                        lemma_run_spans(b, p, depth, last, style2, st2, out2);
                    }
                }
            },
        }
    } else {
        lemma_token_end(b, i);
        match token_at(b, i) {
            Err(_) => {},
            Ok((k, e)) => {
                let t = stok(k, i, e);
                lemma_spans_push(out, i, t);
                lemma_run_spans(b, e, depth_after(depth, k), last_after(last, k), style, stack, out.push(t));
            },
        }
    }
}

/// Every token stream the lexer produces has its spans inside the input,
/// each starting no later than it ends and ending no later than the next
/// token starts.
pub proof fn lex_spans_ordered(b: Seq<u8>)
    requires
        b.len() < u32::MAX,
    ensures
        lex_spec(b) matches Ok(ts) ==> spans_ok(ts, b.len() as int),
{
    assert(stack_wf(seq![0u32]));
    reveal(spans_upto);
    assert(spans_upto(Seq::<SToken>::empty(), 0));
    lemma_run_spans(b, 0, 0, None, None, seq![0u32], seq![]);
}

/// No `Newline` directly follows a token that continues its line: an
/// arithmetic, comparison or concatenation operator, or a comma.
pub open spec fn no_newline_after_continuation(ts: Seq<SToken>) -> bool {
    forall|i: int| 0 <= i < ts.len() - 1 && continues(#[trigger] ts[i].kind) ==> !is_plain_kind(
        ts[i + 1],
        TokenKind::Newline,
    )
}

/// A continuing token at the end of `out` is the lexer's last significant
/// token.
spec fn continuation_tracked(out: Seq<SToken>, last: Option<SKind>) -> bool {
    out.len() > 0 && continues(out.last().kind) ==> last == Some(out.last().kind)
}

proof fn lemma_cont_push(out: Seq<SToken>, t: SToken)
    requires
        no_newline_after_continuation(out),
        is_plain_kind(t, TokenKind::Newline) ==> out.len() == 0 || !continues(out.last().kind),
    ensures
        no_newline_after_continuation(out.push(t)),
{
    assert forall|i: int| 0 <= i < out.push(t).len() - 1 && continues(#[trigger] out.push(t)[i].kind)
        implies !is_plain_kind(out.push(t)[i + 1], TokenKind::Newline) by {
        assert(out.push(t)[i] == out[i]);
        if i < out.len() - 1 {
            assert(out.push(t)[i + 1] == out[i + 1]);
        }
    }
}

proof fn lemma_cont_dedents(out: Seq<SToken>, n: nat, p: int)
    requires
        no_newline_after_continuation(out),
    ensures
        no_newline_after_continuation(out + dedents(n, p)),
        n > 0 ==> !continues((out + dedents(n, p)).last().kind),
    decreases n,
{
    if n == 0 {
        assert(out + dedents(0, p) =~= out);
    } else {
        lemma_cont_dedents(out, (n - 1) as nat, p);
        let t = plain_tok(TokenKind::Dedent, p, p);
        assert(dedents(n, p) =~= dedents((n - 1) as nat, p).push(t));
        assert(out + dedents(n, p) =~= (out + dedents((n - 1) as nat, p)).push(t));
        lemma_cont_push(out + dedents((n - 1) as nat, p), t);
    }
}

proof fn lemma_run_cont(
    b: Seq<u8>,
    pos: int,
    depth: nat,
    last: Option<SKind>,
    style: Option<u8>,
    stack: Seq<u32>,
    out: Seq<SToken>,
)
    requires
        0 <= pos <= b.len(),
        b.len() < u32::MAX,
        no_newline_after_continuation(out),
        continuation_tracked(out, last),
    ensures
        lex_run(b, pos, depth, last, style, stack, out) matches Ok(ts) ==> no_newline_after_continuation(ts),
    decreases b.len() - pos,
{
    lemma_skip_trivia(b, pos);
    let i = skip_trivia(b, pos);
    if i >= b.len() {
        let n = (stack.len() - 1) as nat;
        lemma_cont_dedents(out, n, b.len() as int);
        lemma_cont_push(out + dedents(n, b.len() as int), plain_tok(TokenKind::Eof, b.len() as int, b.len() as int));
    } else if b[i] == NEWLINE {
        let active = !crate::lex::layout::suppresses(depth, last);
        let out1 = if active {
            newline_out(out, i)
        } else {
            out
        };
        if active && out.len() > 0 && out.last().kind != SKind::Plain(TokenKind::Newline) {
            lemma_cont_push(out, plain_tok(TokenKind::Newline, i, i + 1));
        }
        assert(continuation_tracked(out1, last));
        lemma_read_indent(b, i + 1);
        match read_indent(b, i + 1) {
            None => {
                let n = (stack.len() - 1) as nat;
                lemma_cont_dedents(out1, n, b.len() as int);
                lemma_cont_push(out1 + dedents(n, b.len() as int), plain_tok(TokenKind::Eof, b.len() as int, b.len() as int));
            },
            Some((col, p)) => {
                let style2 = match indent_style(b, p - col, p, style) {
                    Some(st) => st,
                    None => style,
                };
                if !active {
                    lemma_run_cont(b, p, depth, last, style2, stack, out1);
                } else {
                    let st2 = pop_above(stack, col);
                    let n = (stack.len() - st2.len()) as nat;
                    lemma_cont_dedents(out1, n, p);
                    let out2 = out1 + dedents(n, p);
                    if n == 0 {
                        assert(out2 =~= out1);
                    }
                    assert(continuation_tracked(out2, last));
                    if col > st2.last() {
                        let t = plain_tok(TokenKind::Indent, p, p);
                        lemma_cont_push(out2, t);
                        lemma_run_cont(b, p, depth, last, style2, st2.push(col as u32), out2.push(t));
                    } else if col == st2.last() {
                        lemma_run_cont(b, p, depth, last, style2, st2, out2);
                    }
                }
            },
        }
    } else {
        lemma_token_end(b, i);
        lemma_token_kind(b, i);
        match token_at(b, i) {
            Err(_) => {},
            Ok((k, e)) => {
                let t = stok(k, i, e);
                lemma_cont_push(out, t);
                lemma_run_cont(b, e, depth_after(depth, k), last_after(last, k), style, stack, out.push(t));
            },
        }
    }
}

/// In every token stream the lexer produces, no `Newline` directly follows
/// an operator or a comma: such a token continues its line.
pub proof fn lex_continuation_lines(b: Seq<u8>)
    requires
        b.len() < u32::MAX,
    ensures
        lex_spec(b) matches Ok(ts) ==> no_newline_after_continuation(ts),
{
    lemma_run_cont(b, 0, 0, None, None, seq![0u32], seq![]);
}


/// The bracket depth after the tokens `s`: open `(` and `[` not yet
/// closed, a closer without an opener counting for nothing.
pub open spec fn bracket_depth(s: Seq<SToken>) -> nat
    decreases s.len(),
{
    if s.len() == 0 {
        0
    } else {
        depth_after(bracket_depth(s.drop_last()), s.last().kind)
    }
}

/// No `Newline`, `Indent` or `Dedent` stands where more brackets are open
/// than closed, except the `Dedent`s that close the open blocks at the end
/// of input, which only `Dedent`s and the `Eof` follow.
pub open spec fn no_layout_in_brackets(ts: Seq<SToken>) -> bool {
    forall|i: int|
        0 <= i < ts.len() && crate::lex::layout::is_layout_kind(#[trigger] ts[i].kind) && bracket_depth(ts.take(i)) > 0
            ==> is_plain_kind(ts[i], TokenKind::Dedent) && forall|j: int|
            i <= j < ts.len() ==> is_plain_kind(#[trigger] ts[j], TokenKind::Dedent) || is_plain_kind(ts[j], TokenKind::Eof)
}

/// While the lexer runs, every layout token so far stands at depth zero.
spec fn layout_at_top(s: Seq<SToken>) -> bool {
    forall|i: int|
        0 <= i < s.len() && crate::lex::layout::is_layout_kind(#[trigger] s[i].kind) ==> bracket_depth(s.take(i)) == 0
}

proof fn lemma_top_push(out: Seq<SToken>, t: SToken)
    requires
        layout_at_top(out),
        crate::lex::layout::is_layout_kind(t.kind) ==> bracket_depth(out) == 0,
    ensures
        layout_at_top(out.push(t)),
        bracket_depth(out.push(t)) == depth_after(bracket_depth(out), t.kind),
{
    let o = out.push(t);
    assert(o.drop_last() =~= out);
    assert forall|i: int| 0 <= i < o.len() && crate::lex::layout::is_layout_kind(#[trigger] o[i].kind) implies bracket_depth(
        o.take(i),
    ) == 0 by {
        if i < out.len() {
            assert(o[i] == out[i]);
            assert(o.take(i) =~= out.take(i));
        } else {
            assert(o.take(i) =~= out);
        }
    }
}

proof fn lemma_top_dedents(out: Seq<SToken>, n: nat, p: int)
    requires
        layout_at_top(out),
        bracket_depth(out) == 0,
    ensures
        layout_at_top(out + dedents(n, p)),
        bracket_depth(out + dedents(n, p)) == 0,
    decreases n,
{
    if n == 0 {
        assert(out + dedents(0, p) =~= out);
    } else {
        lemma_top_dedents(out, (n - 1) as nat, p);
        let t = plain_tok(TokenKind::Dedent, p, p);
        assert(dedents(n, p) =~= dedents((n - 1) as nat, p).push(t));
        assert(out + dedents(n, p) =~= (out + dedents((n - 1) as nat, p)).push(t));
        lemma_top_push(out + dedents((n - 1) as nat, p), t);
    }
}

proof fn lemma_depth_dedents(out: Seq<SToken>, n: nat, p: int)
    ensures
        bracket_depth(out + dedents(n, p)) == bracket_depth(out),
        forall|k: int| out.len() <= k <= out.len() + n ==> #[trigger] bracket_depth((out + dedents(n, p)).take(k)) == bracket_depth(out),
    decreases n,
{
    if n == 0 {
        assert(out + dedents(0, p) =~= out);
        assert forall|k: int| out.len() <= k <= out.len() + n implies #[trigger] bracket_depth((out + dedents(n, p)).take(k))
            == bracket_depth(out) by {
            assert((out + dedents(n, p)).take(k) =~= out);
        }
    } else {
        lemma_depth_dedents(out, (n - 1) as nat, p);
        let t = plain_tok(TokenKind::Dedent, p, p);
        assert(dedents(n, p) =~= dedents((n - 1) as nat, p).push(t));
        assert(out + dedents(n, p) =~= (out + dedents((n - 1) as nat, p)).push(t));
        assert((out + dedents(n, p)).drop_last() =~= out + dedents((n - 1) as nat, p));
        assert forall|k: int| out.len() <= k <= out.len() + n implies #[trigger] bracket_depth((out + dedents(n, p)).take(k))
            == bracket_depth(out) by {
            if k < out.len() + n {
                assert((out + dedents(n, p)).take(k) =~= (out + dedents((n - 1) as nat, p)).take(k));
            } else {
                assert((out + dedents(n, p)).take(k) =~= out + dedents(n, p));
            }
        }
    }
}

proof fn lemma_top_finish(out: Seq<SToken>, n: nat, e: int)
    requires
        layout_at_top(out),
    ensures
        no_layout_in_brackets(out + dedents(n, e) + seq![plain_tok(TokenKind::Eof, e, e)]),
{
    let ts = (out + dedents(n, e)).push(plain_tok(TokenKind::Eof, e, e));
    assert(ts =~= out + dedents(n, e) + seq![plain_tok(TokenKind::Eof, e, e)]);
    lemma_depth_dedents(out, n, e);
    assert forall|i: int|
        0 <= i < ts.len() && crate::lex::layout::is_layout_kind(#[trigger] ts[i].kind) && bracket_depth(ts.take(i)) > 0
            implies is_plain_kind(ts[i], TokenKind::Dedent) && forall|j: int|
            i <= j < ts.len() ==> is_plain_kind(#[trigger] ts[j], TokenKind::Dedent) || is_plain_kind(ts[j], TokenKind::Eof) by {
        if i < out.len() {
            assert(ts[i] == out[i]);
            assert(ts.take(i) =~= out.take(i));
        } else if i < out.len() + n {
            assert(ts[i] == plain_tok(TokenKind::Dedent, e, e));
            assert forall|j: int| i <= j < ts.len() implies is_plain_kind(#[trigger] ts[j], TokenKind::Dedent) || is_plain_kind(
                ts[j],
                TokenKind::Eof,
            ) by {
                if j < out.len() + n {
                    assert(ts[j] == plain_tok(TokenKind::Dedent, e, e));
                }
            }
        } else {
            assert(ts[i] == plain_tok(TokenKind::Eof, e, e));
        }
    }
}

proof fn lemma_run_brackets(
    b: Seq<u8>,
    pos: int,
    depth: nat,
    last: Option<SKind>,
    style: Option<u8>,
    stack: Seq<u32>,
    out: Seq<SToken>,
)
    requires
        0 <= pos <= b.len(),
        b.len() < u32::MAX,
        layout_at_top(out),
        depth == bracket_depth(out),
    ensures
        lex_run(b, pos, depth, last, style, stack, out) matches Ok(ts) ==> no_layout_in_brackets(ts),
    decreases b.len() - pos,
{
    lemma_skip_trivia(b, pos);
    let i = skip_trivia(b, pos);
    if i >= b.len() {
        let n = (stack.len() - 1) as nat;
        lemma_top_finish(out, n, b.len() as int);
    } else if b[i] == NEWLINE {
        let active = !crate::lex::layout::suppresses(depth, last);
        let out1 = if active {
            newline_out(out, i)
        } else {
            out
        };
        if active && out.len() > 0 && out.last().kind != SKind::Plain(TokenKind::Newline) {
            lemma_top_push(out, plain_tok(TokenKind::Newline, i, i + 1));
        }
        assert(bracket_depth(out1) == depth);
        lemma_read_indent(b, i + 1);
        match read_indent(b, i + 1) {
            None => {
                let n = (stack.len() - 1) as nat;
                lemma_top_finish(out1, n, b.len() as int);
            },
            Some((col, p)) => {
                let style2 = match indent_style(b, p - col, p, style) {
                    Some(st) => st,
                    None => style,
                };
                if !active {
                    lemma_run_brackets(b, p, depth, last, style2, stack, out1);
                } else {
                    let st2 = pop_above(stack, col);
                    let n = (stack.len() - st2.len()) as nat;
                    lemma_top_dedents(out1, n, p);
                    let out2 = out1 + dedents(n, p);
                    if col > st2.last() {
                        let t = plain_tok(TokenKind::Indent, p, p);
                        lemma_top_push(out2, t);
                        lemma_run_brackets(b, p, depth, last, style2, st2.push(col as u32), out2.push(t));
                    } else if col == st2.last() {
                        lemma_run_brackets(b, p, depth, last, style2, st2, out2);
                    }
                }
            },
        }
    } else {
        lemma_token_end(b, i);
        lemma_token_kind(b, i);
        match token_at(b, i) {
            Err(_) => {},
            Ok((k, e)) => {
                let t = stok(k, i, e);
                lemma_top_push(out, t);
                lemma_run_brackets(b, e, depth_after(depth, k), last_after(last, k), style, stack, out.push(t));
            },
        }
    }
}

/// In every token stream the lexer produces, no layout token stands inside
/// open brackets, but for the `Dedent`s at the end of input.
pub proof fn lex_layout_outside_brackets(b: Seq<u8>)
    requires
        b.len() < u32::MAX,
    ensures
        lex_spec(b) matches Ok(ts) ==> no_layout_in_brackets(ts),
{
    lemma_run_brackets(b, 0, 0, None, None, seq![0u32], seq![]);
}

} // verus!
