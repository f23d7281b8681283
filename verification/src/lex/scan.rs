use vstd::prelude::*;
use crate::error::{Error, ErrorKind};
use crate::span::Span;
use crate::text::{push_char, str_eq};
use crate::token::{SKind, TokenKind};

verus! {

pub const NEWLINE: u8 = 10;
pub const TAB: u8 = 9;
pub const SPACE: u8 = 32;
pub const QUOTE: u8 = 34;
pub const HASH: u8 = 35;
pub const DOT: u8 = 46;
pub const BACKSLASH: u8 = 92;
pub const UNDERSCORE: u8 = 95;

pub open spec fn is_digit(c: u8) -> bool {
    48 <= c <= 57
}

pub open spec fn is_upper(c: u8) -> bool {
    65 <= c <= 90
}

pub open spec fn is_alpha(c: u8) -> bool {
    is_upper(c) || 97 <= c <= 122
}

pub open spec fn is_alnum(c: u8) -> bool {
    is_digit(c) || is_alpha(c)
}

/// A byte that may continue a word that contains an underscore.
pub open spec fn is_word(c: u8) -> bool {
    is_alnum(c) || c == UNDERSCORE
}

/// What went wrong in the lexer, with the payloads as character sequences.
pub enum LexFault {
    UnexpectedChar(char),
    Underscore { name: Seq<char>, suggestion: Seq<char> },
    InvalidNumber(Seq<char>),
    UnterminatedString,
    InvalidEscape(char),
    InconsistentDedent,
    MixedTabsAndSpaces,
}

pub struct LexError {
    pub span: Span,
    pub fault: LexFault,
}

pub open spec fn lex_error(start: int, end: int, fault: LexFault) -> LexError {
    LexError { span: Span { start: start as u32, end: end as u32 }, fault }
}

/// `e` is the diagnostic that `le` describes.
pub open spec fn error_is(e: Error, le: LexError) -> bool {
    &&& e.span == le.span
    &&& match le.fault {
        LexFault::UnexpectedChar(c) => e.kind == ErrorKind::UnexpectedChar(c),
        LexFault::Underscore { name, suggestion } => match e.kind {
            ErrorKind::UnderscoreInIdentifier { name: n, suggestion: s } => n@ == name
                && s@ == suggestion,
            _ => false,
        },
        LexFault::InvalidNumber(t) => match e.kind {
            ErrorKind::InvalidNumber(s) => s@ == t,
            _ => false,
        },
        LexFault::UnterminatedString => e.kind == ErrorKind::UnterminatedString,
        LexFault::InvalidEscape(c) => e.kind == ErrorKind::InvalidEscape(c),
        LexFault::InconsistentDedent => e.kind == ErrorKind::InconsistentDedent,
        LexFault::MixedTabsAndSpaces => e.kind == ErrorKind::MixedTabsAndSpaces,
    }
}

/// The bytes `b[i..j]`, each read as the character with that code.
pub open spec fn bytes_text(b: Seq<u8>, i: int, j: int) -> Seq<char> {
    b.subrange(i, j).map_values(|x: u8| x as char)
}

/// The first position at or after `i` whose byte fails `p`.
pub open spec fn run_end(b: Seq<u8>, i: int, p: spec_fn(u8) -> bool) -> int
    decreases b.len() - i,
{
    if 0 <= i < b.len() && p(b[i]) {
        run_end(b, i + 1, p)
    } else {
        i
    }
}

pub proof fn lemma_run_end(b: Seq<u8>, i: int, p: spec_fn(u8) -> bool)
    requires
        0 <= i <= b.len(),
    ensures
        i <= run_end(b, i, p) <= b.len(),
        forall|k: int| i <= k < run_end(b, i, p) ==> p(#[trigger] b[k]),
        run_end(b, i, p) < b.len() ==> !p(b[run_end(b, i, p)]),
    decreases b.len() - i,
{
    if i < b.len() && p(b[i]) {
        lemma_run_end(b, i + 1, p);
    }
}

pub open spec fn digits_end(b: Seq<u8>, i: int) -> int {
    run_end(b, i, |c: u8| is_digit(c))
}

pub open spec fn alnum_end(b: Seq<u8>, i: int) -> int {
    run_end(b, i, |c: u8| is_alnum(c))
}

pub open spec fn word_end(b: Seq<u8>, i: int) -> int {
    run_end(b, i, |c: u8| is_word(c))
}

/// Scans bytes while `p` holds, from `i`; returns where the run ends.
fn scan_run_digits(b: &[u8], i: usize) -> (j: usize)
    requires
        i <= b@.len(),
    ensures
        j == digits_end(b@, i as int),
{
    proof { lemma_run_end(b@, i as int, |c: u8| is_digit(c)); }
    let mut j = i;
    while j < b.len() && 48 <= b[j] && b[j] <= 57
        invariant
            i <= j <= b@.len(),
            run_end(b@, j as int, |c: u8| is_digit(c)) == digits_end(b@, i as int),
        decreases b@.len() - j,
    {
        j = j + 1;
    }
    j
}

fn scan_run_alnum(b: &[u8], i: usize) -> (j: usize)
    requires
        i <= b@.len(),
    ensures
        j == alnum_end(b@, i as int),
{
    proof { lemma_run_end(b@, i as int, |c: u8| is_alnum(c)); }
    let mut j = i;
    while j < b.len() && is_alnum_exec(b[j])
        invariant
            i <= j <= b@.len(),
            run_end(b@, j as int, |c: u8| is_alnum(c)) == alnum_end(b@, i as int),
        decreases b@.len() - j,
    {
        j = j + 1;
    }
    j
}

fn scan_run_word(b: &[u8], i: usize) -> (j: usize)
    requires
        i <= b@.len(),
    ensures
        j == word_end(b@, i as int),
{
    proof { lemma_run_end(b@, i as int, |c: u8| is_word(c)); }
    let mut j = i;
    while j < b.len() && (is_alnum_exec(b[j]) || b[j] == UNDERSCORE)
        invariant
            i <= j <= b@.len(),
            run_end(b@, j as int, |c: u8| is_word(c)) == word_end(b@, i as int),
        decreases b@.len() - j,
    {
        j = j + 1;
    }
    j
}

pub fn is_alnum_exec(c: u8) -> (r: bool)
    ensures
        r == is_alnum(c),
{
    (48 <= c && c <= 57) || (65 <= c && c <= 90) || (97 <= c && c <= 122)
}

/// The string of bytes `b[i..j]`, each read as the character with that code.
pub fn text_of(b: &[u8], i: usize, j: usize) -> (s: String)
    requires
        i <= j <= b@.len(),
    ensures
        s@ == bytes_text(b@, i as int, j as int),
{
    let mut s = String::new();
    let mut k = i;
    while k < j
        invariant
            i <= k <= j <= b@.len(),
            s@ == bytes_text(b@, i as int, k as int),
        decreases j - k,
    {
        push_char(&mut s, b[k] as char);
        assert(bytes_text(b@, i as int, k + 1) =~= bytes_text(b@, i as int, k as int).push(
            b@[k as int] as char,
        ));
        k = k + 1;
    }
    s
}

// ---------------------------------------------------------------------------
// Strings

/// What an escape letter stands for inside a string literal.
pub open spec fn unescape(c: u8) -> Option<char> {
    if c == 110 {
        Some('\n')
    } else if c == 116 {
        Some('\t')
    } else if c == 114 {
        Some('\r')
    } else if c == BACKSLASH {
        Some('\\')
    } else if c == QUOTE {
        Some('"')
    } else if c == 48 {
        Some('\0')
    } else {
        None
    }
}

fn unescape_exec(c: u8) -> (r: Option<char>)
    ensures
        r == unescape(c),
{
    if c == 110 {
        Some('\n')
    } else if c == 116 {
        Some('\t')
    } else if c == 114 {
        Some('\r')
    } else if c == BACKSLASH {
        Some('\\')
    } else if c == QUOTE {
        Some('"')
    } else if c == 48 {
        Some('\0')
    } else {
        None
    }
}

/// The rest of a string literal that opened at `start`, read from `j` with
/// the characters `acc` already collected: the text and the position after
/// the closing quote.
pub open spec fn string_body(b: Seq<u8>, start: int, j: int, acc: Seq<char>) -> Result<
    (Seq<char>, int),
    LexError,
>
    decreases b.len() - j,
{
    if j < 0 || j >= b.len() {
        Err(lex_error(start, b.len() as int, LexFault::UnterminatedString))
    } else if b[j] == QUOTE {
        Ok((acc, j + 1))
    } else if b[j] == NEWLINE {
        Err(lex_error(start, j + 1, LexFault::UnterminatedString))
    } else if b[j] == BACKSLASH {
        if j + 1 >= b.len() {
            Err(lex_error(start, j + 1, LexFault::UnterminatedString))
        } else {
            match unescape(b[j + 1]) {
                Some(c) => string_body(b, start, j + 2, acc.push(c)),
                None => Err(lex_error(j, j + 2, LexFault::InvalidEscape(b[j + 1] as char))),
            }
        }
    } else {
        string_body(b, start, j + 1, acc.push(b[j] as char))
    }
}

/// Scans a string literal whose opening quote is at `start`.
pub fn scan_string(b: &[u8], start: usize) -> (r: Result<(TokenKind, usize), Error>)
    requires
        start < b@.len() < u32::MAX,
        b@[start as int] == QUOTE,
    ensures
        match string_body(b@, start as int, start + 1, seq![]) {
            Ok((text, end)) => r matches Ok((k, e)) && k@ == SKind::StringLit(text) && e == end,
            Err(le) => r matches Err(e) && error_is(e, le),
        },
{
    let mut s = String::new();
    let mut j = start + 1;
    while j < b.len()
        invariant
            start < j <= b@.len() < u32::MAX,
            string_body(b@, start as int, j as int, s@) == string_body(
                b@,
                start as int,
                start + 1,
                seq![],
            ),
        decreases b@.len() - j,
    {
        let c = b[j];
        if c == QUOTE {
            return Ok((TokenKind::StringLit(s), j + 1));
        } else if c == NEWLINE {
            return Err(
                Error {
                    span: Span::new(start as u32, (j + 1) as u32),
                    kind: ErrorKind::UnterminatedString,
                },
            );
        } else if c == BACKSLASH {
            if j + 1 >= b.len() {
                return Err(
                    Error {
                        span: Span::new(start as u32, (j + 1) as u32),
                        kind: ErrorKind::UnterminatedString,
                    },
                );
            }
            let e = b[j + 1];
            match unescape_exec(e) {
                Some(u) => {
                    push_char(&mut s, u);
                    j = j + 2;
                },
                None => {
                    return Err(
                        Error {
                            span: Span::new(j as u32, (j + 2) as u32),
                            kind: ErrorKind::InvalidEscape(e as char),
                        },
                    );
                },
            }
        } else {
            push_char(&mut s, c as char);
            j = j + 1;
        }
    }
    Err(Error { span: Span::new(start as u32, b.len() as u32), kind: ErrorKind::UnterminatedString })
}

// ---------------------------------------------------------------------------
// Numbers

/// The value of the decimal digits `b[i..j]`.
pub open spec fn digits_value(b: Seq<u8>, i: int, j: int) -> nat
    decreases j - i,
{
    if j <= i {
        0
    } else {
        digits_value(b, i, j - 1) * 10 + (b[j - 1] - 48) as nat
    }
}

/// The integer digits without leading zeros, keeping at least one digit.
pub open spec fn strip_leading_zeros(t: Seq<char>) -> Seq<char>
    decreases t.len(),
{
    if t.len() > 1 && t[0] == '0' {
        strip_leading_zeros(t.drop_first())
    } else {
        t
    }
}

/// The fraction digits without trailing zeros, keeping at least one digit.
pub open spec fn strip_trailing_zeros(t: Seq<char>) -> Seq<char>
    decreases t.len(),
{
    if t.len() > 1 && t.last() == '0' {
        strip_trailing_zeros(t.drop_last())
    } else {
        t
    }
}

/// The normalized notation of the float literal with integer digits
/// `b[i..j]` and fraction digits `b[j+1..k]`.
pub open spec fn float_text(b: Seq<u8>, i: int, j: int, k: int) -> Seq<char> {
    strip_leading_zeros(bytes_text(b, i, j)) + seq!['.'] + strip_trailing_zeros(
        bytes_text(b, j + 1, k),
    )
}

/// A number literal starting at the digit at `i`.
pub open spec fn number_token(b: Seq<u8>, i: int) -> Result<(SKind, int), LexError> {
    let j = digits_end(b, i);
    if j + 1 < b.len() && b[j] == DOT && is_digit(b[j + 1]) {
        let k = digits_end(b, j + 1);
        Ok((SKind::FloatLit(float_text(b, i, j, k)), k))
    } else if digits_value(b, i, j) <= i64::MAX {
        Ok((SKind::IntLit(digits_value(b, i, j) as i64), j))
    } else {
        Err(lex_error(i, j, LexFault::InvalidNumber(bytes_text(b, i, j))))
    }
}

proof fn lemma_digits_value_grows(b: Seq<u8>, i: int, j: int, k: int)
    requires
        i <= j <= k,
        forall|m: int| i <= m < k ==> is_digit(#[trigger] b[m]),
    ensures
        digits_value(b, i, j) <= digits_value(b, i, k),
    decreases k - j,
{
    if j < k {
        lemma_digits_value_grows(b, i, j, k - 1);
    }
}

/// The value of the digits `b[i..j]`, or `None` past `i64::MAX`.
fn digits_to_i64(b: &[u8], i: usize, j: usize) -> (r: Option<i64>)
    requires
        i <= j <= b@.len(),
        forall|m: int| i <= m < j ==> is_digit(#[trigger] b@[m]),
    ensures
        match r {
            Some(v) => v == digits_value(b@, i as int, j as int),
            None => digits_value(b@, i as int, j as int) > i64::MAX,
        },
{
    let mut acc: u64 = 0;
    let mut k = i;
    while k < j
        invariant
            i <= k <= j <= b@.len(),
            forall|m: int| i <= m < j ==> is_digit(#[trigger] b@[m]),
            acc == digits_value(b@, i as int, k as int),
            acc <= i64::MAX,
        decreases j - k,
    {
        let d = (b[k] - 48) as u64;
        assert(is_digit(b@[k as int]));
        if acc > (9223372036854775807u64 - d) / 10 {
            proof {
                assert(acc * 10 + d > 9223372036854775807u64) by (nonlinear_arith)
                    requires
                        acc > (9223372036854775807u64 - d) / 10,
                        d <= 9,
                ;
                lemma_digits_value_grows(b@, i as int, k + 1, j as int);
            }
            return None;
        }
        proof {
            assert(acc * 10 + d <= 9223372036854775807u64) by (nonlinear_arith)
                requires
                    acc <= (9223372036854775807u64 - d) / 10,
                    d <= 9,
            ;
        }
        acc = acc * 10 + d;
        k = k + 1;
    }
    Some(acc as i64)
}

/// Drops leading zeros of the digits `b[i..j]`, keeping the last one.
fn strip_leading(b: &[u8], i: usize, j: usize) -> (k: usize)
    requires
        i < j <= b@.len(),
    ensures
        i <= k < j,
        bytes_text(b@, k as int, j as int) == strip_leading_zeros(bytes_text(b@, i as int, j as int)),
{
    let mut k = i;
    while k + 1 < j && b[k] == 48
        invariant
            i <= k < j <= b@.len(),
            strip_leading_zeros(bytes_text(b@, k as int, j as int)) == strip_leading_zeros(
                bytes_text(b@, i as int, j as int),
            ),
        decreases j - k,
    {
        assert(bytes_text(b@, k as int, j as int).drop_first() =~= bytes_text(b@, k + 1, j as int));
        k = k + 1;
    }
    k
}

/// Drops trailing zeros of the digits `b[i..j]`, keeping the first one.
fn strip_trailing(b: &[u8], i: usize, j: usize) -> (k: usize)
    requires
        i < j <= b@.len(),
    ensures
        i < k <= j,
        bytes_text(b@, i as int, k as int) == strip_trailing_zeros(bytes_text(b@, i as int, j as int)),
{
    let mut k = j;
    while k > i + 1 && b[k - 1] == 48
        invariant
            i < k <= j <= b@.len(),
            strip_trailing_zeros(bytes_text(b@, i as int, k as int)) == strip_trailing_zeros(
                bytes_text(b@, i as int, j as int),
            ),
        decreases k,
    {
        assert(bytes_text(b@, i as int, k as int).drop_last() =~= bytes_text(b@, i as int, k - 1));
        k = k - 1;
    }
    k
}

/// Scans a number literal whose first digit is at `start`.
pub fn scan_number(b: &[u8], start: usize) -> (r: Result<(TokenKind, usize), Error>)
    requires
        start < b@.len() < u32::MAX,
        is_digit(b@[start as int]),
    ensures
        match number_token(b@, start as int) {
            Ok((k, end)) => r matches Ok((t, e)) && t@ == k && e == end,
            Err(le) => r matches Err(e) && error_is(e, le),
        },
{
    let j = scan_run_digits(b, start);
    proof { lemma_run_end(b@, start as int, |c: u8| is_digit(c)); }
    if j + 1 < b.len() && b[j] == DOT && 48 <= b[j + 1] && b[j + 1] <= 57 {
        let k = scan_run_digits(b, j + 1);
        proof { lemma_run_end(b@, j + 1, |c: u8| is_digit(c)); }
        let a = strip_leading(b, start, j);
        let z = strip_trailing(b, j + 1, k);
        let mut s = text_of(b, a, j);
        push_char(&mut s, '.');
        let f = text_of(b, j + 1, z);
        crate::text::push_str(&mut s, f.as_str());
        assert(s@ =~= float_text(b@, start as int, j as int, k as int));
        Ok((TokenKind::FloatLit(s), k))
    } else {
        match digits_to_i64(b, start, j) {
            Some(v) => Ok((TokenKind::IntLit(v), j)),
            None => Err(
                Error {
                    span: Span::new(start as u32, j as u32),
                    kind: ErrorKind::InvalidNumber(text_of(b, start, j)),
                },
            ),
        }
    }
}

// ---------------------------------------------------------------------------
// Identifiers

/// ASCII upper case of a character; other characters unchanged.
pub open spec fn ascii_upper(c: char) -> char {
    if 'a' <= c <= 'z' {
        ((c as u32) - 32) as char
    } else {
        c
    }
}

/// `snake_case` to `camelCase`: each underscore is dropped and the
/// character after it is upper-cased.
pub open spec fn camel(s: Seq<char>, upper_next: bool) -> Seq<char>
    decreases s.len(),
{
    if s.len() == 0 {
        seq![]
    } else if s[0] == '_' {
        camel(s.drop_first(), true)
    } else if upper_next {
        seq![ascii_upper(s[0])] + camel(s.drop_first(), false)
    } else {
        seq![s[0]] + camel(s.drop_first(), false)
    }
}

/// `camel` of the suffix of `s` from `i`.
proof fn lemma_camel_step(s: Seq<char>, i: int, flag: bool)
    requires
        0 <= i < s.len(),
    ensures
        camel(s.subrange(i, s.len() as int), flag) == if s[i] == '_' {
            camel(s.subrange(i + 1, s.len() as int), true)
        } else if flag {
            seq![ascii_upper(s[i])] + camel(s.subrange(i + 1, s.len() as int), false)
        } else {
            seq![s[i]] + camel(s.subrange(i + 1, s.len() as int), false)
        },
{
    assert(s.subrange(i, s.len() as int).drop_first() =~= s.subrange(i + 1, s.len() as int));
}

/// Suggests a camelCase spelling for a name written with underscores.
pub fn to_camel_case(snake: &Vec<char>) -> (out: String)
    requires
        forall|i: int| 0 <= i < snake@.len() ==> (#[trigger] snake@[i] as u32) < 128,
    ensures
        out@ == camel(snake@, false),
{
    let mut out = String::new();
    let mut upper_next = false;
    let mut i: usize = 0;
    assert(snake@.subrange(0, snake@.len() as int) =~= snake@);
    while i < snake.len()
        invariant
            i <= snake@.len(),
            out@ + camel(snake@.subrange(i as int, snake@.len() as int), upper_next) == camel(
                snake@,
                false,
            ),
        decreases snake@.len() - i,
    {
        let c = snake[i];
        proof { lemma_camel_step(snake@, i as int, upper_next); }
        if c == '_' {
            upper_next = true;
        } else if upper_next {
            let u = if 'a' <= c && c <= 'z' {
                ((c as u32) - 32) as u8 as char
            } else {
                c
            };
            assert(u == ascii_upper(c));
            push_char(&mut out, u);
            upper_next = false;
        } else {
            push_char(&mut out, c);
        }
        i = i + 1;
    }
    assert(snake@.subrange(snake@.len() as int, snake@.len() as int) =~= Seq::<char>::empty());
    out
}

/// The characters of `b[i..j]`.
fn chars_of(b: &[u8], i: usize, j: usize) -> (v: Vec<char>)
    requires
        i <= j <= b@.len(),
    ensures
        v@ == bytes_text(b@, i as int, j as int),
{
    let mut v: Vec<char> = Vec::new();
    let mut k = i;
    while k < j
        invariant
            i <= k <= j <= b@.len(),
            v@ == bytes_text(b@, i as int, k as int),
        decreases j - k,
    {
        v.push(b[k] as char);
        assert(bytes_text(b@, i as int, k + 1) =~= bytes_text(b@, i as int, k as int).push(
            b@[k as int] as char,
        ));
        k = k + 1;
    }
    v
}

/// The diagnostic for a word with an underscore in `b[i..j]`.
pub open spec fn underscore_error(b: Seq<u8>, i: int, j: int) -> LexError {
    lex_error(
        i,
        j,
        LexFault::Underscore {
            name: bytes_text(b, i, j),
            suggestion: camel(bytes_text(b, i, j), false),
        },
    )
}

fn underscore_err(b: &[u8], i: usize, j: usize) -> (e: Error)
    requires
        i <= j <= b@.len() < u32::MAX,
        forall|m: int| i <= m < j ==> is_word(#[trigger] b@[m]),
    ensures
        error_is(e, underscore_error(b@, i as int, j as int)),
{
    let name = chars_of(b, i, j);
    assert forall|m: int| 0 <= m < name@.len() implies (#[trigger] name@[m] as u32) < 128 by {
        assert(is_word(b@[i + m]));
    }
    let suggestion = to_camel_case(&name);
    Error {
        span: Span::new(i as u32, j as u32),
        kind: ErrorKind::UnderscoreInIdentifier { name: text_of(b, i, j), suggestion },
    }
}

/// A lone `_`, or a word that starts with one (which is refused).
pub open spec fn underscore_token(b: Seq<u8>, i: int) -> Result<(SKind, int), LexError> {
    if i + 1 < b.len() && is_word(b[i + 1]) {
        Err(underscore_error(b, i, word_end(b, i + 1)))
    } else {
        Ok((SKind::Plain(TokenKind::Underscore), i + 1))
    }
}

pub fn scan_underscore(b: &[u8], start: usize) -> (r: Result<(TokenKind, usize), Error>)
    requires
        start < b@.len() < u32::MAX,
        b@[start as int] == UNDERSCORE,
    ensures
        match underscore_token(b@, start as int) {
            Ok((k, end)) => r matches Ok((t, e)) && t@ == k && e == end,
            Err(le) => r matches Err(e) && error_is(e, le),
        },
{
    if start + 1 < b.len() && (is_alnum_exec(b[start + 1]) || b[start + 1] == UNDERSCORE) {
        let j = scan_run_word(b, start + 1);
        proof { lemma_run_end(b@, start + 1, |c: u8| is_word(c)); }
        return Err(underscore_err(b, start, j));
    }
    Ok((TokenKind::Underscore, start + 1))
}

/// The keyword spelled `t`, if any.
pub open spec fn keyword(t: Seq<char>) -> Option<TokenKind> {
    if t == "type"@ {
        Some(TokenKind::KwType)
    } else if t == "match"@ {
        Some(TokenKind::KwMatch)
    } else if t == "module"@ {
        Some(TokenKind::KwModule)
    } else if t == "expose"@ {
        Some(TokenKind::KwExpose)
    } else if t == "use"@ {
        Some(TokenKind::KwUse)
    } else if t == "as"@ {
        Some(TokenKind::KwAs)
    } else if t == "trait"@ {
        Some(TokenKind::KwTrait)
    } else if t == "impl"@ {
        Some(TokenKind::KwImpl)
    } else if t == "and"@ {
        Some(TokenKind::KwAnd)
    } else if t == "or"@ {
        Some(TokenKind::KwOr)
    } else if t == "not"@ {
        Some(TokenKind::KwNot)
    } else if t == "xor"@ {
        Some(TokenKind::KwXor)
    } else {
        None
    }
}

fn keyword_exec(t: &str) -> (r: Option<TokenKind>)
    ensures
        r == keyword(t@),
{
    if str_eq(t, "type") {
        Some(TokenKind::KwType)
    } else if str_eq(t, "match") {
        Some(TokenKind::KwMatch)
    } else if str_eq(t, "module") {
        Some(TokenKind::KwModule)
    } else if str_eq(t, "expose") {
        Some(TokenKind::KwExpose)
    } else if str_eq(t, "use") {
        Some(TokenKind::KwUse)
    } else if str_eq(t, "as") {
        Some(TokenKind::KwAs)
    } else if str_eq(t, "trait") {
        Some(TokenKind::KwTrait)
    } else if str_eq(t, "impl") {
        Some(TokenKind::KwImpl)
    } else if str_eq(t, "and") {
        Some(TokenKind::KwAnd)
    } else if str_eq(t, "or") {
        Some(TokenKind::KwOr)
    } else if str_eq(t, "not") {
        Some(TokenKind::KwNot)
    } else if str_eq(t, "xor") {
        Some(TokenKind::KwXor)
    } else {
        None
    }
}

/// An identifier or keyword whose first letter is at `i`.
pub open spec fn ident_token(b: Seq<u8>, i: int) -> Result<(SKind, int), LexError> {
    let j = alnum_end(b, i + 1);
    let t = bytes_text(b, i, j);
    if j < b.len() && b[j] == UNDERSCORE {
        Err(underscore_error(b, i, word_end(b, j)))
    } else if is_upper(b[i]) {
        Ok((SKind::UpperIdent(t), j))
    } else {
        match keyword(t) {
            Some(k) => Ok((SKind::Plain(k), j)),
            None => Ok((SKind::LowerIdent(t), j)),
        }
    }
}

pub fn scan_ident_or_keyword(b: &[u8], start: usize) -> (r: Result<(TokenKind, usize), Error>)
    requires
        start < b@.len() < u32::MAX,
        is_alpha(b@[start as int]),
    ensures
        match ident_token(b@, start as int) {
            Ok((k, end)) => r matches Ok((t, e)) && t@ == k && e == end,
            Err(le) => r matches Err(e) && error_is(e, le),
        },
{
    let j = scan_run_alnum(b, start + 1);
    proof { lemma_run_end(b@, start + 1, |c: u8| is_alnum(c)); }
    if j < b.len() && b[j] == UNDERSCORE {
        let k = scan_run_word(b, j);
        proof {
            lemma_run_end(b@, j as int, |c: u8| is_word(c));
            assert forall|m: int| start <= m < k implies is_word(#[trigger] b@[m]) by {
                if m > start && m < j {
                    assert(is_alnum(b@[m]));
                }
            }
        }
        return Err(underscore_err(b, start, k));
    }
    let text = text_of(b, start, j);
    if 65 <= b[start] && b[start] <= 90 {
        Ok((TokenKind::UpperIdent(text), j))
    } else {
        match keyword_exec(text.as_str()) {
            Some(k) => Ok((k, j)),
            None => Ok((TokenKind::LowerIdent(text), j)),
        }
    }
}

} // verus!
