use vstd::prelude::*;
use crate::span::Span;
use crate::text::{debug_quote, debug_quoted, int_text, push_char, push_i64, push_str, push_u64, decimal};

verus! {

/// A token with its byte span.
#[derive(Debug, Clone, PartialEq)]
pub struct Token {
    pub span: Span,
    pub kind: TokenKind,
}

/// The kinds of tokens. A float literal holds its normalized decimal notation:
/// the integer digits without leading zeros (at least one digit), a `.`, and
/// the fraction digits without trailing zeros (at least one digit).
#[derive(Debug, Clone, PartialEq)]
pub enum TokenKind {
    // Literals
    IntLit(i64),
    FloatLit(String),
    StringLit(String),
    // Identifiers
    LowerIdent(String),
    UpperIdent(String),
    // Keywords (reserved lowercase)
    KwType,
    KwMatch,
    KwModule,
    KwExpose,
    KwUse,
    KwAs,
    KwTrait,
    KwImpl,
    KwAnd,
    KwOr,
    KwNot,
    KwXor,
    // The four binding operators
    Colon,
    Equals,
    Arrow,
    Dot,
    // Punctuation
    LParen,
    RParen,
    LBracket,
    RBracket,
    Comma,
    Bang,
    Question,
    DotDot,
    Underscore,
    // Arithmetic / comparison / concat
    Plus,
    Minus,
    Star,
    Slash,
    Caret,
    EqEq,
    SlashEq,
    Lt,
    LtEq,
    Gt,
    GtEq,
    PlusPlus,
    // Layout (lexer-synthetic)
    Newline,
    Indent,
    Dedent,
    // Sentinel
    Eof,
}


/// The position of a kind's variant in the declaration, payload aside.
pub open spec fn kind_tag(k: TokenKind) -> u8 {
    match k {
        TokenKind::IntLit(_) => 0,
        TokenKind::FloatLit(_) => 1,
        TokenKind::StringLit(_) => 2,
        TokenKind::LowerIdent(_) => 3,
        TokenKind::UpperIdent(_) => 4,
        TokenKind::KwType => 5,
        TokenKind::KwMatch => 6,
        TokenKind::KwModule => 7,
        TokenKind::KwExpose => 8,
        TokenKind::KwUse => 9,
        TokenKind::KwAs => 10,
        TokenKind::KwTrait => 11,
        TokenKind::KwImpl => 12,
        TokenKind::KwAnd => 13,
        TokenKind::KwOr => 14,
        TokenKind::KwNot => 15,
        TokenKind::KwXor => 16,
        TokenKind::Colon => 17,
        TokenKind::Equals => 18,
        TokenKind::Arrow => 19,
        TokenKind::Dot => 20,
        TokenKind::LParen => 21,
        TokenKind::RParen => 22,
        TokenKind::LBracket => 23,
        TokenKind::RBracket => 24,
        TokenKind::Comma => 25,
        TokenKind::Bang => 26,
        TokenKind::Question => 27,
        TokenKind::DotDot => 28,
        TokenKind::Underscore => 29,
        TokenKind::Plus => 30,
        TokenKind::Minus => 31,
        TokenKind::Star => 32,
        TokenKind::Slash => 33,
        TokenKind::Caret => 34,
        TokenKind::EqEq => 35,
        TokenKind::SlashEq => 36,
        TokenKind::Lt => 37,
        TokenKind::LtEq => 38,
        TokenKind::Gt => 39,
        TokenKind::GtEq => 40,
        TokenKind::PlusPlus => 41,
        TokenKind::Newline => 42,
        TokenKind::Indent => 43,
        TokenKind::Dedent => 44,
        TokenKind::Eof => 45,
    }
}

/// The model of a token kind: payload strings as character sequences.
pub enum SKind {
    IntLit(i64),
    FloatLit(Seq<char>),
    StringLit(Seq<char>),
    LowerIdent(Seq<char>),
    UpperIdent(Seq<char>),
    /// A kind without payload, kept as the token kind itself.
    Plain(TokenKind),
}

impl View for TokenKind {
    type V = SKind;

    open spec fn view(&self) -> SKind {
        match self {
            TokenKind::IntLit(n) => SKind::IntLit(*n),
            TokenKind::FloatLit(s) => SKind::FloatLit(s@),
            TokenKind::StringLit(s) => SKind::StringLit(s@),
            TokenKind::LowerIdent(s) => SKind::LowerIdent(s@),
            TokenKind::UpperIdent(s) => SKind::UpperIdent(s@),
            _ => SKind::Plain(*self),
        }
    }
}

/// The model of a token.
pub struct SToken {
    pub span: Span,
    pub kind: SKind,
}

impl View for Token {
    type V = SToken;

    open spec fn view(&self) -> SToken {
        SToken { span: self.span, kind: self.kind@ }
    }
}

/// A kind with no payload.
pub open spec fn is_plain(k: TokenKind) -> bool {
    !(k is IntLit || k is FloatLit || k is StringLit || k is LowerIdent || k is UpperIdent)
}

/// The name of a payload-free kind, as `Debug` prints it.
pub open spec fn plain_name(k: TokenKind) -> Seq<char> {
    match k {
        TokenKind::KwType => "KwType"@,
        TokenKind::KwMatch => "KwMatch"@,
        TokenKind::KwModule => "KwModule"@,
        TokenKind::KwExpose => "KwExpose"@,
        TokenKind::KwUse => "KwUse"@,
        TokenKind::KwAs => "KwAs"@,
        TokenKind::KwTrait => "KwTrait"@,
        TokenKind::KwImpl => "KwImpl"@,
        TokenKind::KwAnd => "KwAnd"@,
        TokenKind::KwOr => "KwOr"@,
        TokenKind::KwNot => "KwNot"@,
        TokenKind::KwXor => "KwXor"@,
        TokenKind::Colon => "Colon"@,
        TokenKind::Equals => "Equals"@,
        TokenKind::Arrow => "Arrow"@,
        TokenKind::Dot => "Dot"@,
        TokenKind::LParen => "LParen"@,
        TokenKind::RParen => "RParen"@,
        TokenKind::LBracket => "LBracket"@,
        TokenKind::RBracket => "RBracket"@,
        TokenKind::Comma => "Comma"@,
        TokenKind::Bang => "Bang"@,
        TokenKind::Question => "Question"@,
        TokenKind::DotDot => "DotDot"@,
        TokenKind::Underscore => "Underscore"@,
        TokenKind::Plus => "Plus"@,
        TokenKind::Minus => "Minus"@,
        TokenKind::Star => "Star"@,
        TokenKind::Slash => "Slash"@,
        TokenKind::Caret => "Caret"@,
        TokenKind::EqEq => "EqEq"@,
        TokenKind::SlashEq => "SlashEq"@,
        TokenKind::Lt => "Lt"@,
        TokenKind::LtEq => "LtEq"@,
        TokenKind::Gt => "Gt"@,
        TokenKind::GtEq => "GtEq"@,
        TokenKind::PlusPlus => "PlusPlus"@,
        TokenKind::Newline => "Newline"@,
        TokenKind::Indent => "Indent"@,
        TokenKind::Dedent => "Dedent"@,
        TokenKind::Eof => "Eof"@,
        _ => Seq::empty(),
    }
}

/// How a float prints with `Display`: an integral value drops its `.0`.
pub open spec fn float_display(t: Seq<char>) -> Seq<char> {
    if t.len() >= 2 && t[t.len() - 2] == '.' && t[t.len() - 1] == '0' {
        t.take(t.len() - 2)
    } else {
        t
    }
}

/// The payload of a string or identifier kind as `Debug` quotes it; empty for
/// the other kinds.
pub open spec fn quoted_payload(k: SKind) -> Seq<char> {
    match k {
        SKind::StringLit(s) => debug_quoted(s),
        SKind::LowerIdent(s) => debug_quoted(s),
        SKind::UpperIdent(s) => debug_quoted(s),
        _ => Seq::empty(),
    }
}

/// The compact label of a kind, given its payload already quoted as `q`.
pub open spec fn label_with(k: SKind, q: Seq<char>) -> Seq<char> {
    match k {
        SKind::IntLit(n) => "IntLit "@ + int_text(n as int),
        SKind::FloatLit(t) => "FloatLit "@ + float_display(t),
        SKind::StringLit(_) => "StringLit "@ + q,
        SKind::LowerIdent(_) => "LowerIdent "@ + q,
        SKind::UpperIdent(_) => "UpperIdent "@ + q,
        SKind::Plain(k) => plain_name(k),
    }
}

/// A kind as `Debug` prints it, given its payload already quoted as `q`.
pub open spec fn debug_with(k: SKind, q: Seq<char>) -> Seq<char> {
    match k {
        SKind::IntLit(n) => "IntLit("@ + int_text(n as int) + seq![')'],
        SKind::FloatLit(t) => "FloatLit("@ + t + seq![')'],
        SKind::StringLit(_) => "StringLit("@ + q + seq![')'],
        SKind::LowerIdent(_) => "LowerIdent("@ + q + seq![')'],
        SKind::UpperIdent(_) => "UpperIdent("@ + q + seq![')'],
        SKind::Plain(k) => plain_name(k),
    }
}

/// The compact label of a kind: literals and identifiers with their payload.
pub open spec fn label_text(k: SKind) -> Seq<char> {
    label_with(k, quoted_payload(k))
}

/// A kind as `Debug` prints it, as in `LowerIdent("x")`.
pub open spec fn debug_text(k: SKind) -> Seq<char> {
    debug_with(k, quoted_payload(k))
}

fn push_plain_name(out: &mut String, k: &TokenKind)
    requires
        is_plain(*k),
    ensures
        final(out)@ == old(out)@ + plain_name(*k),
{
    let s: &str = match k {
        TokenKind::KwType => "KwType",
        TokenKind::KwMatch => "KwMatch",
        TokenKind::KwModule => "KwModule",
        TokenKind::KwExpose => "KwExpose",
        TokenKind::KwUse => "KwUse",
        TokenKind::KwAs => "KwAs",
        TokenKind::KwTrait => "KwTrait",
        TokenKind::KwImpl => "KwImpl",
        TokenKind::KwAnd => "KwAnd",
        TokenKind::KwOr => "KwOr",
        TokenKind::KwNot => "KwNot",
        TokenKind::KwXor => "KwXor",
        TokenKind::Colon => "Colon",
        TokenKind::Equals => "Equals",
        TokenKind::Arrow => "Arrow",
        TokenKind::Dot => "Dot",
        TokenKind::LParen => "LParen",
        TokenKind::RParen => "RParen",
        TokenKind::LBracket => "LBracket",
        TokenKind::RBracket => "RBracket",
        TokenKind::Comma => "Comma",
        TokenKind::Bang => "Bang",
        TokenKind::Question => "Question",
        TokenKind::DotDot => "DotDot",
        TokenKind::Underscore => "Underscore",
        TokenKind::Plus => "Plus",
        TokenKind::Minus => "Minus",
        TokenKind::Star => "Star",
        TokenKind::Slash => "Slash",
        TokenKind::Caret => "Caret",
        TokenKind::EqEq => "EqEq",
        TokenKind::SlashEq => "SlashEq",
        TokenKind::Lt => "Lt",
        TokenKind::LtEq => "LtEq",
        TokenKind::Gt => "Gt",
        TokenKind::GtEq => "GtEq",
        TokenKind::PlusPlus => "PlusPlus",
        TokenKind::Newline => "Newline",
        TokenKind::Indent => "Indent",
        TokenKind::Dedent => "Dedent",
        TokenKind::Eof => "Eof",
        _ => "",
    };
    push_str(out, s);
}

pub fn push_float_display(out: &mut String, t: &String)
    ensures
        final(out)@ == old(out)@ + float_display(t@),
{
    let n = t.as_str().unicode_len();
    let integral = n >= 2 && t.as_str().get_char(n - 2) == '.' && t.as_str().get_char(n - 1) == '0';
    if integral {
        let mut i: usize = 0;
        while i < n - 2
            invariant
                n == t@.len(),
                n >= 2,
                i <= n - 2,
                out@ == old(out)@ + t@.take(i as int),
            decreases n - 2 - i,
        {
            let c = t.as_str().get_char(i);
            push_char(out, c);
            assert(t@.take(i + 1) =~= t@.take(i as int).push(c));
            i = i + 1;
        }
    } else {
        push_str(out, t.as_str());
    }
}

impl TokenKind {

    /// The position of this kind's variant in the declaration.
    pub fn tag(&self) -> (r: u8)
        ensures
            r == kind_tag(*self),
    {
        match self {
            TokenKind::IntLit(_) => 0,
            TokenKind::FloatLit(_) => 1,
            TokenKind::StringLit(_) => 2,
            TokenKind::LowerIdent(_) => 3,
            TokenKind::UpperIdent(_) => 4,
            TokenKind::KwType => 5,
            TokenKind::KwMatch => 6,
            TokenKind::KwModule => 7,
            TokenKind::KwExpose => 8,
            TokenKind::KwUse => 9,
            TokenKind::KwAs => 10,
            TokenKind::KwTrait => 11,
            TokenKind::KwImpl => 12,
            TokenKind::KwAnd => 13,
            TokenKind::KwOr => 14,
            TokenKind::KwNot => 15,
            TokenKind::KwXor => 16,
            TokenKind::Colon => 17,
            TokenKind::Equals => 18,
            TokenKind::Arrow => 19,
            TokenKind::Dot => 20,
            TokenKind::LParen => 21,
            TokenKind::RParen => 22,
            TokenKind::LBracket => 23,
            TokenKind::RBracket => 24,
            TokenKind::Comma => 25,
            TokenKind::Bang => 26,
            TokenKind::Question => 27,
            TokenKind::DotDot => 28,
            TokenKind::Underscore => 29,
            TokenKind::Plus => 30,
            TokenKind::Minus => 31,
            TokenKind::Star => 32,
            TokenKind::Slash => 33,
            TokenKind::Caret => 34,
            TokenKind::EqEq => 35,
            TokenKind::SlashEq => 36,
            TokenKind::Lt => 37,
            TokenKind::LtEq => 38,
            TokenKind::Gt => 39,
            TokenKind::GtEq => 40,
            TokenKind::PlusPlus => 41,
            TokenKind::Newline => 42,
            TokenKind::Indent => 43,
            TokenKind::Dedent => 44,
            TokenKind::Eof => 45,
        }
    }

    /// A copy of this kind.
    pub fn copy(&self) -> (r: TokenKind)
        ensures
            r == *self,
    {
        match self {
            TokenKind::IntLit(n) => TokenKind::IntLit(*n),
            TokenKind::FloatLit(t) => TokenKind::FloatLit(t.clone()),
            TokenKind::StringLit(t) => TokenKind::StringLit(t.clone()),
            TokenKind::LowerIdent(t) => TokenKind::LowerIdent(t.clone()),
            TokenKind::UpperIdent(t) => TokenKind::UpperIdent(t.clone()),
            TokenKind::KwType => TokenKind::KwType,
            TokenKind::KwMatch => TokenKind::KwMatch,
            TokenKind::KwModule => TokenKind::KwModule,
            TokenKind::KwExpose => TokenKind::KwExpose,
            TokenKind::KwUse => TokenKind::KwUse,
            TokenKind::KwAs => TokenKind::KwAs,
            TokenKind::KwTrait => TokenKind::KwTrait,
            TokenKind::KwImpl => TokenKind::KwImpl,
            TokenKind::KwAnd => TokenKind::KwAnd,
            TokenKind::KwOr => TokenKind::KwOr,
            TokenKind::KwNot => TokenKind::KwNot,
            TokenKind::KwXor => TokenKind::KwXor,
            TokenKind::Colon => TokenKind::Colon,
            TokenKind::Equals => TokenKind::Equals,
            TokenKind::Arrow => TokenKind::Arrow,
            TokenKind::Dot => TokenKind::Dot,
            TokenKind::LParen => TokenKind::LParen,
            TokenKind::RParen => TokenKind::RParen,
            TokenKind::LBracket => TokenKind::LBracket,
            TokenKind::RBracket => TokenKind::RBracket,
            TokenKind::Comma => TokenKind::Comma,
            TokenKind::Bang => TokenKind::Bang,
            TokenKind::Question => TokenKind::Question,
            TokenKind::DotDot => TokenKind::DotDot,
            TokenKind::Underscore => TokenKind::Underscore,
            TokenKind::Plus => TokenKind::Plus,
            TokenKind::Minus => TokenKind::Minus,
            TokenKind::Star => TokenKind::Star,
            TokenKind::Slash => TokenKind::Slash,
            TokenKind::Caret => TokenKind::Caret,
            TokenKind::EqEq => TokenKind::EqEq,
            TokenKind::SlashEq => TokenKind::SlashEq,
            TokenKind::Lt => TokenKind::Lt,
            TokenKind::LtEq => TokenKind::LtEq,
            TokenKind::Gt => TokenKind::Gt,
            TokenKind::GtEq => TokenKind::GtEq,
            TokenKind::PlusPlus => TokenKind::PlusPlus,
            TokenKind::Newline => TokenKind::Newline,
            TokenKind::Indent => TokenKind::Indent,
            TokenKind::Dedent => TokenKind::Dedent,
            TokenKind::Eof => TokenKind::Eof,
        }
    }

    pub fn is_layout(&self) -> (r: bool)
        ensures
            r == (*self is Newline || *self is Indent || *self is Dedent),
    {
        match self {
            TokenKind::Newline | TokenKind::Indent | TokenKind::Dedent => true,
            _ => false,
        }
    }

    /// The payload of a string or identifier kind as `Debug` quotes it;
    /// empty for the other kinds.
    pub fn quoted_payload(&self) -> (q: String)
        ensures
            q@ == quoted_payload(self@),
    {
        match self {
            TokenKind::StringLit(t) => debug_quote(t.as_str()),
            TokenKind::LowerIdent(t) => debug_quote(t.as_str()),
            TokenKind::UpperIdent(t) => debug_quote(t.as_str()),
            _ => String::new(),
        }
    }

    /// The compact label, with the payload already quoted as `quoted`.
    pub fn label_quoted(&self, quoted: &str) -> (s: String)
        ensures
            s@ == label_with(self@, quoted@),
    {
        let mut s = String::new();
        match self {
            TokenKind::IntLit(n) => {
                push_str(&mut s, "IntLit ");
                push_i64(&mut s, *n);
            },
            TokenKind::FloatLit(t) => {
                push_str(&mut s, "FloatLit ");
                push_float_display(&mut s, t);
            },
            TokenKind::StringLit(_) => {
                push_str(&mut s, "StringLit ");
                push_str(&mut s, quoted);
            },
            TokenKind::LowerIdent(_) => {
                push_str(&mut s, "LowerIdent ");
                push_str(&mut s, quoted);
            },
            TokenKind::UpperIdent(_) => {
                push_str(&mut s, "UpperIdent ");
                push_str(&mut s, quoted);
            },
            _ => push_plain_name(&mut s, self),
        }
        assert(s@ =~= label_with(self@, quoted@));
        s
    }

    /// Compact human-readable label, as token listings show it.
    pub fn label(&self) -> (s: String)
        ensures
            s@ == label_text(self@),
    {
        let q = self.quoted_payload();
        self.label_quoted(q.as_str())
    }

    /// The kind as `Debug` prints it, with the payload already quoted as
    /// `quoted`.
    pub fn debug_string_quoted(&self, quoted: &str) -> (s: String)
        ensures
            s@ == debug_with(self@, quoted@),
    {
        let mut s = String::new();
        match self {
            TokenKind::IntLit(n) => {
                push_str(&mut s, "IntLit(");
                push_i64(&mut s, *n);
                push_char(&mut s, ')');
            },
            TokenKind::FloatLit(t) => {
                push_str(&mut s, "FloatLit(");
                push_str(&mut s, t.as_str());
                push_char(&mut s, ')');
            },
            TokenKind::StringLit(_) => {
                push_str(&mut s, "StringLit(");
                push_str(&mut s, quoted);
                push_char(&mut s, ')');
            },
            TokenKind::LowerIdent(_) => {
                push_str(&mut s, "LowerIdent(");
                push_str(&mut s, quoted);
                push_char(&mut s, ')');
            },
            TokenKind::UpperIdent(_) => {
                push_str(&mut s, "UpperIdent(");
                push_str(&mut s, quoted);
                push_char(&mut s, ')');
            },
            _ => push_plain_name(&mut s, self),
        }
        assert(s@ =~= debug_with(self@, quoted@));
        s
    }

    /// The kind as `Debug` prints it.
    pub fn debug_string(&self) -> (s: String)
        ensures
            s@ == debug_text(self@),
    {
        let q = self.quoted_payload();
        self.debug_string_quoted(q.as_str())
    }
}

/// `text` padded with spaces on the right to at least `width` characters.
pub open spec fn pad_right(text: Seq<char>, width: nat) -> Seq<char> {
    if text.len() >= width {
        text
    } else {
        text + Seq::new((width - text.len()) as nat, |i: int| ' ')
    }
}

/// How a span prints with `Debug`.
pub open spec fn span_debug(s: Span) -> Seq<char> {
    "Span { start: "@ + decimal(s.start as nat) + ", end: "@ + decimal(s.end as nat) + " }"@
}

impl Token {
    /// A copy of this token.
    pub fn clone_token(&self) -> (r: Token)
        ensures
            r == *self,
    {
        Token { span: self.span, kind: self.kind.copy() }
    }

    /// One line of a token dump: the label padded to 22 columns, then the span.
    pub fn to_string(&self) -> (s: String)
        ensures
            s@ == pad_right(label_text(self.kind@), 22) + " @ "@ + span_debug(self.span),
    {
        let mut s = self.kind.label();
        let ghost lab = s@;
        let n = s.as_str().unicode_len();
        let mut i = n;
        while i < 22
            invariant
                n == lab.len(),
                n <= i <= 22 || (n > 22 && i == n),
                s@ == lab + Seq::new((i - n) as nat, |k: int| ' '),
            decreases 22 - i,
        {
            push_char(&mut s, ' ');
            assert(s@ =~= lab + Seq::new((i + 1 - n) as nat, |k: int| ' '));
            i = i + 1;
        }
        assert(s@ =~= pad_right(lab, 22));
        let ghost padded = s@;
        push_str(&mut s, " @ ");
        push_str(&mut s, "Span { start: ");
        push_u64(&mut s, self.span.start as u64);
        push_str(&mut s, ", end: ");
        push_u64(&mut s, self.span.end as u64);
        push_str(&mut s, " }");
        assert(s@ =~= padded + " @ "@ + span_debug(self.span));
        s
    }
}

} // verus!
