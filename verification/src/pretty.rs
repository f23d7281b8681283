//! The source-form pretty printer: declarations back to indented source.
use vstd::prelude::*;
use crate::ast::{
    BinOp, BlockItem, Decl, DeclKind, EffectRow, Expose, Expr, ExprKind, FieldPat, File, KwArg,
    LitPat, MatchArm, ModuleHeader, Pattern, PatternKind, Type, TypeBody, TypeKind, TypeMember,
    UnaryOp, UseKind, VariantBody,
};
use crate::ast::print::{binop_text, joined, spaces, nl};
use crate::text::{int_text, push_char, push_i64, push_str};

verus! {

/// One indentation level deeper.
pub open spec fn deeper(n: nat) -> nat {
    n + 4
}

pub open spec fn unary_text(op: UnaryOp) -> Seq<char> {
    match op {
        UnaryOp::Neg => "-"@,
        UnaryOp::Not => "not "@,
    }
}

/// A quoted string literal.
pub open spec fn quoted(s: Seq<char>) -> Seq<char> {
    seq!['"'] + s + seq!['"']
}

// Types, effects and patterns (one line each).

pub open spec fn ptype(t: Type) -> Seq<char>
    decreases t, 0nat,
{
    match t.node {
        TypeKind::Var(n) => n@,
        TypeKind::Named { name, args } => name@ + ptypes_sp(args@),
        TypeKind::Function { params, effect, result } => ptypes_sep(params@) + match effect {
            Some(e) => " ! "@ + peffect(e),
            None => seq![],
        } + " -> "@ + ptype(*result),
        TypeKind::Tuple(ts) => seq!['('] + ptypes_sep(ts@) + seq![')'],
    }
}

/// Each type preceded by a space.
pub open spec fn ptypes_sp(s: Seq<Type>) -> Seq<char>
    decreases s, 1nat,
{
    if s.len() == 0 {
        seq![]
    } else {
        ptypes_sp(s.drop_last()) + seq![' '] + ptype(s.last())
    }
}

/// The types separated by `, `.
pub open spec fn ptypes_sep(s: Seq<Type>) -> Seq<char>
    decreases s, 1nat,
{
    if s.len() == 0 {
        seq![]
    } else if s.len() == 1 {
        ptype(s[0])
    } else {
        ptypes_sep(s.drop_last()) + ", "@ + ptype(s.last())
    }
}

pub open spec fn peffect(e: EffectRow) -> Seq<char> {
    match e {
        EffectRow::Empty => "()"@,
        EffectRow::Named(names) => joined(names@, ", "@),
    }
}

pub open spec fn plit(l: LitPat) -> Seq<char> {
    match l {
        LitPat::Int(n) => int_text(n as int),
        LitPat::Float(f) => f@,
        LitPat::Str(s) => quoted(s@),
    }
}

pub open spec fn ppat(p: Pattern) -> Seq<char>
    decreases p, 0nat,
{
    match p.node {
        PatternKind::Wildcard => "_"@,
        PatternKind::Var(n) => n@,
        PatternKind::Lit(l) => plit(l),
        PatternKind::Ctor { name, args } => name@ + if args@.len() == 0 {
            seq![]
        } else {
            seq![' '] + ppats_sep(args@, ", "@)
        },
        PatternKind::Record { ty_name, fields } => ty_name@ + seq!['('] + pfieldpats(fields@)
            + seq![')'],
        PatternKind::Tuple(ps) => seq!['('] + ppats_sep(ps@, ", "@) + seq![')'],
        PatternKind::List(ps) => seq!['['] + ppats_sep(ps@, ", "@) + seq![']'],
    }
}

/// The patterns separated by `sep`.
pub open spec fn ppats_sep(s: Seq<Pattern>, sep: Seq<char>) -> Seq<char>
    decreases s, 1nat,
{
    if s.len() == 0 {
        seq![]
    } else if s.len() == 1 {
        ppat(s[0])
    } else {
        ppats_sep(s.drop_last(), sep) + sep + ppat(s.last())
    }
}

pub open spec fn pfieldpat(f: FieldPat) -> Seq<char>
    decreases f, 0nat,
{
    f.field@ + " = "@ + ppat(f.pattern)
}

/// The field patterns separated by `, `.
pub open spec fn pfieldpats(s: Seq<FieldPat>) -> Seq<char>
    decreases s, 1nat,
{
    if s.len() == 0 {
        seq![]
    } else if s.len() == 1 {
        pfieldpat(s[0])
    } else {
        pfieldpats(s.drop_last()) + ", "@ + pfieldpat(s.last())
    }
}

// Expressions and declarations, at indentation `n`.

pub open spec fn pexpr(e: Expr, n: nat) -> Seq<char>
    decreases e, 0nat,
{
    match e.node {
        ExprKind::IntLit(v) => int_text(v as int),
        ExprKind::FloatLit(f) => f@,
        ExprKind::StringLit(s) => quoted(s@),
        ExprKind::Var(v) => v@,
        ExprKind::Ctor(c) => c@,
        ExprKind::List(items) => seq!['['] + pexprs_sep(items@, n) + seq![']'],
        ExprKind::Paren(inner) => seq!['('] + pexpr(*inner, n) + seq![')'],
        ExprKind::BinOp { op, lhs, rhs } => pexpr(*lhs, n) + seq![' '] + binop_text(op) + seq![' ']
            + pexpr(*rhs, n),
        ExprKind::UnaryOp { op, expr } => unary_text(op) + pexpr(*expr, n),
        ExprKind::Lambda { params, body } => ppats_sep(params@, " "@) + " ->"@ + pbody(*body, n),
        ExprKind::Call { func, args } => pexpr(*func, n) + if args@.len() == 0 {
            seq![]
        } else {
            seq![' '] + pexprs_sep(args@, n)
        },
        ExprKind::MethodCall { receiver, method } => pexpr(*receiver, n) + seq!['.'] + method@,
        ExprKind::FieldAccess { receiver, field } => pexpr(*receiver, n) + seq!['.'] + field@,
        ExprKind::Construct { ty_name, fields } => ty_name@ + pkwargs(fields@, n),
        ExprKind::Update { value, fields } => pexpr(*value, n) + pkwargs(fields@, n),
        ExprKind::Bang(inner) => pexpr(*inner, n) + seq!['!'],
        ExprKind::Question(inner) => pexpr(*inner, n) + seq!['?'],
        ExprKind::Match { scrutinee, arms } => pexpr(*scrutinee, n) + " match"@ + parms(
            arms@,
            deeper(n),
        ),
        ExprKind::Block(items) => pitems_lines(items@, n),
    }
}

/// The expressions separated by `, `.
pub open spec fn pexprs_sep(s: Seq<Expr>, n: nat) -> Seq<char>
    decreases s, 1nat,
{
    if s.len() == 0 {
        seq![]
    } else if s.len() == 1 {
        pexpr(s[0], n)
    } else {
        pexprs_sep(s.drop_last(), n) + ", "@ + pexpr(s.last(), n)
    }
}

pub open spec fn pkwarg(kw: KwArg, n: nat) -> Seq<char>
    decreases kw, 0nat,
{
    kw.name@ + " = "@ + pexpr(kw.value, n)
}

pub open spec fn pkwargs_sep(s: Seq<KwArg>, n: nat) -> Seq<char>
    decreases s, 1nat,
{
    if s.len() == 0 {
        seq![]
    } else if s.len() == 1 {
        pkwarg(s[0], n)
    } else {
        pkwargs_sep(s.drop_last(), n) + ", "@ + pkwarg(s.last(), n)
    }
}

/// Keyword arguments in parentheses.
pub open spec fn pkwargs(s: Seq<KwArg>, n: nat) -> Seq<char>
    decreases s, 2nat,
{
    seq!['('] + pkwargs_sep(s, n) + seq![')']
}

pub open spec fn parm(a: MatchArm, n: nat) -> Seq<char>
    decreases a, 0nat,
{
    nl(n) + ppat(a.pattern) + " -> "@ + pexpr(a.body, n)
}

/// Each arm on a line of its own at indentation `n`.
pub open spec fn parms(s: Seq<MatchArm>, n: nat) -> Seq<char>
    decreases s, 1nat,
{
    if s.len() == 0 {
        seq![]
    } else {
        parms(s.drop_last(), n) + parm(s.last(), n)
    }
}

pub open spec fn pitem(it: BlockItem, n: nat) -> Seq<char>
    decreases it, 0nat,
{
    match it {
        BlockItem::Binding(d) => pdecl(d, n),
        BlockItem::Expr(e) => pexpr(e, n),
    }
}

/// The items separated by line breaks at indentation `n`.
pub open spec fn pitems_lines(s: Seq<BlockItem>, n: nat) -> Seq<char>
    decreases s, 1nat,
{
    if s.len() == 0 {
        seq![]
    } else if s.len() == 1 {
        pitem(s[0], n)
    } else {
        pitems_lines(s.drop_last(), n) + nl(n) + pitem(s.last(), n)
    }
}

/// Each item on a line of its own at indentation `n`.
pub open spec fn pitems_nl(s: Seq<BlockItem>, n: nat) -> Seq<char>
    decreases s, 1nat,
{
    if s.len() == 0 {
        seq![]
    } else {
        pitems_nl(s.drop_last(), n) + nl(n) + pitem(s.last(), n)
    }
}

/// The value of a binding or the body of a lambda: a block on the
/// following lines, one level deeper, or an expression after a space.
pub open spec fn pbody(v: Expr, n: nat) -> Seq<char>
    decreases v, 1nat,
{
    match v.node {
        ExprKind::Block(items) => pitems_nl(items@, deeper(n)),
        _ => seq![' '] + pexpr(v, n),
    }
}

pub open spec fn pdecl(d: Decl, n: nat) -> Seq<char>
    decreases d, 0nat,
{
    match d.node {
        DeclKind::Binding { name, ty, value } => name@ + match ty {
            Some(t) => " : "@ + ptype(t),
            None => seq![],
        } + match value {
            Some(v) => " ="@ + pbody(v, n),
            None => seq![],
        },
        DeclKind::TypeDecl { name, params, body } => "type "@ + name@ + crate::ast::print::names_sp(
            params@,
        ) + match body {
            TypeBody::Newtype(t) => " = "@ + ptype(t),
            TypeBody::Block(members) => pmembers(members@, deeper(n)),
        },
        DeclKind::TraitDecl { name, type_var, methods } => "trait "@ + name@ + seq![' ']
            + type_var@ + pdecls(methods@, deeper(n)),
        DeclKind::ImplDecl { trait_name, target, methods } => "impl "@ + trait_name@ + seq![' ']
            + ptype(target) + pdecls(methods@, deeper(n)),
        DeclKind::Use { path, kind } => "use "@ + joined(path@, "."@) + match kind {
            UseKind::Whole => seq![],
            UseKind::Alias(a) => " as "@ + a@,
            UseKind::Cherry(names) => " ("@ + joined(names@, ", "@) + seq![')'],
        },
    }
}

/// Each declaration on a line of its own at indentation `n`.
pub open spec fn pdecls(s: Seq<Decl>, n: nat) -> Seq<char>
    decreases s, 1nat,
{
    if s.len() == 0 {
        seq![]
    } else {
        pdecls(s.drop_last(), n) + nl(n) + pdecl(s.last(), n)
    }
}

pub open spec fn pmember(m: TypeMember, n: nat) -> Seq<char>
    decreases m, 0nat,
{
    match m {
        TypeMember::Field { name, ty } => name@ + " : "@ + ptype(ty),
        TypeMember::Method(d) => pdecl(d, n),
        TypeMember::Variant { name, body } => name@ + match body {
            VariantBody::Bare => seq![],
            VariantBody::Single(t) => " : "@ + ptype(t),
            VariantBody::Fields(fs) => pmembers(fs@, deeper(n)),
        },
    }
}

/// Each member on a line of its own at indentation `n`.
pub open spec fn pmembers(s: Seq<TypeMember>, n: nat) -> Seq<char>
    decreases s, 1nat,
{
    if s.len() == 0 {
        seq![]
    } else {
        pmembers(s.drop_last(), n) + nl(n) + pmember(s.last(), n)
    }
}

pub open spec fn pexpose(e: Expose) -> Seq<char> {
    match e {
        Expose::Value(v) => v@,
        Expose::Type { name, with_constructors } => name@ + if with_constructors {
            "(..)"@
        } else {
            seq![]
        },
    }
}

pub open spec fn pexposes(s: Seq<Expose>) -> Seq<char>
    decreases s.len(),
{
    if s.len() == 0 {
        seq![]
    } else if s.len() == 1 {
        pexpose(s[0])
    } else {
        pexposes(s.drop_last()) + ", "@ + pexpose(s.last())
    }
}

pub open spec fn pheader(m: ModuleHeader) -> Seq<char> {
    "module "@ + joined(m.name@, "."@) + nl(4) + "expose "@ + pexposes(m.exposes@)
}

/// Each declaration followed by a line break.
pub open spec fn pdecls_lines(s: Seq<Decl>) -> Seq<char>
    decreases s.len(),
{
    if s.len() == 0 {
        seq![]
    } else {
        pdecls_lines(s.drop_last()) + pdecl(s.last(), 0) + seq!['\n']
    }
}

/// The source form of a file.
pub open spec fn pfile(f: File) -> Seq<char> {
    pmodule(f.module) + pdecls_lines(f.decls@)
}

pub open spec fn pmodule(m: Option<ModuleHeader>) -> Seq<char> {
    match m {
        Some(h) => pheader(h) + seq!['\n'],
        None => seq![],
    }
}


// ---------------------------------------------------------------------------
// The printer

/// Floats print in their normalized notation, which keeps one fractional
/// digit for integral values.
pub fn format_float(text: &String) -> (r: String)
    ensures
        r@ == text@,
{
    text.clone()
}

fn unaryop_str(op: &UnaryOp) -> (s: &'static str)
    ensures
        s@ == unary_text(*op),
{
    match op {
        UnaryOp::Neg => "-",
        UnaryOp::Not => "not ",
    }
}

/// Builds the source text; `indent` holds the spaces that start a new line.
struct Printer {
    out: String,
    indent: Vec<char>,
}

impl Printer {
    spec fn wf(&self) -> bool {
        self.indent@ == spaces(self.indent@.len())
    }

    spec fn level(&self) -> nat {
        self.indent@.len()
    }

    fn new() -> (p: Printer)
        ensures
            p.wf(),
            p.out@ == Seq::<char>::empty(),
            p.level() == 0,
    {
        let p = Printer { out: String::new(), indent: Vec::new() };
        assert(p.indent@ =~= spaces(0));
        p
    }

    fn push(&mut self, s: &str)
        ensures
            final(self).out@ == old(self).out@ + s@,
            final(self).indent@ == old(self).indent@,
    {
        push_str(&mut self.out, s);
    }

    fn put(&mut self, c: char)
        ensures
            final(self).out@ == old(self).out@ + seq![c],
            final(self).indent@ == old(self).indent@,
    {
        push_char(&mut self.out, c);
    }

    fn nl(&mut self)
        requires
            old(self).wf(),
        ensures
            final(self).out@ == old(self).out@ + nl(old(self).level()),
            final(self).indent@ == old(self).indent@,
    {
        push_char(&mut self.out, '\n');
        let mut i: usize = 0;
        while i < self.indent.len()
            invariant
                i <= self.indent@.len(),
                self.indent@ == old(self).indent@,
                self.wf(),
                self.out@ == old(self).out@ + seq!['\n'] + spaces(i as nat),
            decreases self.indent@.len() - i,
        {
            push_char(&mut self.out, ' ');
            assert(spaces((i + 1) as nat) =~= spaces(i as nat).push(' '));
            i = i + 1;
        }
        assert(old(self).out@ + nl(old(self).level()) =~= old(self).out@ + seq!['\n'] + spaces(
            i as nat,
        ));
    }

    fn indent_in(&mut self)
        requires
            old(self).wf(),
        ensures
            final(self).wf(),
            final(self).level() == deeper(old(self).level()),
            final(self).out@ == old(self).out@,
    {
        self.indent.push(' ');
        self.indent.push(' ');
        self.indent.push(' ');
        self.indent.push(' ');
        assert(self.indent@ =~= spaces(self.indent@.len()));
    }

    fn indent_out(&mut self)
        requires
            old(self).wf(),
        ensures
            final(self).wf(),
            final(self).level() == if old(self).level() >= 4 {
                (old(self).level() - 4) as nat
            } else {
                0
            },
            final(self).out@ == old(self).out@,
    {
        if self.indent.len() >= 4 {
            self.indent.pop();
            self.indent.pop();
            self.indent.pop();
            self.indent.pop();
        } else {
            self.indent.clear();
        }
        assert(self.indent@ =~= spaces(self.indent@.len()));
    }

    fn push_joined(&mut self, names: &Vec<String>, sep: &str)
        ensures
            final(self).out@ == old(self).out@ + joined(names@, sep@),
            final(self).indent@ == old(self).indent@,
    {
        let mut i: usize = 0;
        while i < names.len()
            invariant
                i <= names@.len(),
                self.indent@ == old(self).indent@,
                self.out@ == old(self).out@ + joined(names@.take(i as int), sep@),
            decreases names@.len() - i,
        {
            if i > 0 {
                self.push(sep);
            }
            self.push(names[i].as_str());
            assert(names@.take(i + 1).drop_last() =~= names@.take(i as int));
            i = i + 1;
        }
        assert(names@.take(names@.len() as int) =~= names@);
    }

    fn write_type(&mut self, t: &Type)
        ensures
            final(self).out@ == old(self).out@ + ptype(*t),
            final(self).indent@ == old(self).indent@,
        decreases t, 0nat,
    {
        match &t.node {
            TypeKind::Var(n) => self.push(n.as_str()),
            TypeKind::Named { name, args } => {
                self.push(name.as_str());
                self.write_types_sp(args);
            },
            TypeKind::Function { params, effect, result } => {
                self.write_types_sep(params);
                match effect {
                    Some(eff) => {
                        self.push(" ! ");
                        self.write_effect(eff);
                    },
                    None => {},
                }
                self.push(" -> ");
                self.write_type(result);
            },
            TypeKind::Tuple(items) => {
                self.put('(');
                self.write_types_sep(items);
                self.put(')');
            },
        }
    }

    fn write_types_sp(&mut self, ts: &Vec<Type>)
        ensures
            final(self).out@ == old(self).out@ + ptypes_sp(ts@),
            final(self).indent@ == old(self).indent@,
        decreases ts@, 1nat,
    {
        let mut i: usize = 0;
        while i < ts.len()
            invariant
                i <= ts@.len(),
                self.indent@ == old(self).indent@,
                self.out@ == old(self).out@ + ptypes_sp(ts@.take(i as int)),
            decreases ts@.len() - i,
        {
            self.put(' ');
            self.write_type(&ts[i]);
            assert(ts@.take(i + 1).drop_last() =~= ts@.take(i as int));
            i = i + 1;
        }
        assert(ts@.take(ts@.len() as int) =~= ts@);
    }

    fn write_types_sep(&mut self, ts: &Vec<Type>)
        ensures
            final(self).out@ == old(self).out@ + ptypes_sep(ts@),
            final(self).indent@ == old(self).indent@,
        decreases ts@, 1nat,
    {
        let mut i: usize = 0;
        while i < ts.len()
            invariant
                i <= ts@.len(),
                self.indent@ == old(self).indent@,
                self.out@ == old(self).out@ + ptypes_sep(ts@.take(i as int)),
            decreases ts@.len() - i,
        {
            if i > 0 {
                self.push(", ");
            }
            self.write_type(&ts[i]);
            assert(ts@.take(i + 1).drop_last() =~= ts@.take(i as int));
            i = i + 1;
        }
        assert(ts@.take(ts@.len() as int) =~= ts@);
    }

    fn write_effect(&mut self, e: &EffectRow)
        ensures
            final(self).out@ == old(self).out@ + peffect(*e),
            final(self).indent@ == old(self).indent@,
    {
        match e {
            EffectRow::Empty => self.push("()"),
            EffectRow::Named(names) => self.push_joined(names, ", "),
        }
    }

    fn write_lit(&mut self, l: &LitPat)
        ensures
            final(self).out@ == old(self).out@ + plit(*l),
            final(self).indent@ == old(self).indent@,
    {
        match l {
            LitPat::Int(n) => push_i64(&mut self.out, *n),
            LitPat::Float(f) => {
                let t = format_float(f);
                self.push(t.as_str());
            },
            LitPat::Str(s) => {
                self.put('"');
                self.push(s.as_str());
                self.put('"');
            },
        }
    }

    fn write_pattern(&mut self, p: &Pattern)
        ensures
            final(self).out@ == old(self).out@ + ppat(*p),
            final(self).indent@ == old(self).indent@,
        decreases p, 0nat,
    {
        match &p.node {
            PatternKind::Wildcard => self.push("_"),
            PatternKind::Var(n) => self.push(n.as_str()),
            PatternKind::Lit(l) => self.write_lit(l),
            PatternKind::Ctor { name, args } => {
                self.push(name.as_str());
                if args.len() > 0 {
                    self.put(' ');
                    self.write_pats_sep(args, ", ");
                }
            },
            PatternKind::Record { ty_name, fields } => {
                self.push(ty_name.as_str());
                self.put('(');
                self.write_fieldpats(fields);
                self.put(')');
            },
            PatternKind::Tuple(items) => {
                self.put('(');
                self.write_pats_sep(items, ", ");
                self.put(')');
            },
            PatternKind::List(items) => {
                self.put('[');
                self.write_pats_sep(items, ", ");
                self.put(']');
            },
        }
    }

    fn write_pats_sep(&mut self, ps: &Vec<Pattern>, sep: &str)
        ensures
            final(self).out@ == old(self).out@ + ppats_sep(ps@, sep@),
            final(self).indent@ == old(self).indent@,
        decreases ps@, 1nat,
    {
        let mut i: usize = 0;
        while i < ps.len()
            invariant
                i <= ps@.len(),
                self.indent@ == old(self).indent@,
                self.out@ == old(self).out@ + ppats_sep(ps@.take(i as int), sep@),
            decreases ps@.len() - i,
        {
            if i > 0 {
                self.push(sep);
            }
            self.write_pattern(&ps[i]);
            assert(ps@.take(i + 1).drop_last() =~= ps@.take(i as int));
            i = i + 1;
        }
        assert(ps@.take(ps@.len() as int) =~= ps@);
    }

    fn write_fieldpat(&mut self, f: &FieldPat)
        ensures
            final(self).out@ == old(self).out@ + pfieldpat(*f),
            final(self).indent@ == old(self).indent@,
        decreases f, 0nat,
    {
        self.push(f.field.as_str());
        self.push(" = ");
        self.write_pattern(&f.pattern);
    }

    fn write_fieldpats(&mut self, fs: &Vec<FieldPat>)
        ensures
            final(self).out@ == old(self).out@ + pfieldpats(fs@),
            final(self).indent@ == old(self).indent@,
        decreases fs@, 1nat,
    {
        let mut i: usize = 0;
        while i < fs.len()
            invariant
                i <= fs@.len(),
                self.indent@ == old(self).indent@,
                self.out@ == old(self).out@ + pfieldpats(fs@.take(i as int)),
            decreases fs@.len() - i,
        {
            if i > 0 {
                self.push(", ");
            }
            self.write_fieldpat(&fs[i]);
            assert(fs@.take(i + 1).drop_last() =~= fs@.take(i as int));
            i = i + 1;
        }
        assert(fs@.take(fs@.len() as int) =~= fs@);
    }

    fn write_expr(&mut self, e: &Expr)
        requires
            old(self).wf(),
        ensures
            final(self).wf(),
            final(self).out@ == old(self).out@ + pexpr(*e, old(self).level()),
            final(self).indent@ == old(self).indent@,
        decreases e, 0nat,
    {
        let ghost o = self.out@;
        let ghost n = self.level();
        match &e.node {
            ExprKind::IntLit(v) => push_i64(&mut self.out, *v),
            ExprKind::FloatLit(f) => {
                let t = format_float(f);
                self.push(t.as_str());
            },
            ExprKind::StringLit(t) => {
                self.put('"');
                self.push(t.as_str());
                self.put('"');
            },
            ExprKind::Var(v) => self.push(v.as_str()),
            ExprKind::Ctor(c) => self.push(c.as_str()),
            ExprKind::List(items) => {
                self.put('[');
                self.write_exprs_sep(items);
                self.put(']');
            },
            ExprKind::Paren(inner) => {
                self.put('(');
                self.write_expr(inner);
                self.put(')');
            },
            ExprKind::BinOp { op, lhs, rhs } => {
                self.write_expr(lhs);
                self.put(' ');
                self.push(crate::ast::print::binop_name(op));
                self.put(' ');
                self.write_expr(rhs);
            },
            ExprKind::UnaryOp { op, expr } => {
                self.push(unaryop_str(op));
                self.write_expr(expr);
            },
            ExprKind::Lambda { params, body } => {
                self.write_pats_sep(params, " ");
                self.push(" ->");
                self.write_value_body(body);
            },
            ExprKind::Call { func, args } => {
                self.write_expr(func);
                if args.len() > 0 {
                    self.put(' ');
                    self.write_exprs_sep(args);
                }
            },
            ExprKind::MethodCall { receiver, method } => {
                self.write_expr(receiver);
                self.put('.');
                self.push(method.as_str());
            },
            ExprKind::FieldAccess { receiver, field } => {
                self.write_expr(receiver);
                self.put('.');
                self.push(field.as_str());
            },
            ExprKind::Construct { ty_name, fields } => {
                self.push(ty_name.as_str());
                self.write_kwargs(fields);
            },
            ExprKind::Update { value, fields } => {
                self.write_expr(value);
                self.write_kwargs(fields);
            },
            ExprKind::Bang(inner) => {
                self.write_expr(inner);
                self.put('!');
            },
            ExprKind::Question(inner) => {
                self.write_expr(inner);
                self.put('?');
            },
            ExprKind::Match { scrutinee, arms } => {
                self.write_expr(scrutinee);
                self.push(" match");
                self.indent_in();
                self.write_arms(arms);
                self.indent_out();
            },
            ExprKind::Block(items) => self.write_items_lines(items),
        }
        assert(self.out@ =~= o + pexpr(*e, n));
    }

    fn write_exprs_sep(&mut self, es: &Vec<Expr>)
        requires
            old(self).wf(),
        ensures
            final(self).wf(),
            final(self).out@ == old(self).out@ + pexprs_sep(es@, old(self).level()),
            final(self).indent@ == old(self).indent@,
        decreases es@, 1nat,
    {
        let mut i: usize = 0;
        while i < es.len()
            invariant
                i <= es@.len(),
                self.wf(),
                self.indent@ == old(self).indent@,
                self.out@ == old(self).out@ + pexprs_sep(es@.take(i as int), old(self).level()),
            decreases es@.len() - i,
        {
            if i > 0 {
                self.push(", ");
            }
            self.write_expr(&es[i]);
            assert(es@.take(i + 1).drop_last() =~= es@.take(i as int));
            i = i + 1;
        }
        assert(es@.take(es@.len() as int) =~= es@);
    }

    fn write_kwarg(&mut self, kw: &KwArg)
        requires
            old(self).wf(),
        ensures
            final(self).wf(),
            final(self).out@ == old(self).out@ + pkwarg(*kw, old(self).level()),
            final(self).indent@ == old(self).indent@,
        decreases kw, 0nat,
    {
        self.push(kw.name.as_str());
        self.push(" = ");
        self.write_expr(&kw.value);
    }

    fn write_kwargs(&mut self, fields: &Vec<KwArg>)
        requires
            old(self).wf(),
        ensures
            final(self).wf(),
            final(self).out@ == old(self).out@ + pkwargs(fields@, old(self).level()),
            final(self).indent@ == old(self).indent@,
        decreases fields@, 2nat,
    {
        self.put('(');
        let mut i: usize = 0;
        while i < fields.len()
            invariant
                i <= fields@.len(),
                self.wf(),
                self.indent@ == old(self).indent@,
                self.out@ == old(self).out@ + seq!['('] + pkwargs_sep(fields@.take(i as int), old(self).level()),
            decreases fields@.len() - i,
        {
            if i > 0 {
                self.push(", ");
            }
            self.write_kwarg(&fields[i]);
            assert(fields@.take(i + 1).drop_last() =~= fields@.take(i as int));
            i = i + 1;
        }
        assert(fields@.take(fields@.len() as int) =~= fields@);
        self.put(')');
    }

    fn write_arms(&mut self, arms: &Vec<MatchArm>)
        requires
            old(self).wf(),
        ensures
            final(self).wf(),
            final(self).out@ == old(self).out@ + parms(arms@, old(self).level()),
            final(self).indent@ == old(self).indent@,
        decreases arms@, 1nat,
    {
        let mut i: usize = 0;
        while i < arms.len()
            invariant
                i <= arms@.len(),
                self.wf(),
                self.indent@ == old(self).indent@,
                self.out@ == old(self).out@ + parms(arms@.take(i as int), old(self).level()),
            decreases arms@.len() - i,
        {
            let arm = &arms[i];
            let ghost o = self.out@;
            self.nl();
            self.write_pattern(&arm.pattern);
            self.push(" -> ");
            self.write_expr(&arm.body);
            assert(self.out@ =~= o + parm(*arm, old(self).level()));
            assert(arms@.take(i + 1).drop_last() =~= arms@.take(i as int));
            assert(arms@.take(i + 1).last() == *arm);
            i = i + 1;
        }
        assert(arms@.take(arms@.len() as int) =~= arms@);
    }

    fn write_block_item(&mut self, item: &BlockItem)
        requires
            old(self).wf(),
        ensures
            final(self).wf(),
            final(self).out@ == old(self).out@ + pitem(*item, old(self).level()),
            final(self).indent@ == old(self).indent@,
        decreases item, 0nat,
    {
        match item {
            BlockItem::Binding(d) => self.write_decl(d),
            BlockItem::Expr(e) => self.write_expr(e),
        }
    }

    fn write_items_lines(&mut self, items: &Vec<BlockItem>)
        requires
            old(self).wf(),
        ensures
            final(self).wf(),
            final(self).out@ == old(self).out@ + pitems_lines(items@, old(self).level()),
            final(self).indent@ == old(self).indent@,
        decreases items@, 1nat,
    {
        let mut i: usize = 0;
        while i < items.len()
            invariant
                i <= items@.len(),
                self.wf(),
                self.indent@ == old(self).indent@,
                self.out@ == old(self).out@ + pitems_lines(items@.take(i as int), old(self).level()),
            decreases items@.len() - i,
        {
            if i > 0 {
                self.nl();
            }
            self.write_block_item(&items[i]);
            assert(items@.take(i + 1).drop_last() =~= items@.take(i as int));
            i = i + 1;
        }
        assert(items@.take(items@.len() as int) =~= items@);
    }

    fn write_items_nl(&mut self, items: &Vec<BlockItem>)
        requires
            old(self).wf(),
        ensures
            final(self).wf(),
            final(self).out@ == old(self).out@ + pitems_nl(items@, old(self).level()),
            final(self).indent@ == old(self).indent@,
        decreases items@, 1nat,
    {
        let mut i: usize = 0;
        while i < items.len()
            invariant
                i <= items@.len(),
                self.wf(),
                self.indent@ == old(self).indent@,
                self.out@ == old(self).out@ + pitems_nl(items@.take(i as int), old(self).level()),
            decreases items@.len() - i,
        {
            self.nl();
            self.write_block_item(&items[i]);
            assert(items@.take(i + 1).drop_last() =~= items@.take(i as int));
            i = i + 1;
        }
        assert(items@.take(items@.len() as int) =~= items@);
    }

    fn write_value_body(&mut self, v: &Expr)
        requires
            old(self).wf(),
        ensures
            final(self).wf(),
            final(self).out@ == old(self).out@ + pbody(*v, old(self).level()),
            final(self).indent@ == old(self).indent@,
        decreases v, 1nat,
    {
        match &v.node {
            ExprKind::Block(items) => {
                self.indent_in();
                self.write_items_nl(items);
                self.indent_out();
            },
            _ => {
                self.put(' ');
                self.write_expr(v);
            },
        }
    }

    fn write_decls(&mut self, ds: &Vec<Decl>)
        requires
            old(self).wf(),
        ensures
            final(self).wf(),
            final(self).out@ == old(self).out@ + pdecls(ds@, old(self).level()),
            final(self).indent@ == old(self).indent@,
        decreases ds@, 1nat,
    {
        let mut i: usize = 0;
        while i < ds.len()
            invariant
                i <= ds@.len(),
                self.wf(),
                self.indent@ == old(self).indent@,
                self.out@ == old(self).out@ + pdecls(ds@.take(i as int), old(self).level()),
            decreases ds@.len() - i,
        {
            self.nl();
            self.write_decl(&ds[i]);
            assert(ds@.take(i + 1).drop_last() =~= ds@.take(i as int));
            i = i + 1;
        }
        assert(ds@.take(ds@.len() as int) =~= ds@);
    }

    fn write_members(&mut self, ms: &Vec<TypeMember>)
        requires
            old(self).wf(),
        ensures
            final(self).wf(),
            final(self).out@ == old(self).out@ + pmembers(ms@, old(self).level()),
            final(self).indent@ == old(self).indent@,
        decreases ms@, 1nat,
    {
        let mut i: usize = 0;
        while i < ms.len()
            invariant
                i <= ms@.len(),
                self.wf(),
                self.indent@ == old(self).indent@,
                self.out@ == old(self).out@ + pmembers(ms@.take(i as int), old(self).level()),
            decreases ms@.len() - i,
        {
            self.nl();
            self.write_type_member(&ms[i]);
            assert(ms@.take(i + 1).drop_last() =~= ms@.take(i as int));
            i = i + 1;
        }
        assert(ms@.take(ms@.len() as int) =~= ms@);
    }

    fn write_type_member(&mut self, m: &TypeMember)
        requires
            old(self).wf(),
        ensures
            final(self).wf(),
            final(self).out@ == old(self).out@ + pmember(*m, old(self).level()),
            final(self).indent@ == old(self).indent@,
        decreases m, 0nat,
    {
        match m {
            TypeMember::Field { name, ty } => {
                self.push(name.as_str());
                self.push(" : ");
                self.write_type(ty);
            },
            TypeMember::Method(d) => self.write_decl(d),
            TypeMember::Variant { name, body } => {
                self.push(name.as_str());
                match body {
                    VariantBody::Bare => {},
                    VariantBody::Single(t) => {
                        self.push(" : ");
                        self.write_type(t);
                    },
                    VariantBody::Fields(fields) => {
                        self.indent_in();
                        self.write_members(fields);
                        self.indent_out();
                    },
                }
            },
        }
    }

    fn write_decl(&mut self, d: &Decl)
        requires
            old(self).wf(),
        ensures
            final(self).wf(),
            final(self).out@ == old(self).out@ + pdecl(*d, old(self).level()),
            final(self).indent@ == old(self).indent@,
        decreases d, 0nat,
    {
        let ghost o = self.out@;
        let ghost n = self.level();
        match &d.node {
            DeclKind::Binding { name, ty, value } => {
                self.push(name.as_str());
                match ty {
                    Some(t) => {
                        self.push(" : ");
                        self.write_type(t);
                    },
                    None => {},
                }
                match value {
                    Some(v) => {
                        self.push(" =");
                        self.write_value_body(v);
                    },
                    None => {},
                }
            },
            DeclKind::TypeDecl { name, params, body } => {
                self.push("type ");
                self.push(name.as_str());
                self.push_names_sp(params);
                match body {
                    TypeBody::Newtype(t) => {
                        self.push(" = ");
                        self.write_type(t);
                    },
                    TypeBody::Block(members) => {
                        self.indent_in();
                        self.write_members(members);
                        self.indent_out();
                    },
                }
            },
            DeclKind::TraitDecl { name, type_var, methods } => {
                self.push("trait ");
                self.push(name.as_str());
                self.put(' ');
                self.push(type_var.as_str());
                self.indent_in();
                self.write_decls(methods);
                self.indent_out();
            },
            DeclKind::ImplDecl { trait_name, target, methods } => {
                self.push("impl ");
                self.push(trait_name.as_str());
                self.put(' ');
                self.write_type(target);
                self.indent_in();
                self.write_decls(methods);
                self.indent_out();
            },
            DeclKind::Use { path, kind } => self.write_use(path, kind),
        }
        assert(self.out@ =~= o + pdecl(*d, n));
    }

    fn push_names_sp(&mut self, names: &Vec<String>)
        ensures
            final(self).out@ == old(self).out@ + crate::ast::print::names_sp(names@),
            final(self).indent@ == old(self).indent@,
    {
        let mut i: usize = 0;
        while i < names.len()
            invariant
                i <= names@.len(),
                self.indent@ == old(self).indent@,
                self.out@ == old(self).out@ + crate::ast::print::names_sp(names@.take(i as int)),
            decreases names@.len() - i,
        {
            self.put(' ');
            self.push(names[i].as_str());
            assert(names@.take(i + 1).drop_last() =~= names@.take(i as int));
            i = i + 1;
        }
        assert(names@.take(names@.len() as int) =~= names@);
    }

    fn write_use(&mut self, path: &Vec<String>, kind: &UseKind)
        ensures
            final(self).out@ == old(self).out@ + "use "@ + joined(path@, "."@) + match *kind {
                UseKind::Whole => seq![],
                UseKind::Alias(a) => " as "@ + a@,
                UseKind::Cherry(names) => " ("@ + joined(names@, ", "@) + seq![')'],
            },
            final(self).indent@ == old(self).indent@,
    {
        let ghost o = self.out@;
        self.push("use ");
        self.push_joined(path, ".");
        match kind {
            UseKind::Whole => {},
            UseKind::Alias(a) => {
                self.push(" as ");
                self.push(a.as_str());
            },
            UseKind::Cherry(names) => {
                self.push(" (");
                self.push_joined(names, ", ");
                self.put(')');
            },
        }
    }

    fn write_expose(&mut self, e: &Expose)
        ensures
            final(self).out@ == old(self).out@ + pexpose(*e),
            final(self).indent@ == old(self).indent@,
    {
        match e {
            Expose::Value(n) => self.push(n.as_str()),
            Expose::Type { name, with_constructors } => {
                self.push(name.as_str());
                if *with_constructors {
                    self.push("(..)");
                }
            },
        }
    }

    fn write_module_header(&mut self, m: &ModuleHeader)
        requires
            old(self).wf(),
            old(self).level() == 0,
        ensures
            final(self).wf(),
            final(self).level() == 0,
            final(self).out@ == old(self).out@ + pheader(*m),
    {
        let ghost o = self.out@;
        self.push("module ");
        self.push_joined(&m.name, ".");
        self.indent_in();
        self.nl();
        self.push("expose ");
        let ghost before = self.out@;
        let mut i: usize = 0;
        while i < m.exposes.len()
            invariant
                i <= m.exposes@.len(),
                self.wf(),
                self.level() == 4,
                self.out@ == before + pexposes(m.exposes@.take(i as int)),
            decreases m.exposes@.len() - i,
        {
            if i > 0 {
                self.push(", ");
            }
            self.write_expose(&m.exposes[i]);
            assert(m.exposes@.take(i + 1).drop_last() =~= m.exposes@.take(i as int));
            i = i + 1;
        }
        assert(m.exposes@.take(m.exposes@.len() as int) =~= m.exposes@);
        self.indent_out();
        assert(self.out@ =~= o + pheader(*m));
    }

    fn write_file(&mut self, file: &File)
        requires
            old(self).wf(),
            old(self).level() == 0,
        ensures
            final(self).out@ == old(self).out@ + pfile(*file),
    {
        let ghost o = self.out@;
        match &file.module {
            Some(m) => {
                self.write_module_header(m);
                self.put('\n');
            },
            None => {},
        }
        let ghost before = self.out@;
        assert(before =~= o + pmodule(file.module));
        let mut i: usize = 0;
        while i < file.decls.len()
            invariant
                i <= file.decls@.len(),
                self.wf(),
                self.level() == 0,
                self.out@ == before + pdecls_lines(file.decls@.take(i as int)),
            decreases file.decls@.len() - i,
        {
            self.write_decl(&file.decls[i]);
            self.put('\n');
            assert(file.decls@.take(i + 1).drop_last() =~= file.decls@.take(i as int));
            i = i + 1;
        }
        assert(file.decls@.take(file.decls@.len() as int) =~= file.decls@);
        assert(self.out@ =~= o + pfile(*file));
    }
}

/// Prints a file back in source form, four spaces per indentation level.
pub fn pretty(file: &File) -> (s: String)
    ensures
        s@ == pfile(*file),
{
    let mut p = Printer::new();
    p.write_file(file);
    p.out
}

} // verus!
