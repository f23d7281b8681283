//! The S-expression rendering of syntax trees, used to compare parses.
use vstd::prelude::*;
use crate::ast::{
    BinOp, BlockItem, Decl, DeclKind, EffectRow, Expose, Expr, ExprKind, FieldPat, File, KwArg,
    LitPat, MatchArm, Pattern, PatternKind, Type, TypeBody, TypeKind, TypeMember, UnaryOp,
    UseKind, VariantBody,
};
use crate::text::{int_text, push_char, push_i64, push_str};
use crate::token::{float_display, push_float_display};

verus! {

// ---------------------------------------------------------------------------
// Text pieces

pub open spec fn spaces(n: nat) -> Seq<char> {
    Seq::new(n, |_i: int| ' ')
}

/// A line break followed by `n` spaces of indentation.
pub open spec fn nl(n: nat) -> Seq<char> {
    seq!['\n'] + spaces(n)
}

pub open spec fn binop_text(op: BinOp) -> Seq<char> {
    match op {
        BinOp::Add => "+"@,
        BinOp::Sub => "-"@,
        BinOp::Mul => "*"@,
        BinOp::Div => "/"@,
        BinOp::Pow => "^"@,
        BinOp::Eq => "=="@,
        BinOp::Ne => "!="@,
        BinOp::Lt => "<"@,
        BinOp::Le => "<="@,
        BinOp::Gt => ">"@,
        BinOp::Ge => ">="@,
        BinOp::Concat => "++"@,
        BinOp::And => "and"@,
        BinOp::Or => "or"@,
        BinOp::Xor => "xor"@,
    }
}

pub open spec fn unaryop_text(op: UnaryOp) -> Seq<char> {
    match op {
        UnaryOp::Neg => "neg"@,
        UnaryOp::Not => "not"@,
    }
}

/// The operator's name in the S-expression form.
pub fn binop_name(op: &BinOp) -> (s: &'static str)
    ensures
        s@ == binop_text(*op),
{
    match op {
        BinOp::Add => "+",
        BinOp::Sub => "-",
        BinOp::Mul => "*",
        BinOp::Div => "/",
        BinOp::Pow => "^",
        BinOp::Eq => "==",
        BinOp::Ne => "!=",
        BinOp::Lt => "<",
        BinOp::Le => "<=",
        BinOp::Gt => ">",
        BinOp::Ge => ">=",
        BinOp::Concat => "++",
        BinOp::And => "and",
        BinOp::Or => "or",
        BinOp::Xor => "xor",
    }
}

pub fn unaryop_name(op: &UnaryOp) -> (s: &'static str)
    ensures
        s@ == unaryop_text(*op),
{
    match op {
        UnaryOp::Neg => "neg",
        UnaryOp::Not => "not",
    }
}

/// The strings of `s` joined with `sep`.
pub open spec fn joined(s: Seq<String>, sep: Seq<char>) -> Seq<char>
    decreases s.len(),
{
    if s.len() == 0 {
        seq![]
    } else if s.len() == 1 {
        s[0]@
    } else {
        joined(s.drop_last(), sep) + sep + s.last()@
    }
}

// ---------------------------------------------------------------------------
// Types and patterns (printed on one line)

pub open spec fn type_text(t: Type) -> Seq<char>
    decreases t, 0nat,
{
    type_kind_text(t.node)
}

pub open spec fn type_kind_text(k: TypeKind) -> Seq<char>
    decreases k, 0nat,
{
    match k {
        TypeKind::Var(n) => "(tvar "@ + n@ + seq![')'],
        TypeKind::Named { name, args } => "(tnamed "@ + name@ + types_sp(args@) + seq![')'],
        TypeKind::Function { params, effect, result } => "(tfun"@ + types_sp(params@)
            + match effect {
            Some(e) => seq![' '] + effect_text(e),
            None => seq![],
        } + seq![' '] + type_text(*result) + seq![')'],
        TypeKind::Tuple(ts) => "(ttuple"@ + types_sp(ts@) + seq![')'],
    }
}

/// Each type preceded by a space.
pub open spec fn types_sp(s: Seq<Type>) -> Seq<char>
    decreases s, 1nat,
{
    if s.len() == 0 {
        seq![]
    } else {
        types_sp(s.drop_last()) + seq![' '] + type_text(s.last())
    }
}

pub open spec fn names_sp(s: Seq<String>) -> Seq<char>
    decreases s.len(),
{
    if s.len() == 0 {
        seq![]
    } else {
        names_sp(s.drop_last()) + seq![' '] + s.last()@
    }
}

pub open spec fn effect_text(e: EffectRow) -> Seq<char> {
    match e {
        EffectRow::Empty => "(eff-empty)"@,
        EffectRow::Named(names) => "(eff"@ + names_sp(names@) + seq![')'],
    }
}

pub open spec fn lit_text(l: LitPat) -> Seq<char> {
    match l {
        LitPat::Int(n) => "(int "@ + int_text(n as int) + seq![')'],
        LitPat::Float(f) => "(float "@ + float_display(f@) + seq![')'],
        LitPat::Str(s) => "(str \""@ + s@ + "\")"@,
    }
}

pub open spec fn pat_text(p: Pattern) -> Seq<char>
    decreases p, 0nat,
{
    pat_kind_text(p.node)
}

pub open spec fn pat_kind_text(k: PatternKind) -> Seq<char>
    decreases k, 0nat,
{
    match k {
        PatternKind::Wildcard => "(wild)"@,
        PatternKind::Var(n) => "(pvar "@ + n@ + seq![')'],
        PatternKind::Lit(l) => "(plit "@ + lit_text(l) + seq![')'],
        PatternKind::Ctor { name, args } => "(pctor "@ + name@ + pats_sp(args@) + seq![')'],
        PatternKind::Record { ty_name, fields } => "(precord "@ + ty_name@ + fieldpats_text(
            fields@,
        ) + seq![')'],
        PatternKind::Tuple(ps) => "(ptuple"@ + pats_sp(ps@) + seq![')'],
        PatternKind::List(ps) => "(plist"@ + pats_sp(ps@) + seq![')'],
    }
}

/// Each pattern preceded by a space.
pub open spec fn pats_sp(s: Seq<Pattern>) -> Seq<char>
    decreases s, 1nat,
{
    if s.len() == 0 {
        seq![]
    } else {
        pats_sp(s.drop_last()) + seq![' '] + pat_text(s.last())
    }
}

/// The patterns separated by spaces.
pub open spec fn pats_joined(s: Seq<Pattern>) -> Seq<char>
    decreases s, 1nat,
{
    if s.len() == 0 {
        seq![]
    } else if s.len() == 1 {
        pat_text(s[0])
    } else {
        pats_joined(s.drop_last()) + seq![' '] + pat_text(s.last())
    }
}

pub open spec fn fieldpats_text(s: Seq<FieldPat>) -> Seq<char>
    decreases s, 1nat,
{
    if s.len() == 0 {
        seq![]
    } else {
        fieldpats_text(s.drop_last()) + " (pf "@ + s.last().field@ + seq![' '] + pat_text(
            s.last().pattern,
        ) + seq![')']
    }
}

// ---------------------------------------------------------------------------
// Expressions and declarations (indented by `n` spaces)

/// The indentation one level deeper.
pub open spec fn deeper(n: nat) -> nat {
    n + 2
}

pub open spec fn expr_text(e: Expr, n: nat) -> Seq<char>
    decreases e, 0nat,
{
    kind_text(e.node, n)
}

pub open spec fn kind_text(k: ExprKind, n: nat) -> Seq<char>
    decreases k, 0nat,
{
    match k {
        ExprKind::IntLit(v) => "(int "@ + int_text(v as int) + seq![')'],
        ExprKind::FloatLit(f) => "(float "@ + float_display(f@) + seq![')'],
        ExprKind::StringLit(s) => "(str \""@ + s@ + "\")"@,
        ExprKind::Var(v) => "(var "@ + v@ + seq![')'],
        ExprKind::Ctor(c) => "(ctor "@ + c@ + seq![')'],
        ExprKind::List(items) => "(list"@ + exprs_sp(items@, n) + seq![')'],
        ExprKind::Paren(inner) => "(paren "@ + expr_text(*inner, n) + seq![')'],
        ExprKind::BinOp { op, lhs, rhs } => seq!['('] + binop_text(op) + seq![' '] + expr_text(
            *lhs,
            n,
        ) + seq![' '] + expr_text(*rhs, n) + seq![')'],
        ExprKind::UnaryOp { op, expr } => seq!['('] + unaryop_text(op) + seq![' '] + expr_text(
            *expr,
            n,
        ) + seq![')'],
        ExprKind::Lambda { params, body } => "(lambda ("@ + pats_joined(params@) + ") "@
            + expr_text(*body, n) + seq![')'],
        ExprKind::Call { func, args } => "(call "@ + expr_text(*func, n) + exprs_sp(args@, n)
            + seq![')'],
        ExprKind::MethodCall { receiver, method } => "(method "@ + expr_text(*receiver, n)
            + seq![' '] + method@ + seq![')'],
        ExprKind::FieldAccess { receiver, field } => "(. "@ + expr_text(*receiver, n) + seq![' ']
            + field@ + seq![')'],
        ExprKind::Construct { ty_name, fields } => "(construct "@ + ty_name@ + kwargs_sp(
            fields@,
            n,
        ) + seq![')'],
        ExprKind::Update { value, fields } => "(update "@ + expr_text(*value, n) + kwargs_sp(
            fields@,
            n,
        ) + seq![')'],
        ExprKind::Bang(e) => "(! "@ + expr_text(*e, n) + seq![')'],
        ExprKind::Question(e) => "(? "@ + expr_text(*e, n) + seq![')'],
        ExprKind::Match { scrutinee, arms } => "(match "@ + expr_text(*scrutinee, n) + " ("@
            + arms_text(arms@, n) + "))"@,
        ExprKind::Block(items) => "(block"@ + items_text(items@, deeper(n)) + seq![')'],
    }
}

/// Each expression preceded by a space.
pub open spec fn exprs_sp(s: Seq<Expr>, n: nat) -> Seq<char>
    decreases s, 1nat,
{
    if s.len() == 0 {
        seq![]
    } else {
        exprs_sp(s.drop_last(), n) + seq![' '] + expr_text(s.last(), n)
    }
}

pub open spec fn kwarg_text(kw: KwArg, n: nat) -> Seq<char>
    decreases kw, 0nat,
{
    "(kw "@ + kw.name@ + seq![' '] + expr_text(kw.value, n) + seq![')']
}

/// Each keyword argument preceded by a space.
pub open spec fn kwargs_sp(s: Seq<KwArg>, n: nat) -> Seq<char>
    decreases s, 1nat,
{
    if s.len() == 0 {
        seq![]
    } else {
        kwargs_sp(s.drop_last(), n) + seq![' '] + kwarg_text(s.last(), n)
    }
}

pub open spec fn arm_text(a: MatchArm, n: nat) -> Seq<char>
    decreases a, 0nat,
{
    "(arm "@ + pat_text(a.pattern) + seq![' '] + expr_text(a.body, n) + seq![')']
}

/// The arms separated by spaces.
pub open spec fn arms_text(s: Seq<MatchArm>, n: nat) -> Seq<char>
    decreases s, 1nat,
{
    if s.len() == 0 {
        seq![]
    } else if s.len() == 1 {
        arm_text(s[0], n)
    } else {
        arms_text(s.drop_last(), n) + seq![' '] + arm_text(s.last(), n)
    }
}

pub open spec fn item_text(it: BlockItem, n: nat) -> Seq<char>
    decreases it, 0nat,
{
    match it {
        BlockItem::Binding(d) => decl_text(d, n),
        BlockItem::Expr(e) => expr_text(e, n),
    }
}

/// Each block item on a line of its own at indentation `n`.
pub open spec fn items_text(s: Seq<BlockItem>, n: nat) -> Seq<char>
    decreases s, 1nat,
{
    if s.len() == 0 {
        seq![]
    } else {
        items_text(s.drop_last(), n) + nl(n) + item_text(s.last(), n)
    }
}

pub open spec fn decl_text(d: Decl, n: nat) -> Seq<char>
    decreases d, 0nat,
{
    match d.node {
        DeclKind::Binding { name, ty, value } => match value {
            None => "(sig "@ + name@ + match ty {
                Some(t) => seq![' '] + type_text(t),
                None => seq![],
            } + seq![')'],
            Some(v) => "(let "@ + name@ + match ty {
                Some(t) => " : "@ + type_text(t),
                None => seq![],
            } + seq![' '] + expr_text(v, n) + seq![')'],
        },
        DeclKind::TypeDecl { name, params, body } => "(type "@ + name@ + names_sp(params@)
            + match body {
            TypeBody::Newtype(t) => seq![' '] + type_text(t) + seq![')'],
            TypeBody::Block(members) => members_text(members@, deeper(n)) + seq![')'],
        },
        DeclKind::TraitDecl { name, type_var, methods } => "(trait "@ + name@ + seq![' ']
            + type_var@ + decls_text(methods@, deeper(n)) + seq![')'],
        DeclKind::ImplDecl { trait_name, target, methods } => "(impl "@ + trait_name@ + seq![' ']
            + type_text(target) + decls_text(methods@, deeper(n)) + seq![')'],
        DeclKind::Use { path, kind } => "(use "@ + joined(path@, "."@) + match kind {
            UseKind::Whole => " whole"@,
            UseKind::Cherry(names) => " (cherry"@ + names_sp(names@) + seq![')'],
            UseKind::Alias(a) => " (alias "@ + a@ + seq![')'],
        } + seq![')'],
    }
}

/// Each declaration on a line of its own at indentation `n`.
pub open spec fn decls_text(s: Seq<Decl>, n: nat) -> Seq<char>
    decreases s, 1nat,
{
    if s.len() == 0 {
        seq![]
    } else {
        decls_text(s.drop_last(), n) + nl(n) + decl_text(s.last(), n)
    }
}

pub open spec fn member_text(m: TypeMember, n: nat) -> Seq<char>
    decreases m, 0nat,
{
    match m {
        TypeMember::Field { name, ty } => "(field "@ + name@ + seq![' '] + type_text(ty) + seq![
            ')',
        ],
        TypeMember::Method(d) => decl_text(d, n),
        TypeMember::Variant { name, body } => "(variant "@ + name@ + match body {
            VariantBody::Bare => seq![],
            VariantBody::Single(t) => seq![' '] + type_text(t),
            VariantBody::Fields(ms) => members_text(ms@, deeper(n)),
        } + seq![')'],
    }
}

/// Each member on a line of its own at indentation `n`.
pub open spec fn members_text(s: Seq<TypeMember>, n: nat) -> Seq<char>
    decreases s, 1nat,
{
    if s.len() == 0 {
        seq![]
    } else {
        members_text(s.drop_last(), n) + nl(n) + member_text(s.last(), n)
    }
}

pub open spec fn expose_text(e: Expose) -> Seq<char> {
    match e {
        Expose::Value(v) => "(expose-val "@ + v@ + seq![')'],
        Expose::Type { name, with_constructors } => "(expose-type "@ + name@ + if with_constructors {
            " *"@
        } else {
            seq![]
        } + seq![')'],
    }
}

pub open spec fn exposes_text(s: Seq<Expose>) -> Seq<char>
    decreases s.len(),
{
    if s.len() == 0 {
        seq![]
    } else {
        exposes_text(s.drop_last()) + seq![' '] + expose_text(s.last())
    }
}

/// The S-expression form of a whole file.
pub open spec fn file_text(f: File) -> Seq<char> {
    "(file"@ + match f.module {
        Some(m) => nl(2) + "(module "@ + joined(m.name@, "."@) + exposes_text(m.exposes@)
            + seq![')'],
        None => seq![],
    } + decls_text(f.decls@, 2) + seq![')']
}


// ---------------------------------------------------------------------------
// The printer

/// Builds the S-expression text; `indent` holds the spaces that start a
/// new line.
pub struct Printer {
    pub out: String,
    pub indent: Vec<char>,
}

impl Printer {
    pub open spec fn wf(&self) -> bool {
        self.indent@ == spaces(self.indent@.len())
    }

    pub open spec fn level(&self) -> nat {
        self.indent@.len()
    }

    pub fn new() -> (p: Printer)
        ensures
            p.wf(),
            p.out@ == Seq::<char>::empty(),
            p.level() == 0,
    {
        let p = Printer { out: String::new(), indent: Vec::new() };
        assert(p.indent@ =~= spaces(0));
        p
    }

    pub fn push(&mut self, s: &str)
        ensures
            final(self).out@ == old(self).out@ + s@,
            final(self).indent@ == old(self).indent@,
    {
        push_str(&mut self.out, s);
    }

    pub fn put(&mut self, c: char)
        ensures
            final(self).out@ == old(self).out@ + seq![c],
            final(self).indent@ == old(self).indent@,
    {
        push_char(&mut self.out, c);
    }

    /// Starts a new line at the current indentation.
    pub fn nl(&mut self)
        requires
            old(self).wf(),
        ensures
            final(self).out@ == old(self).out@ + nl(old(self).level()),
            final(self).indent@ == old(self).indent@,
    {
        push_char(&mut self.out, '\n');
        let mut i: usize = 0;
        while i < self.indent.len()
            invariant
                i <= self.indent@.len(),
                self.indent@ == old(self).indent@,
                self.wf(),
                self.out@ == old(self).out@ + seq!['\n'] + spaces(i as nat),
            decreases self.indent@.len() - i,
        {
            push_char(&mut self.out, ' ');
            assert(spaces((i + 1) as nat) =~= spaces(i as nat).push(' '));
            i = i + 1;
        }
        assert(old(self).out@ + nl(old(self).level()) =~= old(self).out@ + seq!['\n'] + spaces(
            i as nat,
        ));
    }

    pub fn indent_in(&mut self)
        requires
            old(self).wf(),
        ensures
            final(self).wf(),
            final(self).level() == deeper(old(self).level()),
            final(self).out@ == old(self).out@,
    {
        self.indent.push(' ');
        self.indent.push(' ');
        assert(self.indent@ =~= spaces(self.indent@.len()));
    }

    pub fn indent_out(&mut self)
        requires
            old(self).wf(),
        ensures
            final(self).wf(),
            final(self).level() == if old(self).level() >= 2 {
                (old(self).level() - 2) as nat
            } else {
                0
            },
            final(self).out@ == old(self).out@,
    {
        if self.indent.len() >= 2 {
            self.indent.pop();
            self.indent.pop();
        } else {
            self.indent.clear();
        }
        assert(self.indent@ =~= spaces(self.indent@.len()));
    }

    fn push_names_sp(&mut self, names: &Vec<String>)
        ensures
            final(self).out@ == old(self).out@ + names_sp(names@),
            final(self).indent@ == old(self).indent@,
    {
        let mut i: usize = 0;
        while i < names.len()
            invariant
                i <= names@.len(),
                self.indent@ == old(self).indent@,
                self.out@ == old(self).out@ + names_sp(names@.take(i as int)),
            decreases names@.len() - i,
        {
            self.put(' ');
            self.push(names[i].as_str());
            assert(names@.take(i + 1).drop_last() =~= names@.take(i as int));
            i = i + 1;
        }
        assert(names@.take(names@.len() as int) =~= names@);
    }

    fn push_joined(&mut self, names: &Vec<String>, sep: &str)
        ensures
            final(self).out@ == old(self).out@ + joined(names@, sep@),
            final(self).indent@ == old(self).indent@,
    {
        let mut i: usize = 0;
        while i < names.len()
            invariant
                i <= names@.len(),
                self.indent@ == old(self).indent@,
                self.out@ == old(self).out@ + joined(names@.take(i as int), sep@),
            decreases names@.len() - i,
        {
            if i > 0 {
                self.push(sep);
            }
            self.push(names[i].as_str());
            assert(names@.take(i + 1).drop_last() =~= names@.take(i as int));
            i = i + 1;
        }
        assert(names@.take(names@.len() as int) =~= names@);
    }

    fn write_type(&mut self, ty: &Type)
        ensures
            final(self).out@ == old(self).out@ + type_text(*ty),
            final(self).indent@ == old(self).indent@,
        decreases ty, 0nat,
    {
        self.write_type_kind(&ty.node);
    }

    fn write_type_kind(&mut self, kind: &TypeKind)
        ensures
            final(self).out@ == old(self).out@ + type_kind_text(*kind),
            final(self).indent@ == old(self).indent@,
        decreases kind, 0nat,
    {
        match kind {
            TypeKind::Var(n) => {
                self.push("(tvar ");
                self.push(n.as_str());
                self.put(')');
            },
            TypeKind::Named { name, args } => {
                self.push("(tnamed ");
                self.push(name.as_str());
                self.write_types_sp(args);
                self.put(')');
            },
            TypeKind::Function { params, effect, result } => {
                self.push("(tfun");
                self.write_types_sp(params);
                match effect {
                    Some(e) => {
                        self.put(' ');
                        self.write_effect(e);
                    },
                    None => {},
                }
                self.put(' ');
                self.write_type(result);
                self.put(')');
            },
            TypeKind::Tuple(types) => {
                self.push("(ttuple");
                self.write_types_sp(types);
                self.put(')');
            },
        }
    }

    fn write_types_sp(&mut self, ts: &Vec<Type>)
        ensures
            final(self).out@ == old(self).out@ + types_sp(ts@),
            final(self).indent@ == old(self).indent@,
        decreases ts@, 1nat,
    {
        let mut i: usize = 0;
        while i < ts.len()
            invariant
                i <= ts@.len(),
                self.indent@ == old(self).indent@,
                self.out@ == old(self).out@ + types_sp(ts@.take(i as int)),
            decreases ts@.len() - i,
        {
            self.put(' ');
            self.write_type(&ts[i]);
            assert(ts@.take(i + 1).drop_last() =~= ts@.take(i as int));
            i = i + 1;
        }
        assert(ts@.take(ts@.len() as int) =~= ts@);
    }

    fn write_effect(&mut self, e: &EffectRow)
        ensures
            final(self).out@ == old(self).out@ + effect_text(*e),
            final(self).indent@ == old(self).indent@,
    {
        match e {
            EffectRow::Empty => self.push("(eff-empty)"),
            EffectRow::Named(names) => {
                self.push("(eff");
                self.push_names_sp(names);
                self.put(')');
            },
        }
    }

    fn write_lit(&mut self, l: &LitPat)
        ensures
            final(self).out@ == old(self).out@ + lit_text(*l),
            final(self).indent@ == old(self).indent@,
    {
        match l {
            LitPat::Int(n) => {
                self.push("(int ");
                push_i64(&mut self.out, *n);
                self.put(')');
            },
            LitPat::Float(f) => {
                self.push("(float ");
                push_float_display(&mut self.out, f);
                self.put(')');
            },
            LitPat::Str(s) => {
                self.push("(str \"");
                self.push(s.as_str());
                self.push("\")");
            },
        }
    }

    fn write_pattern(&mut self, pat: &Pattern)
        ensures
            final(self).out@ == old(self).out@ + pat_text(*pat),
            final(self).indent@ == old(self).indent@,
        decreases pat, 0nat,
    {
        self.write_pattern_kind(&pat.node);
    }

    fn write_pattern_kind(&mut self, kind: &PatternKind)
        ensures
            final(self).out@ == old(self).out@ + pat_kind_text(*kind),
            final(self).indent@ == old(self).indent@,
        decreases kind, 0nat,
    {
        match kind {
            PatternKind::Wildcard => self.push("(wild)"),
            PatternKind::Var(n) => {
                self.push("(pvar ");
                self.push(n.as_str());
                self.put(')');
            },
            PatternKind::Lit(l) => {
                self.push("(plit ");
                self.write_lit(l);
                self.put(')');
            },
            PatternKind::Ctor { name, args } => {
                self.push("(pctor ");
                self.push(name.as_str());
                self.write_pats_sp(args);
                self.put(')');
            },
            PatternKind::Record { ty_name, fields } => {
                self.push("(precord ");
                self.push(ty_name.as_str());
                self.write_fieldpats(fields);
                self.put(')');
            },
            PatternKind::Tuple(pats) => {
                self.push("(ptuple");
                self.write_pats_sp(pats);
                self.put(')');
            },
            PatternKind::List(pats) => {
                self.push("(plist");
                self.write_pats_sp(pats);
                self.put(')');
            },
        }
    }

    fn write_pats_sp(&mut self, ps: &Vec<Pattern>)
        ensures
            final(self).out@ == old(self).out@ + pats_sp(ps@),
            final(self).indent@ == old(self).indent@,
        decreases ps@, 1nat,
    {
        let mut i: usize = 0;
        while i < ps.len()
            invariant
                i <= ps@.len(),
                self.indent@ == old(self).indent@,
                self.out@ == old(self).out@ + pats_sp(ps@.take(i as int)),
            decreases ps@.len() - i,
        {
            self.put(' ');
            self.write_pattern(&ps[i]);
            assert(ps@.take(i + 1).drop_last() =~= ps@.take(i as int));
            i = i + 1;
        }
        assert(ps@.take(ps@.len() as int) =~= ps@);
    }

    fn write_pats_joined(&mut self, ps: &Vec<Pattern>)
        ensures
            final(self).out@ == old(self).out@ + pats_joined(ps@),
            final(self).indent@ == old(self).indent@,
        decreases ps@, 1nat,
    {
        let mut i: usize = 0;
        while i < ps.len()
            invariant
                i <= ps@.len(),
                self.indent@ == old(self).indent@,
                self.out@ == old(self).out@ + pats_joined(ps@.take(i as int)),
            decreases ps@.len() - i,
        {
            if i > 0 {
                self.put(' ');
            }
            self.write_pattern(&ps[i]);
            assert(ps@.take(i + 1).drop_last() =~= ps@.take(i as int));
            i = i + 1;
        }
        assert(ps@.take(ps@.len() as int) =~= ps@);
    }

    fn write_fieldpats(&mut self, fs: &Vec<FieldPat>)
        ensures
            final(self).out@ == old(self).out@ + fieldpats_text(fs@),
            final(self).indent@ == old(self).indent@,
        decreases fs@, 1nat,
    {
        let mut i: usize = 0;
        while i < fs.len()
            invariant
                i <= fs@.len(),
                self.indent@ == old(self).indent@,
                self.out@ == old(self).out@ + fieldpats_text(fs@.take(i as int)),
            decreases fs@.len() - i,
        {
            self.push(" (pf ");
            self.push(fs[i].field.as_str());
            self.put(' ');
            self.write_pattern(&fs[i].pattern);
            self.put(')');
            assert(fs@.take(i + 1).drop_last() =~= fs@.take(i as int));
            i = i + 1;
        }
        assert(fs@.take(fs@.len() as int) =~= fs@);
    }

    fn write_expr(&mut self, expr: &Expr)
        requires
            old(self).wf(),
        ensures
            final(self).wf(),
            final(self).out@ == old(self).out@ + expr_text(*expr, old(self).level()),
            final(self).indent@ == old(self).indent@,
        decreases expr, 0nat,
    {
        self.write_expr_kind(&expr.node);
    }

    /// Writes a child at one level deeper indentation, then returns to this one.
    fn write_exprs_sp(&mut self, es: &Vec<Expr>)
        requires
            old(self).wf(),
        ensures
            final(self).wf(),
            final(self).out@ == old(self).out@ + exprs_sp(es@, old(self).level()),
            final(self).indent@ == old(self).indent@,
        decreases es@, 1nat,
    {
        let mut i: usize = 0;
        while i < es.len()
            invariant
                i <= es@.len(),
                self.wf(),
                self.indent@ == old(self).indent@,
                self.out@ == old(self).out@ + exprs_sp(es@.take(i as int), old(self).level()),
            decreases es@.len() - i,
        {
            self.put(' ');
            self.write_expr(&es[i]);
            assert(es@.take(i + 1).drop_last() =~= es@.take(i as int));
            i = i + 1;
        }
        assert(es@.take(es@.len() as int) =~= es@);
    }

    fn write_kwarg(&mut self, kw: &KwArg)
        requires
            old(self).wf(),
        ensures
            final(self).wf(),
            final(self).out@ == old(self).out@ + kwarg_text(*kw, old(self).level()),
            final(self).indent@ == old(self).indent@,
        decreases kw, 0nat,
    {
        self.push("(kw ");
        self.push(kw.name.as_str());
        self.put(' ');
        self.write_expr(&kw.value);
        self.put(')');
    }

    fn write_kwargs_sp(&mut self, ks: &Vec<KwArg>)
        requires
            old(self).wf(),
        ensures
            final(self).wf(),
            final(self).out@ == old(self).out@ + kwargs_sp(ks@, old(self).level()),
            final(self).indent@ == old(self).indent@,
        decreases ks@, 1nat,
    {
        let mut i: usize = 0;
        while i < ks.len()
            invariant
                i <= ks@.len(),
                self.wf(),
                self.indent@ == old(self).indent@,
                self.out@ == old(self).out@ + kwargs_sp(ks@.take(i as int), old(self).level()),
            decreases ks@.len() - i,
        {
            self.put(' ');
            self.write_kwarg(&ks[i]);
            assert(ks@.take(i + 1).drop_last() =~= ks@.take(i as int));
            i = i + 1;
        }
        assert(ks@.take(ks@.len() as int) =~= ks@);
    }

    /// Writes the arms separated by spaces.
    fn write_arms(&mut self, arms: &Vec<MatchArm>)
        requires
            old(self).wf(),
        ensures
            final(self).wf(),
            final(self).out@ == old(self).out@ + arms_text(arms@, old(self).level()),
            final(self).indent@ == old(self).indent@,
        decreases arms@, 1nat,
    {
        let mut i: usize = 0;
        while i < arms.len()
            invariant
                i <= arms@.len(),
                self.wf(),
                self.indent@ == old(self).indent@,
                self.out@ == old(self).out@ + arms_text(arms@.take(i as int), old(self).level()),
            decreases arms@.len() - i,
        {
            let arm = &arms[i];
            if i > 0 {
                self.put(' ');
            }
            let ghost o = self.out@;
            self.push("(arm ");
            self.write_pattern(&arm.pattern);
            self.put(' ');
            self.write_expr(&arm.body);
            self.put(')');
            assert(self.out@ =~= o + arm_text(*arm, old(self).level()));
            assert(arms@.take(i + 1).drop_last() =~= arms@.take(i as int));
            assert(arms@.take(i + 1).last() == *arm);
            i = i + 1;
        }
        assert(arms@.take(arms@.len() as int) =~= arms@);
    }

    fn write_block_items(&mut self, items: &Vec<BlockItem>)
        requires
            old(self).wf(),
        ensures
            final(self).wf(),
            final(self).out@ == old(self).out@ + items_text(items@, old(self).level()),
            final(self).indent@ == old(self).indent@,
        decreases items@, 1nat,
    {
        let mut i: usize = 0;
        while i < items.len()
            invariant
                i <= items@.len(),
                self.wf(),
                self.indent@ == old(self).indent@,
                self.out@ == old(self).out@ + items_text(items@.take(i as int), old(self).level()),
            decreases items@.len() - i,
        {
            self.nl();
            self.write_block_item(&items[i]);
            assert(items@.take(i + 1).drop_last() =~= items@.take(i as int));
            i = i + 1;
        }
        assert(items@.take(items@.len() as int) =~= items@);
    }

    fn write_block_item(&mut self, item: &BlockItem)
        requires
            old(self).wf(),
        ensures
            final(self).wf(),
            final(self).out@ == old(self).out@ + item_text(*item, old(self).level()),
            final(self).indent@ == old(self).indent@,
        decreases item, 0nat,
    {
        match item {
            BlockItem::Binding(d) => self.write_decl(d),
            BlockItem::Expr(e) => self.write_expr(e),
        }
    }

    fn write_expr_kind(&mut self, kind: &ExprKind)
        requires
            old(self).wf(),
        ensures
            final(self).wf(),
            final(self).out@ == old(self).out@ + kind_text(*kind, old(self).level()),
            final(self).indent@ == old(self).indent@,
        decreases kind, 0nat,
    {
        match kind {
            ExprKind::IntLit(n) => {
                self.push("(int ");
                push_i64(&mut self.out, *n);
                self.put(')');
            },
            ExprKind::FloatLit(f) => {
                self.push("(float ");
                push_float_display(&mut self.out, f);
                self.put(')');
            },
            ExprKind::StringLit(s) => {
                self.push("(str \"");
                self.push(s.as_str());
                self.push("\")");
            },
            ExprKind::Var(n) => {
                self.push("(var ");
                self.push(n.as_str());
                self.put(')');
            },
            ExprKind::Ctor(n) => {
                self.push("(ctor ");
                self.push(n.as_str());
                self.put(')');
            },
            ExprKind::List(items) => {
                self.push("(list");
                self.write_exprs_sp(items);
                self.put(')');
            },
            ExprKind::Paren(inner) => {
                self.push("(paren ");
                self.write_expr(inner);
                self.put(')');
            },
            ExprKind::BinOp { op, lhs, rhs } => {
                self.put('(');
                self.push(binop_name(op));
                self.put(' ');
                self.write_expr(lhs);
                self.put(' ');
                self.write_expr(rhs);
                self.put(')');
            },
            ExprKind::UnaryOp { op, expr } => {
                self.put('(');
                self.push(unaryop_name(op));
                self.put(' ');
                self.write_expr(expr);
                self.put(')');
            },
            ExprKind::Lambda { params, body } => {
                self.push("(lambda (");
                self.write_pats_joined(params);
                self.push(") ");
                self.write_expr(body);
                self.put(')');
            },
            ExprKind::Call { func, args } => {
                self.push("(call ");
                self.write_expr(func);
                self.write_exprs_sp(args);
                self.put(')');
            },
            ExprKind::MethodCall { receiver, method } => {
                self.push("(method ");
                self.write_expr(receiver);
                self.put(' ');
                self.push(method.as_str());
                self.put(')');
            },
            ExprKind::FieldAccess { receiver, field } => {
                self.push("(. ");
                self.write_expr(receiver);
                self.put(' ');
                self.push(field.as_str());
                self.put(')');
            },
            ExprKind::Construct { ty_name, fields } => {
                self.push("(construct ");
                self.push(ty_name.as_str());
                self.write_kwargs_sp(fields);
                self.put(')');
            },
            ExprKind::Update { value, fields } => {
                self.push("(update ");
                self.write_expr(value);
                self.write_kwargs_sp(fields);
                self.put(')');
            },
            ExprKind::Bang(e) => {
                self.push("(! ");
                self.write_expr(e);
                self.put(')');
            },
            ExprKind::Question(e) => {
                self.push("(? ");
                self.write_expr(e);
                self.put(')');
            },
            ExprKind::Match { scrutinee, arms } => {
                self.push("(match ");
                self.write_expr(scrutinee);
                self.push(" (");
                self.write_arms(arms);
                self.push("))");
            },
            ExprKind::Block(items) => {
                self.push("(block");
                self.indent_in();
                self.write_block_items(items);
                self.indent_out();
                self.put(')');
            },
        }
    }

    fn write_decls(&mut self, ds: &Vec<Decl>)
        requires
            old(self).wf(),
        ensures
            final(self).wf(),
            final(self).out@ == old(self).out@ + decls_text(ds@, old(self).level()),
            final(self).indent@ == old(self).indent@,
        decreases ds@, 1nat,
    {
        let mut i: usize = 0;
        while i < ds.len()
            invariant
                i <= ds@.len(),
                self.wf(),
                self.indent@ == old(self).indent@,
                self.out@ == old(self).out@ + decls_text(ds@.take(i as int), old(self).level()),
            decreases ds@.len() - i,
        {
            self.nl();
            self.write_decl(&ds[i]);
            assert(ds@.take(i + 1).drop_last() =~= ds@.take(i as int));
            i = i + 1;
        }
        assert(ds@.take(ds@.len() as int) =~= ds@);
    }

    fn write_members(&mut self, ms: &Vec<TypeMember>)
        requires
            old(self).wf(),
        ensures
            final(self).wf(),
            final(self).out@ == old(self).out@ + members_text(ms@, old(self).level()),
            final(self).indent@ == old(self).indent@,
        decreases ms@, 1nat,
    {
        let mut i: usize = 0;
        while i < ms.len()
            invariant
                i <= ms@.len(),
                self.wf(),
                self.indent@ == old(self).indent@,
                self.out@ == old(self).out@ + members_text(ms@.take(i as int), old(self).level()),
            decreases ms@.len() - i,
        {
            self.nl();
            self.write_type_member(&ms[i]);
            assert(ms@.take(i + 1).drop_last() =~= ms@.take(i as int));
            i = i + 1;
        }
        assert(ms@.take(ms@.len() as int) =~= ms@);
    }

    fn write_type_member(&mut self, m: &TypeMember)
        requires
            old(self).wf(),
        ensures
            final(self).wf(),
            final(self).out@ == old(self).out@ + member_text(*m, old(self).level()),
            final(self).indent@ == old(self).indent@,
        decreases m, 0nat,
    {
        match m {
            TypeMember::Field { name, ty } => {
                self.push("(field ");
                self.push(name.as_str());
                self.put(' ');
                self.write_type(ty);
                self.put(')');
            },
            TypeMember::Method(d) => self.write_decl(d),
            TypeMember::Variant { name, body } => {
                self.push("(variant ");
                self.push(name.as_str());
                match body {
                    VariantBody::Bare => {},
                    VariantBody::Single(t) => {
                        self.put(' ');
                        self.write_type(t);
                    },
                    VariantBody::Fields(members) => {
                        self.indent_in();
                        self.write_members(members);
                        self.indent_out();
                    },
                }
                self.put(')');
            },
        }
    }

    fn write_decl(&mut self, decl: &Decl)
        requires
            old(self).wf(),
        ensures
            final(self).wf(),
            final(self).out@ == old(self).out@ + decl_text(*decl, old(self).level()),
            final(self).indent@ == old(self).indent@,
        decreases decl, 0nat,
    {
        let ghost o = self.out@;
        let ghost n = self.level();
        match &decl.node {
            DeclKind::Binding { name, ty, value } => match value {
                None => {
                    self.push("(sig ");
                    self.push(name.as_str());
                    match ty {
                        Some(t) => {
                            self.put(' ');
                            self.write_type(t);
                        },
                        None => {},
                    }
                    self.put(')');
                },
                Some(v) => {
                    self.push("(let ");
                    self.push(name.as_str());
                    match ty {
                        Some(t) => {
                            self.push(" : ");
                            self.write_type(t);
                        },
                        None => {},
                    }
                    self.put(' ');
                    self.write_expr(v);
                    self.put(')');
                },
            },
            DeclKind::TypeDecl { name, params, body } => {
                self.push("(type ");
                self.push(name.as_str());
                self.push_names_sp(params);
                match body {
                    TypeBody::Newtype(t) => {
                        self.put(' ');
                        self.write_type(t);
                        self.put(')');
                    },
                    TypeBody::Block(members) => {
                        self.indent_in();
                        self.write_members(members);
                        self.indent_out();
                        self.put(')');
                    },
                }
            },
            DeclKind::TraitDecl { name, type_var, methods } => {
                self.push("(trait ");
                self.push(name.as_str());
                self.put(' ');
                self.push(type_var.as_str());
                self.indent_in();
                self.write_decls(methods);
                self.indent_out();
                self.put(')');
            },
            DeclKind::ImplDecl { trait_name, target, methods } => {
                self.push("(impl ");
                self.push(trait_name.as_str());
                self.put(' ');
                self.write_type(target);
                self.indent_in();
                self.write_decls(methods);
                self.indent_out();
                self.put(')');
            },
            DeclKind::Use { path, kind } => {
                self.push("(use ");
                self.push_joined(path, ".");
                match kind {
                    UseKind::Whole => self.push(" whole"),
                    UseKind::Cherry(names) => {
                        self.push(" (cherry");
                        self.push_names_sp(names);
                        self.put(')');
                    },
                    UseKind::Alias(a) => {
                        self.push(" (alias ");
                        self.push(a.as_str());
                        self.put(')');
                    },
                }
                self.put(')');
            },
        }
        assert(self.out@ =~= o + decl_text(*decl, n));
    }

    fn write_exposes(&mut self, es: &Vec<Expose>)
        ensures
            final(self).out@ == old(self).out@ + exposes_text(es@),
            final(self).indent@ == old(self).indent@,
    {
        let mut i: usize = 0;
        while i < es.len()
            invariant
                i <= es@.len(),
                self.indent@ == old(self).indent@,
                self.out@ == old(self).out@ + exposes_text(es@.take(i as int)),
            decreases es@.len() - i,
        {
            self.put(' ');
            match &es[i] {
                Expose::Value(n) => {
                    self.push("(expose-val ");
                    self.push(n.as_str());
                    self.put(')');
                },
                Expose::Type { name, with_constructors } => {
                    self.push("(expose-type ");
                    self.push(name.as_str());
                    if *with_constructors {
                        self.push(" *");
                    }
                    self.put(')');
                },
            }
            assert(es@.take(i + 1).drop_last() =~= es@.take(i as int));
            i = i + 1;
        }
        assert(es@.take(es@.len() as int) =~= es@);
    }

    fn write_file(&mut self, file: &File)
        requires
            old(self).wf(),
            old(self).level() == 0,
        ensures
            final(self).out@ == old(self).out@ + file_text(*file),
    {
        let ghost o = self.out@;
        self.push("(file");
        match &file.module {
            Some(m) => {
                self.indent_in();
                self.nl();
                self.push("(module ");
                self.push_joined(&m.name, ".");
                self.write_exposes(&m.exposes);
                self.put(')');
                self.indent_out();
            },
            None => {},
        }
        if file.decls.len() > 0 {
            self.indent_in();
            self.write_decls(&file.decls);
            self.indent_out();
        } else {
            assert(file.decls@ =~= Seq::<Decl>::empty());
        }
        self.put(')');
        assert(self.out@ =~= o + file_text(*file));
    }
}

impl File {
    /// The S-expression form of the file.
    pub fn to_string(&self) -> (s: String)
        ensures
            s@ == file_text(*self),
    {
        let mut p = Printer::new();
        p.write_file(self);
        p.out
    }

    /// Whether two files print the same, spans aside.
    pub fn node_eq(&self, other: &File) -> (r: bool)
        ensures
            r == (file_text(*self) == file_text(*other)),
    {
        let a = self.to_string();
        let b = other.to_string();
        crate::text::str_eq(a.as_str(), b.as_str())
    }
}

impl TypeKind {
    /// The S-expression form of the type.
    pub fn to_string(&self) -> (s: String)
        ensures
            s@ == type_kind_text(*self),
    {
        let mut p = Printer::new();
        p.write_type_kind(self);
        p.out
    }
}

impl PatternKind {
    /// The S-expression form of the pattern.
    pub fn to_string(&self) -> (s: String)
        ensures
            s@ == pat_kind_text(*self),
    {
        let mut p = Printer::new();
        p.write_pattern_kind(self);
        p.out
    }
}

impl ExprKind {
    /// The S-expression form of the expression.
    pub fn to_string(&self) -> (s: String)
        ensures
            s@ == kind_text(*self, 0),
    {
        let mut p = Printer::new();
        p.write_expr_kind(self);
        p.out
    }
}

} // verus!
