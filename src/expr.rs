//! Immutable expression DAGs and their two textual renderings.

use std::rc::Rc;
use vstd::prelude::*;

verus! {

/// Mathematical model of an expression: a finite tree.
pub enum Poly {
    Num(u32),
    Var(Seq<char>),
    Add(Box<Poly>, Box<Poly>),
    Sub(Box<Poly>, Box<Poly>),
    Mul(Box<Poly>, Box<Poly>),
}

/// One node of an expression DAG; children are shared.
#[derive(Debug)]
pub(crate) enum Expr {
    Const(u32),
    SymbolicVariable(String),
    Add(Rc<Expr>, Rc<Expr>),
    Sub(Rc<Expr>, Rc<Expr>),
    Mul(Rc<Expr>, Rc<Expr>),
}

/// The tree that a node stands for.
pub(crate) open spec fn model(e: Expr) -> Poly
    decreases e,
{
    match e {
        Expr::Const(c) => Poly::Num(c),
        Expr::SymbolicVariable(s) => Poly::Var(s@),
        Expr::Add(a, b) => Poly::Add(Box::new(model(*a)), Box::new(model(*b))),
        Expr::Sub(a, b) => Poly::Sub(Box::new(model(*a)), Box::new(model(*b))),
        Expr::Mul(a, b) => Poly::Mul(Box::new(model(*a)), Box::new(model(*b))),
    }
}

/// Decimal digits of a natural number, most significant first.
pub open spec fn decimal(n: nat) -> Seq<char>
    decreases n,
{
    if n < 10 {
        seq![digit(n)]
    } else {
        decimal(n / 10).push(digit(n % 10))
    }
}

/// The decimal digit character for `d % 10`.
pub open spec fn digit(d: nat) -> char {
    ('0' as u8 + (d % 10) as u8) as char
}

/// `(l op r)`, with one space on each side of the operator.
pub open spec fn bracketed(l: Seq<char>, op: char, r: Seq<char>) -> Seq<char> {
    seq!['('] + l + seq![' ', op, ' '] + r + seq![')']
}

/// Weak evaluation: every binary operation is parenthesised.
pub open spec fn weak_text(p: Poly) -> Seq<char>
    decreases p,
{
    match p {
        Poly::Num(c) => decimal(c as nat),
        Poly::Var(s) => s,
        Poly::Add(a, b) => bracketed(weak_text(*a), '+', weak_text(*b)),
        Poly::Sub(a, b) => bracketed(weak_text(*a), '-', weak_text(*b)),
        Poly::Mul(a, b) => bracketed(weak_text(*a), '*', weak_text(*b)),
    }
}


/// Shared handle on an expression node: the value type of registers and memory.
#[derive(Debug)]
pub struct ExprWrapper(Rc<Expr>);

impl View for ExprWrapper {
    type V = Poly;

    closed spec fn view(&self) -> Poly {
        model(*self.0)
    }
}

/// Relies on `Rc::clone`: the new pointer refers to the same node.
#[verifier::external_body]
fn share(e: &Rc<Expr>) -> (r: Rc<Expr>)
    ensures
        r == *e,
{
    Rc::clone(e)
}

impl Clone for ExprWrapper {
    fn clone(&self) -> (r: Self)
        ensures
            r == *self,
    {
        ExprWrapper(share(&self.0))
    }
}

/// Appends the decimal digits of `n` to `out`.
fn push_decimal(out: &mut String, n: u32)
    ensures
        final(out)@ == old(out)@ + decimal(n as nat),
    decreases n,
{
    if n >= 10 {
        push_decimal(out, n / 10);
    }
    let d: usize = (n % 10) as usize;
    let digits = "0123456789";
    proof {
        reveal_strlit("0123456789");
    }
    let s = digits.substring_char(d, d + 1);
    assert(s@ =~= seq![digit((n % 10) as nat)]);
    out.append(s);
}


/// Appends the weak rendering of `e` to `out`.
fn push_weak(e: &Expr, out: &mut String)
    ensures
        final(out)@ == old(out)@ + weak_text(model(*e)),
    decreases e,
{
    proof {
        reveal_strlit("(");
        reveal_strlit(")");
        reveal_strlit(" + ");
        reveal_strlit(" - ");
        reveal_strlit(" * ");
    }
    match e {
        Expr::Const(c) => push_decimal(out, *c),
        Expr::SymbolicVariable(s) => out.append(s.as_str()),
        Expr::Add(a, b) => {
            out.append("(");
            push_weak(a, out);
            out.append(" + ");
            push_weak(b, out);
            out.append(")");
            assert(final(out)@ =~= old(out)@ + weak_text(model(*e)));
        },
        Expr::Sub(a, b) => {
            out.append("(");
            push_weak(a, out);
            out.append(" - ");
            push_weak(b, out);
            out.append(")");
            assert(final(out)@ =~= old(out)@ + weak_text(model(*e)));
        },
        Expr::Mul(a, b) => {
            out.append("(");
            push_weak(a, out);
            out.append(" * ");
            push_weak(b, out);
            out.append(")");
            assert(final(out)@ =~= old(out)@ + weak_text(model(*e)));
        },
    }
}

impl ExprWrapper {
    fn new(expr: Expr) -> (r: Self)
        ensures
            r@ == model(expr),
    {
        ExprWrapper(Rc::new(expr))
    }

    /// A numeric leaf.
    pub fn from_const(value: u32) -> (r: Self)
        ensures
            r@ == Poly::Num(value),
    {
        Self::new(Expr::Const(value))
    }

    /// A symbolic leaf named `value`.
    pub fn from_symbolic_variable(value: String) -> (r: Self)
        ensures
            r@ == Poly::Var(value@),
    {
        Self::new(Expr::SymbolicVariable(value))
    }

    /// `self + rhs`, sharing both operands.
    pub fn plus(&self, rhs: &ExprWrapper) -> (r: Self)
        ensures
            r@ == Poly::Add(Box::new(self@), Box::new(rhs@)),
    {
        Self::new(Expr::Add(share(&self.0), share(&rhs.0)))
    }

    /// `self - rhs`, sharing both operands.
    pub fn minus(&self, rhs: &ExprWrapper) -> (r: Self)
        ensures
            r@ == Poly::Sub(Box::new(self@), Box::new(rhs@)),
    {
        Self::new(Expr::Sub(share(&self.0), share(&rhs.0)))
    }

    /// `self * rhs`, sharing both operands.
    pub fn times(&self, rhs: &ExprWrapper) -> (r: Self)
        ensures
            r@ == Poly::Mul(Box::new(self@), Box::new(rhs@)),
    {
        Self::new(Expr::Mul(share(&self.0), share(&rhs.0)))
    }

    /// Renders the expression with every binary operation parenthesised.
    pub fn weak_eval(&self) -> (r: String)
        ensures
            r@ == weak_text(self@),
    {
        let mut out = String::new();
        push_weak(&self.0, &mut out);
        out
    }

    /// The display form of the expression: its weak rendering.
    pub fn eval(&self) -> (r: String)
        ensures
            r@ == weak_text(self@),
    {
        self.weak_eval()
    }
}

/// Binding strength of a strongly evaluated expression.
#[derive(Debug, Clone, Copy, PartialEq, Eq, Structural)]
pub enum Precedence {
    Add,
    Sub,
    Mul,
    NumericOrSymbolicVariable,
}

/// Model of what a strongly evaluated expression holds.
pub enum Folded {
    Numeric(u32),
    Value(Seq<char>),
}

/// An Add or Sub result needs parentheses as a factor or as a subtrahend.
pub open spec fn is_loose(p: Precedence) -> bool {
    p == Precedence::Add || p == Precedence::Sub
}

/// The text of a strongly evaluated expression.
pub open spec fn shown(k: Folded) -> Seq<char> {
    match k {
        Folded::Numeric(n) => decimal(n as nat),
        Folded::Value(s) => s,
    }
}

/// The text of an operand of `*`, or of the right operand of `-`.
pub open spec fn shown_as_factor(e: (Folded, Precedence)) -> Seq<char> {
    if is_loose(e.1) {
        seq!['('] + shown(e.0) + seq![')']
    } else {
        shown(e.0)
    }
}

/// `l op r`, with one space on each side of the operator.
pub open spec fn infix(l: Seq<char>, op: char, r: Seq<char>) -> Seq<char> {
    l + seq![' ', op, ' '] + r
}

/// Strong evaluation of a sum from those of its operands.
pub open spec fn fold_add(l: (Folded, Precedence), r: (Folded, Precedence)) -> (Folded, Precedence) {
    match (l.0, r.0) {
        (Folded::Numeric(x), Folded::Numeric(y)) => (
            Folded::Numeric(vstd::wrapping::u32_specs::wrapping_add(x, y)),
            Precedence::NumericOrSymbolicVariable,
        ),
        _ => (Folded::Value(infix(shown(l.0), '+', shown(r.0))), Precedence::Add),
    }
}

/// Strong evaluation of a difference; a sum or difference on the right is
/// parenthesised.
pub open spec fn fold_sub(l: (Folded, Precedence), r: (Folded, Precedence)) -> (Folded, Precedence) {
    match (l.0, r.0) {
        (Folded::Numeric(x), Folded::Numeric(y)) => (
            Folded::Numeric(vstd::wrapping::u32_specs::wrapping_sub(x, y)),
            Precedence::NumericOrSymbolicVariable,
        ),
        _ => (Folded::Value(infix(shown(l.0), '-', shown_as_factor(r))), Precedence::Sub),
    }
}

/// Strong evaluation of a product; a sum or difference on either side is
/// parenthesised.
pub open spec fn fold_mul(l: (Folded, Precedence), r: (Folded, Precedence)) -> (Folded, Precedence) {
    match (l.0, r.0) {
        (Folded::Numeric(x), Folded::Numeric(y)) => (
            Folded::Numeric(vstd::wrapping::u32_specs::wrapping_mul(x, y)),
            Precedence::NumericOrSymbolicVariable,
        ),
        _ => (
            Folded::Value(infix(shown_as_factor(l), '*', shown_as_factor(r))),
            Precedence::Mul,
        ),
    }
}

/// Strong evaluation: minimal parentheses, and a node folds to a number
/// exactly when both of its operands did.
pub open spec fn strong(p: Poly) -> (Folded, Precedence)
    decreases p,
{
    match p {
        Poly::Num(c) => (Folded::Numeric(c), Precedence::NumericOrSymbolicVariable),
        Poly::Var(s) => (Folded::Value(s), Precedence::NumericOrSymbolicVariable),
        Poly::Add(a, b) => fold_add(strong(*a), strong(*b)),
        Poly::Sub(a, b) => fold_sub(strong(*a), strong(*b)),
        Poly::Mul(a, b) => fold_mul(strong(*a), strong(*b)),
    }
}

/// What a strongly evaluated expression holds: a number or rendered text.
#[derive(Debug)]
pub enum EvaluatedExprKind {
    Numeric(u32),
    Value(String),
}

impl View for EvaluatedExprKind {
    type V = Folded;

    open spec fn view(&self) -> Folded {
        match self {
            EvaluatedExprKind::Numeric(n) => Folded::Numeric(*n),
            EvaluatedExprKind::Value(s) => Folded::Value(s@),
        }
    }
}

/// A strongly evaluated expression and its binding strength.
#[derive(Debug)]
pub struct EvaluatedExpr {
    pub kind: EvaluatedExprKind,
    pub precedence: Precedence,
}

impl View for EvaluatedExpr {
    type V = (Folded, Precedence);

    open spec fn view(&self) -> (Folded, Precedence) {
        (self.kind@, self.precedence)
    }
}

impl EvaluatedExpr {
    /// A number, binding as tightly as a leaf.
    pub fn from_numeric(value: u32) -> (r: Self)
        ensures
            r@ == (Folded::Numeric(value), Precedence::NumericOrSymbolicVariable),
    {
        EvaluatedExpr { kind: EvaluatedExprKind::Numeric(value), precedence: Precedence::NumericOrSymbolicVariable }
    }

    /// A symbol, binding as tightly as a leaf.
    pub fn from_symbol(value: &str) -> (r: Self)
        ensures
            r@ == (Folded::Value(value@), Precedence::NumericOrSymbolicVariable),
    {
        EvaluatedExpr {
            kind: EvaluatedExprKind::Value(value.to_owned()),
            precedence: Precedence::NumericOrSymbolicVariable,
        }
    }

    /// Appends the text of this expression to `out`.
    fn push_shown(&self, out: &mut String)
        ensures
            final(out)@ == old(out)@ + shown(self@.0),
    {
        match &self.kind {
            EvaluatedExprKind::Numeric(n) => push_decimal(out, *n),
            EvaluatedExprKind::Value(s) => out.append(s.as_str()),
        }
    }

    /// Appends the text of this expression to `out`, parenthesised when it
    /// is a sum or a difference.
    fn push_as_factor(&self, out: &mut String)
        ensures
            final(out)@ == old(out)@ + shown_as_factor(self@),
    {
        proof {
            reveal_strlit("(");
            reveal_strlit(")");
        }
        if self.precedence == Precedence::Add || self.precedence == Precedence::Sub {
            out.append("(");
            self.push_shown(out);
            out.append(")");
            assert(final(out)@ =~= old(out)@ + shown_as_factor(self@));
        } else {
            self.push_shown(out);
        }
    }

    /// The text of this expression.
    pub fn to_text(&self) -> (r: String)
        ensures
            r@ == shown(self@.0),
    {
        let mut out = String::new();
        self.push_shown(&mut out);
        assert(out@ =~= shown(self@.0));
        out
    }

    /// Strong evaluation of a node.
    fn from_expr(e: &Expr) -> (r: Self)
        ensures
            r@ == strong(model(*e)),
        decreases e,
    {
        match e {
            Expr::Const(c) => Self::from_numeric(*c),
            Expr::SymbolicVariable(s) => Self::from_symbol(s.as_str()),
            Expr::Add(a, b) => Self::from_expr(a) + Self::from_expr(b),
            Expr::Sub(a, b) => Self::from_expr(a) - Self::from_expr(b),
            Expr::Mul(a, b) => Self::from_expr(a) * Self::from_expr(b),
        }
    }
}

impl ExprWrapper {
    /// Renders the expression with minimal parentheses, folding every node
    /// whose two operands both fold to numbers.
    pub fn strong_eval(&self) -> (r: String)
        ensures
            r@ == shown(strong(self@).0),
    {
        EvaluatedExpr::from_expr(&self.0).to_text()
    }
}

impl core::ops::Add for EvaluatedExpr {
    type Output = EvaluatedExpr;

    /// Strong evaluation of `self + rhs`.
    fn add(self, rhs: Self) -> (r: Self)
        ensures
            r@ == fold_add(self@, rhs@),
    {
        proof {
            reveal_strlit(" + ");
        }
        match (&self.kind, &rhs.kind) {
            (EvaluatedExprKind::Numeric(x), EvaluatedExprKind::Numeric(y)) => {
                Self::from_numeric(x.wrapping_add(*y))
            },
            _ => {
                let mut out = String::new();
                self.push_shown(&mut out);
                out.append(" + ");
                rhs.push_shown(&mut out);
                assert(out@ =~= infix(shown(self@.0), '+', shown(rhs@.0)));
                EvaluatedExpr { kind: EvaluatedExprKind::Value(out), precedence: Precedence::Add }
            },
        }
    }
}

impl vstd::std_specs::ops::AddSpecImpl for EvaluatedExpr {
    open spec fn obeys_add_spec() -> bool {
        false
    }

    open spec fn add_req(self, rhs: Self) -> bool {
        true
    }

    open spec fn add_spec(self, rhs: Self) -> Self {
        arbitrary()
    }
}

impl core::ops::Sub for EvaluatedExpr {
    type Output = EvaluatedExpr;

    /// Strong evaluation of `self - rhs`.
    fn sub(self, rhs: Self) -> (r: Self)
        ensures
            r@ == fold_sub(self@, rhs@),
    {
        proof {
            reveal_strlit(" - ");
        }
        match (&self.kind, &rhs.kind) {
            (EvaluatedExprKind::Numeric(x), EvaluatedExprKind::Numeric(y)) => {
                Self::from_numeric(x.wrapping_sub(*y))
            },
            _ => {
                let mut out = String::new();
                self.push_shown(&mut out);
                out.append(" - ");
                rhs.push_as_factor(&mut out);
                assert(out@ =~= infix(shown(self@.0), '-', shown_as_factor(rhs@)));
                EvaluatedExpr { kind: EvaluatedExprKind::Value(out), precedence: Precedence::Sub }
            },
        }
    }
}

impl vstd::std_specs::ops::SubSpecImpl for EvaluatedExpr {
    open spec fn obeys_sub_spec() -> bool {
        false
    }

    open spec fn sub_req(self, rhs: Self) -> bool {
        true
    }

    open spec fn sub_spec(self, rhs: Self) -> Self {
        arbitrary()
    }
}

impl core::ops::Mul for EvaluatedExpr {
    type Output = EvaluatedExpr;

    /// Strong evaluation of `self * rhs`.
    fn mul(self, rhs: Self) -> (r: Self)
        ensures
            r@ == fold_mul(self@, rhs@),
    {
        proof {
            reveal_strlit(" * ");
        }
        match (&self.kind, &rhs.kind) {
            (EvaluatedExprKind::Numeric(x), EvaluatedExprKind::Numeric(y)) => {
                Self::from_numeric(x.wrapping_mul(*y))
            },
            _ => {
                let mut out = String::new();
                self.push_as_factor(&mut out);
                out.append(" * ");
                rhs.push_as_factor(&mut out);
                assert(out@ =~= infix(shown_as_factor(self@), '*', shown_as_factor(rhs@)));
                EvaluatedExpr { kind: EvaluatedExprKind::Value(out), precedence: Precedence::Mul }
            },
        }
    }
}

impl vstd::std_specs::ops::MulSpecImpl for EvaluatedExpr {
    open spec fn obeys_mul_spec() -> bool {
        false
    }

    open spec fn mul_req(self, rhs: Self) -> bool {
        true
    }

    open spec fn mul_spec(self, rhs: Self) -> Self {
        arbitrary()
    }
}

impl<'a> core::ops::Add for &'a ExprWrapper {
    type Output = ExprWrapper;

    /// `self + rhs`, sharing both operands.
    fn add(self, rhs: &'a ExprWrapper) -> (r: ExprWrapper)
        ensures
            r@ == Poly::Add(Box::new(self@), Box::new(rhs@)),
    {
        self.plus(rhs)
    }
}

impl<'a> vstd::std_specs::ops::AddSpecImpl for &'a ExprWrapper {
    open spec fn obeys_add_spec() -> bool {
        false
    }

    open spec fn add_req(self, rhs: &'a ExprWrapper) -> bool {
        true
    }

    open spec fn add_spec(self, rhs: &'a ExprWrapper) -> ExprWrapper {
        arbitrary()
    }
}

impl<'a> core::ops::Sub for &'a ExprWrapper {
    type Output = ExprWrapper;

    /// `self - rhs`, sharing both operands.
    fn sub(self, rhs: &'a ExprWrapper) -> (r: ExprWrapper)
        ensures
            r@ == Poly::Sub(Box::new(self@), Box::new(rhs@)),
    {
        self.minus(rhs)
    }
}

impl<'a> vstd::std_specs::ops::SubSpecImpl for &'a ExprWrapper {
    open spec fn obeys_sub_spec() -> bool {
        false
    }

    open spec fn sub_req(self, rhs: &'a ExprWrapper) -> bool {
        true
    }

    open spec fn sub_spec(self, rhs: &'a ExprWrapper) -> ExprWrapper {
        arbitrary()
    }
}

impl<'a> core::ops::Mul for &'a ExprWrapper {
    type Output = ExprWrapper;

    /// `self * rhs`, sharing both operands.
    fn mul(self, rhs: &'a ExprWrapper) -> (r: ExprWrapper)
        ensures
            r@ == Poly::Mul(Box::new(self@), Box::new(rhs@)),
    {
        self.times(rhs)
    }
}

impl<'a> vstd::std_specs::ops::MulSpecImpl for &'a ExprWrapper {
    open spec fn obeys_mul_spec() -> bool {
        false
    }

    open spec fn mul_req(self, rhs: &'a ExprWrapper) -> bool {
        true
    }

    open spec fn mul_spec(self, rhs: &'a ExprWrapper) -> ExprWrapper {
        arbitrary()
    }
}

impl From<u32> for ExprWrapper {
    fn from(value: u32) -> (r: Self)
        ensures
            r@ == Poly::Num(value),
    {
        Self::from_const(value)
    }
}

impl vstd::std_specs::convert::FromSpecImpl<u32> for ExprWrapper {
    open spec fn obeys_from_spec() -> bool {
        false
    }

    open spec fn from_spec(v: u32) -> Self {
        arbitrary()
    }
}

impl From<u32> for EvaluatedExpr {
    fn from(value: u32) -> (r: Self)
        ensures
            r@ == (Folded::Numeric(value), Precedence::NumericOrSymbolicVariable),
    {
        Self::from_numeric(value)
    }
}

impl vstd::std_specs::convert::FromSpecImpl<u32> for EvaluatedExpr {
    open spec fn obeys_from_spec() -> bool {
        true
    }

    open spec fn from_spec(v: u32) -> Self {
        EvaluatedExpr {
            kind: EvaluatedExprKind::Numeric(v),
            precedence: Precedence::NumericOrSymbolicVariable,
        }
    }
}

impl<'a> From<&'a str> for EvaluatedExpr {
    fn from(value: &'a str) -> (r: Self)
        ensures
            r@ == (Folded::Value(value@), Precedence::NumericOrSymbolicVariable),
    {
        Self::from_symbol(value)
    }
}

impl<'a> vstd::std_specs::convert::FromSpecImpl<&'a str> for EvaluatedExpr {
    open spec fn obeys_from_spec() -> bool {
        false
    }

    open spec fn from_spec(v: &'a str) -> Self {
        arbitrary()
    }
}


/// Every leaf of `p` is a number.
pub open spec fn all_numeric(p: Poly) -> bool
    decreases p,
{
    match p {
        Poly::Num(_) => true,
        Poly::Var(_) => false,
        Poly::Add(a, b) => all_numeric(*a) && all_numeric(*b),
        Poly::Sub(a, b) => all_numeric(*a) && all_numeric(*b),
        Poly::Mul(a, b) => all_numeric(*a) && all_numeric(*b),
    }
}

/// The 32-bit wrapping value of an arithmetic tree (symbols count as 0).
pub open spec fn value(p: Poly) -> u32
    decreases p,
{
    match p {
        Poly::Num(c) => c,
        Poly::Var(_) => 0,
        Poly::Add(a, b) => vstd::wrapping::u32_specs::wrapping_add(value(*a), value(*b)),
        Poly::Sub(a, b) => vstd::wrapping::u32_specs::wrapping_sub(value(*a), value(*b)),
        Poly::Mul(a, b) => vstd::wrapping::u32_specs::wrapping_mul(value(*a), value(*b)),
    }
}

/// The number that a string of decimal digits spells.
pub open spec fn read_numeral(s: Seq<char>) -> nat
    decreases s.len(),
{
    if s.len() == 0 {
        0
    } else {
        read_numeral(s.drop_last()) * 10 + ((s.last() as u32 - '0' as u32) as nat)
    }
}

/// Strong evaluation of a tree whose leaves are all numbers is a number:
/// the tree's value under 32-bit wrapping arithmetic.
pub proof fn lemma_numeric_tree_folds(p: Poly)
    requires
        all_numeric(p),
    ensures
        strong(p) == (Folded::Numeric(value(p)), Precedence::NumericOrSymbolicVariable),
    decreases p,
{
    match p {
        Poly::Num(_) => {},
        Poly::Var(_) => {},
        Poly::Add(a, b) => {
            lemma_numeric_tree_folds(*a);
            lemma_numeric_tree_folds(*b);
        },
        Poly::Sub(a, b) => {
            lemma_numeric_tree_folds(*a);
            lemma_numeric_tree_folds(*b);
        },
        Poly::Mul(a, b) => {
            lemma_numeric_tree_folds(*a);
            lemma_numeric_tree_folds(*b);
        },
    }
}

/// Reading the digits of `n` back gives `n`.
pub proof fn lemma_read_decimal(n: nat)
    ensures
        read_numeral(decimal(n)) == n,
    decreases n,
{
    let d = n % 10;
    assert((digit(d) as u32 - '0' as u32) as nat == d);
    if n >= 10 {
        lemma_read_decimal(n / 10);
        assert(decimal(n).drop_last() == decimal(n / 10));
        assert(decimal(n).last() == digit(d));
        assert(n == (n / 10) * 10 + d);
        assert(read_numeral(decimal(n)) == read_numeral(decimal(n / 10)) * 10 + d);
    } else {
        assert(decimal(n).drop_last() =~= Seq::<char>::empty());
        assert(read_numeral(Seq::<char>::empty()) == 0);
        assert(read_numeral(decimal(n)) == read_numeral(Seq::<char>::empty()) * 10 + d);
    }
}

/// A decimal digit character.
pub open spec fn is_digit(c: char) -> bool {
    '0' <= c <= '9'
}

/// Length of the run of digits that starts `s`.
pub open spec fn digit_run(s: Seq<char>) -> nat
    decreases s.len(),
{
    if s.len() > 0 && is_digit(s[0]) {
        1 + digit_run(s.drop_first())
    } else {
        0
    }
}

/// `a op b` in 32-bit wrapping arithmetic, for `op` one of `+`, `-`, `*`.
pub open spec fn apply_op(op: char, a: u32, b: u32) -> u32 {
    if op == '+' {
        vstd::wrapping::u32_specs::wrapping_add(a, b)
    } else if op == '-' {
        vstd::wrapping::u32_specs::wrapping_sub(a, b)
    } else {
        vstd::wrapping::u32_specs::wrapping_mul(a, b)
    }
}

/// One of the three operator characters.
pub open spec fn is_op(c: char) -> bool {
    c == '+' || c == '-' || c == '*'
}

/// Reads the arithmetic expression at the start of `s`: a decimal numeral,
/// or `(l op r)` with one space around `op`. Gives its value in 32-bit
/// wrapping arithmetic and the number of characters read.
pub open spec fn read_infix(s: Seq<char>) -> Option<(u32, nat)>
    decreases s.len(),
{
    if s.len() == 0 {
        None
    } else if is_digit(s[0]) {
        let n = digit_run(s);
        if read_numeral(s.take(n as int)) <= u32::MAX {
            Some((read_numeral(s.take(n as int)) as u32, n))
        } else {
            None
        }
    } else if s[0] == '(' {
        match read_infix(s.drop_first()) {
            None => None,
            Some((a, n1)) => {
                let k: int = 1 + n1 as int;
                if k + 3 <= s.len() && s[k] == ' ' && is_op(s[k + 1]) && s[k + 2] == ' ' {
                    match read_infix(s.skip(k + 3)) {
                        None => None,
                        Some((b, n2)) => {
                            let e: int = k + 3 + n2 as int;
                            if e < s.len() && s[e] == ')' {
                                Some((apply_op(s[k + 1], a, b), (e + 1) as nat))
                            } else {
                                None
                            }
                        },
                    }
                } else {
                    None
                }
            },
        }
    } else {
        None
    }
}

proof fn lemma_decimal_digits(n: nat)
    ensures
        decimal(n).len() >= 1,
        forall|i: int| 0 <= i < decimal(n).len() ==> is_digit(#[trigger] decimal(n)[i]),
    decreases n,
{
    if n >= 10 {
        lemma_decimal_digits(n / 10);
    }
}

proof fn lemma_digit_run(d: Seq<char>, rest: Seq<char>)
    requires
        forall|i: int| 0 <= i < d.len() ==> is_digit(#[trigger] d[i]),
        rest.len() == 0 || !is_digit(rest[0]),
    ensures
        digit_run(d + rest) == d.len(),
    decreases d.len(),
{
    if d.len() > 0 {
        assert((d + rest).drop_first() =~= d.drop_first() + rest);
        lemma_digit_run(d.drop_first(), rest);
    } else {
        assert(d + rest =~= rest);
    }
}

proof fn lemma_read_weak(p: Poly, rest: Seq<char>)
    requires
        all_numeric(p),
        rest.len() == 0 || !is_digit(rest[0]),
    ensures
        read_infix(weak_text(p) + rest) == Some((value(p), weak_text(p).len())),
    decreases p,
{
    match p {
        Poly::Num(c) => {
            let w = weak_text(p);
            lemma_decimal_digits(c as nat);
            lemma_digit_run(w, rest);
            assert((w + rest).take(w.len() as int) =~= w);
            lemma_read_decimal(c as nat);
        },
        Poly::Var(_) => {},
        Poly::Add(a, b) => {
            lemma_read_weak(*a, seq![' ', '+', ' '] + weak_text(*b) + seq![')'] + rest);
            lemma_read_weak(*b, seq![')'] + rest);
            lemma_read_bracketed(weak_text(*a), '+', weak_text(*b), rest, value(*a), value(*b));
        },
        Poly::Sub(a, b) => {
            lemma_read_weak(*a, seq![' ', '-', ' '] + weak_text(*b) + seq![')'] + rest);
            lemma_read_weak(*b, seq![')'] + rest);
            lemma_read_bracketed(weak_text(*a), '-', weak_text(*b), rest, value(*a), value(*b));
        },
        Poly::Mul(a, b) => {
            lemma_read_weak(*a, seq![' ', '*', ' '] + weak_text(*b) + seq![')'] + rest);
            lemma_read_weak(*b, seq![')'] + rest);
            lemma_read_bracketed(weak_text(*a), '*', weak_text(*b), rest, value(*a), value(*b));
        },
    }
}

/// `(l op r)` reads as `l op r` when `l` and `r` read whole, whatever follows them.
proof fn lemma_read_bracketed(wa: Seq<char>, op: char, wb: Seq<char>, rest: Seq<char>, va: u32, vb: u32)
    requires
        is_op(op),
        read_infix(wa + (seq![' ', op, ' '] + wb + seq![')'] + rest)) == Some((va, wa.len())),
        read_infix(wb + (seq![')'] + rest)) == Some((vb, wb.len())),
    ensures
        read_infix(bracketed(wa, op, wb) + rest) == Some((apply_op(op, va, vb), bracketed(wa, op, wb).len())),
{
    let s = bracketed(wa, op, wb) + rest;
    let after_a = seq![' ', op, ' '] + wb + seq![')'] + rest;
    let after_b = seq![')'] + rest;
    assert(s.drop_first() =~= wa + after_a);
    let k: int = 1 + wa.len() as int;
    assert(s[k] == ' ');
    assert(s[k + 1] == op);
    assert(s[k + 2] == ' ');
    assert(s.skip(k + 3) =~= wb + after_b);
    assert(s[k + 3 + wb.len()] == ')');
}

/// For a tree whose leaves are all numbers, reading the strong rendering as
/// an infix expression gives the same value as reading the weak rendering:
/// the tree's value in 32-bit wrapping arithmetic.
pub proof fn lemma_numeric_renderings_agree(p: Poly)
    requires
        all_numeric(p),
    ensures
        read_infix(weak_text(p)) == Some((value(p), weak_text(p).len())),
        read_infix(shown(strong(p).0)) == Some((value(p), shown(strong(p).0).len())),
        shown(strong(p).0) == decimal(value(p) as nat),
{
    lemma_numeric_tree_folds(p);
    lemma_read_weak(p, Seq::empty());
    assert(weak_text(p) + Seq::<char>::empty() =~= weak_text(p));
    lemma_read_weak(Poly::Num(value(p)), Seq::empty());
    assert(decimal(value(p) as nat) + Seq::<char>::empty() =~= decimal(value(p) as nat));
}

} // verus!
