//! The abstract syntax of Brief programs: expressions, types, statements,
//! contracts, and the top-level items a program is made of, with the board
//! configuration a program is compiled against.
//!
//! A floating-point literal is kept as the bit pattern of its IEEE-754
//! double. Literals are never NaN and never negative zero (a minus sign is
//! a `Neg` node), so two literals are equal as numbers exactly when their
//! bit patterns are.

use vstd::prelude::*;
use crate::text::{owned, chars_of, chars_eq};
use crate::compiler::errors::Span;
use crate::compiler::ffi::types::{MemoryLayout, opt_layout_view, copy_opt_layout};

verus! {

// ---------------------------------------------------------------------------
// Board configuration

#[derive(Debug, Clone)]
pub struct HardwareConfig {
    pub project: ProjectConfig,
    pub target: TargetConfig,
    pub interface: InterfaceConfig,
    /// Memory regions by address text (`0x40000000`); no address occurs twice.
    pub memory: Vec<(String, MemoryMapping)>,
    pub io: Option<Vec<(String, IoMapping)>>,
}

#[derive(Debug, Clone)]
pub struct ProjectConfig {
    pub name: String,
    pub version: String,
}

#[derive(Debug, Clone)]
pub struct TargetConfig {
    pub fpga: String,
    pub clock_hz: u32,
}

#[derive(Debug, Clone)]
pub struct InterfaceConfig {
    pub name: String,
    pub address_width: Option<u32>,
    pub data_width: Option<u32>,
}

#[derive(Debug, Clone)]
pub struct MemoryMapping {
    pub size: usize,
    pub mem_type: String,
    pub element_bits: usize,
}

#[derive(Debug, Clone)]
pub struct IoMapping {
    pub pin: String,
    pub direction: Option<String>,
}

#[derive(Debug, Clone, Copy, PartialEq, Eq, Structural)]
pub enum TimeUnit {
    Cycles,
    Ms,
    Seconds,
    Minutes,
}

#[derive(Debug, Clone, Copy, PartialEq, Eq, Structural)]
pub enum BitRange {
    Single(usize),
    Range(usize, usize),
    Any(usize),
}

// ---------------------------------------------------------------------------
// Expressions

/// An expression. `Float` holds the bit pattern of a double.
#[derive(Debug)]
pub enum Expr {
    Integer(i64),
    Float(u64),
    String(String),
    Bool(bool),
    Identifier(String),
    OwnedRef(String),
    PriorState(String),
    Add(Box<Expr>, Box<Expr>),
    Sub(Box<Expr>, Box<Expr>),
    Mul(Box<Expr>, Box<Expr>),
    Div(Box<Expr>, Box<Expr>),
    Eq(Box<Expr>, Box<Expr>),
    Ne(Box<Expr>, Box<Expr>),
    Lt(Box<Expr>, Box<Expr>),
    Le(Box<Expr>, Box<Expr>),
    Gt(Box<Expr>, Box<Expr>),
    Ge(Box<Expr>, Box<Expr>),
    Or(Box<Expr>, Box<Expr>),
    And(Box<Expr>, Box<Expr>),
    Not(Box<Expr>),
    Neg(Box<Expr>),
    BitNot(Box<Expr>),
    BitAnd(Box<Expr>, Box<Expr>),
    BitOr(Box<Expr>, Box<Expr>),
    BitXor(Box<Expr>, Box<Expr>),
    Shl(Box<Expr>, Box<Expr>),
    Shr(Box<Expr>, Box<Expr>),
    Call(String, Vec<Expr>),
    ListLiteral(Vec<Expr>),
    ListIndex(Box<Expr>, Box<Expr>),
    ListLen(Box<Expr>),
    Slice { value: Box<Expr>, start: Option<Box<Expr>>, end: Option<Box<Expr>>, stride: Option<Box<Expr>> },
    FieldAccess(Box<Expr>, String),
    StructInstance(String, Vec<(String, Expr)>),
    ObjectLiteral(Vec<(String, Expr)>),
    PatternMatch { value: Box<Expr>, variant: String, fields: Vec<String> },
    ForAll { var: String, expr: Box<Expr> },
    Exists { var: String, expr: Box<Expr> },
}

/// An expression as a mathematical value.
pub enum ExprV {
    Integer(i64),
    Float(u64),
    String(Seq<char>),
    Bool(bool),
    Identifier(Seq<char>),
    OwnedRef(Seq<char>),
    PriorState(Seq<char>),
    Add(Box<ExprV>, Box<ExprV>),
    Sub(Box<ExprV>, Box<ExprV>),
    Mul(Box<ExprV>, Box<ExprV>),
    Div(Box<ExprV>, Box<ExprV>),
    Eq(Box<ExprV>, Box<ExprV>),
    Ne(Box<ExprV>, Box<ExprV>),
    Lt(Box<ExprV>, Box<ExprV>),
    Le(Box<ExprV>, Box<ExprV>),
    Gt(Box<ExprV>, Box<ExprV>),
    Ge(Box<ExprV>, Box<ExprV>),
    Or(Box<ExprV>, Box<ExprV>),
    And(Box<ExprV>, Box<ExprV>),
    Not(Box<ExprV>),
    Neg(Box<ExprV>),
    BitNot(Box<ExprV>),
    BitAnd(Box<ExprV>, Box<ExprV>),
    BitOr(Box<ExprV>, Box<ExprV>),
    BitXor(Box<ExprV>, Box<ExprV>),
    Shl(Box<ExprV>, Box<ExprV>),
    Shr(Box<ExprV>, Box<ExprV>),
    Call(Seq<char>, Seq<ExprV>),
    ListLiteral(Seq<ExprV>),
    ListIndex(Box<ExprV>, Box<ExprV>),
    ListLen(Box<ExprV>),
    Slice { value: Box<ExprV>, start: Option<Box<ExprV>>, end: Option<Box<ExprV>>, stride: Option<Box<ExprV>> },
    FieldAccess(Box<ExprV>, Seq<char>),
    StructInstance(Seq<char>, Seq<(Seq<char>, ExprV)>),
    ObjectLiteral(Seq<(Seq<char>, ExprV)>),
    PatternMatch { value: Box<ExprV>, variant: Seq<char>, fields: Seq<Seq<char>> },
    ForAll { var: Seq<char>, expr: Box<ExprV> },
    Exists { var: Seq<char>, expr: Box<ExprV> },
}

pub open spec fn expr_view(e: Expr) -> ExprV
    decreases e,
{
    match e {
        Expr::Integer(a0) => ExprV::Integer(a0),
        Expr::Float(a0) => ExprV::Float(a0),
        Expr::String(a0) => ExprV::String(a0@),
        Expr::Bool(a0) => ExprV::Bool(a0),
        Expr::Identifier(a0) => ExprV::Identifier(a0@),
        Expr::OwnedRef(a0) => ExprV::OwnedRef(a0@),
        Expr::PriorState(a0) => ExprV::PriorState(a0@),
        Expr::Add(a0, a1) => ExprV::Add(Box::new(expr_view(*a0)), Box::new(expr_view(*a1))),
        Expr::Sub(a0, a1) => ExprV::Sub(Box::new(expr_view(*a0)), Box::new(expr_view(*a1))),
        Expr::Mul(a0, a1) => ExprV::Mul(Box::new(expr_view(*a0)), Box::new(expr_view(*a1))),
        Expr::Div(a0, a1) => ExprV::Div(Box::new(expr_view(*a0)), Box::new(expr_view(*a1))),
        Expr::Eq(a0, a1) => ExprV::Eq(Box::new(expr_view(*a0)), Box::new(expr_view(*a1))),
        Expr::Ne(a0, a1) => ExprV::Ne(Box::new(expr_view(*a0)), Box::new(expr_view(*a1))),
        Expr::Lt(a0, a1) => ExprV::Lt(Box::new(expr_view(*a0)), Box::new(expr_view(*a1))),
        Expr::Le(a0, a1) => ExprV::Le(Box::new(expr_view(*a0)), Box::new(expr_view(*a1))),
        Expr::Gt(a0, a1) => ExprV::Gt(Box::new(expr_view(*a0)), Box::new(expr_view(*a1))),
        Expr::Ge(a0, a1) => ExprV::Ge(Box::new(expr_view(*a0)), Box::new(expr_view(*a1))),
        Expr::Or(a0, a1) => ExprV::Or(Box::new(expr_view(*a0)), Box::new(expr_view(*a1))),
        Expr::And(a0, a1) => ExprV::And(Box::new(expr_view(*a0)), Box::new(expr_view(*a1))),
        Expr::Not(a0) => ExprV::Not(Box::new(expr_view(*a0))),
        Expr::Neg(a0) => ExprV::Neg(Box::new(expr_view(*a0))),
        Expr::BitNot(a0) => ExprV::BitNot(Box::new(expr_view(*a0))),
        Expr::BitAnd(a0, a1) => ExprV::BitAnd(Box::new(expr_view(*a0)), Box::new(expr_view(*a1))),
        Expr::BitOr(a0, a1) => ExprV::BitOr(Box::new(expr_view(*a0)), Box::new(expr_view(*a1))),
        Expr::BitXor(a0, a1) => ExprV::BitXor(Box::new(expr_view(*a0)), Box::new(expr_view(*a1))),
        Expr::Shl(a0, a1) => ExprV::Shl(Box::new(expr_view(*a0)), Box::new(expr_view(*a1))),
        Expr::Shr(a0, a1) => ExprV::Shr(Box::new(expr_view(*a0)), Box::new(expr_view(*a1))),
        Expr::Call(a0, a1) => ExprV::Call(a0@, exprs_view(a1@, a1@.len() as int)),
        Expr::ListLiteral(a0) => ExprV::ListLiteral(exprs_view(a0@, a0@.len() as int)),
        Expr::ListIndex(a0, a1) => ExprV::ListIndex(Box::new(expr_view(*a0)), Box::new(expr_view(*a1))),
        Expr::ListLen(a0) => ExprV::ListLen(Box::new(expr_view(*a0))),
        Expr::Slice { value, start, end, stride } => ExprV::Slice { value: Box::new(expr_view(*value)), start: opt_expr_view(start), end: opt_expr_view(end), stride: opt_expr_view(stride) },
        Expr::FieldAccess(a0, a1) => ExprV::FieldAccess(Box::new(expr_view(*a0)), a1@),
        Expr::StructInstance(a0, a1) => ExprV::StructInstance(a0@, pairs_view(a1@, a1@.len() as int)),
        Expr::ObjectLiteral(a0) => ExprV::ObjectLiteral(pairs_view(a0@, a0@.len() as int)),
        Expr::PatternMatch { value, variant, fields } => ExprV::PatternMatch { value: Box::new(expr_view(*value)), variant: variant@, fields: fields@.map_values(|s: String| s@) },
        Expr::ForAll { var, expr } => ExprV::ForAll { var: var@, expr: Box::new(expr_view(*expr)) },
        Expr::Exists { var, expr } => ExprV::Exists { var: var@, expr: Box::new(expr_view(*expr)) },
    }
}

/// The view of an optional subexpression.
pub open spec fn opt_expr_view(o: Option<Box<Expr>>) -> Option<Box<ExprV>>
    decreases o,
{
    match o {
        Some(b) => Some(Box::new(expr_view(*b))),
        None => None,
    }
}

/// The views of the first `n` expressions.
pub open spec fn exprs_view(s: Seq<Expr>, n: int) -> Seq<ExprV>
    decreases s, n,
{
    if n <= 0 || n > s.len() {
        seq![]
    } else {
        exprs_view(s, n - 1).push(expr_view(s[n - 1]))
    }
}

/// The views of the first `n` named expressions.
pub open spec fn pairs_view(s: Seq<(String, Expr)>, n: int) -> Seq<(Seq<char>, ExprV)>
    decreases s, n,
{
    if n <= 0 || n > s.len() {
        seq![]
    } else {
        pairs_view(s, n - 1).push((s[n - 1].0@, expr_view(s[n - 1].1)))
    }
}

pub proof fn lemma_exprs_view(s: Seq<Expr>, n: int)
    requires
        0 <= n <= s.len(),
    ensures
        exprs_view(s, n).len() == n,
        forall|i: int| 0 <= i < n ==> #[trigger] exprs_view(s, n)[i] == expr_view(s[i]),
    decreases n,
{
    if n > 0 {
        lemma_exprs_view(s, n - 1);
    }
}

pub proof fn lemma_pairs_view(s: Seq<(String, Expr)>, n: int)
    requires
        0 <= n <= s.len(),
    ensures
        pairs_view(s, n).len() == n,
        forall|i: int| 0 <= i < n ==> #[trigger] pairs_view(s, n)[i] == (s[i].0@, expr_view(s[i].1)),
    decreases n,
{
    if n > 0 {
        lemma_pairs_view(s, n - 1);
    }
}

impl View for Expr {
    type V = ExprV;

    open spec fn view(&self) -> ExprV {
        expr_view(*self)
    }
}

fn str_eq(a: &String, b: &String) -> (r: bool)
    ensures
        r == (a@ == b@),
{
    let x = chars_of(a.as_str());
    let y = chars_of(b.as_str());
    chars_eq(x.as_slice(), y.as_slice())
}

fn copy_strings(v: &Vec<String>) -> (r: Vec<String>)
    ensures
        r@.map_values(|s: String| s@) == v@.map_values(|s: String| s@),
{
    let mut r: Vec<String> = Vec::new();
    let mut i: usize = 0;
    while i < v.len()
        invariant
            i <= v@.len(),
            r@.len() == i,
            forall|j: int| 0 <= j < i ==> #[trigger] r@[j]@ == v@[j]@,
        decreases v@.len() - i,
    {
        r.push(v[i].clone());
        i = i + 1;
    }
    assert(r@.map_values(|s: String| s@) =~= v@.map_values(|s: String| s@));
    r
}

fn same_strings(a: &Vec<String>, b: &Vec<String>) -> (r: bool)
    ensures
        r == (a@.map_values(|s: String| s@) == b@.map_values(|s: String| s@)),
{
    if a.len() != b.len() {
        assert(a@.map_values(|s: String| s@).len() != b@.map_values(|s: String| s@).len());
        return false;
    }
    let mut i: usize = 0;
    while i < a.len()
        invariant
            i <= a@.len(),
            a@.len() == b@.len(),
            forall|j: int| 0 <= j < i ==> #[trigger] a@[j]@ == b@[j]@,
        decreases a@.len() - i,
    {
        if !str_eq(&a[i], &b[i]) {
            assert(a@.map_values(|s: String| s@)[i as int] != b@.map_values(|s: String| s@)[i as int]);
            return false;
        }
        i = i + 1;
    }
    assert(a@.map_values(|s: String| s@) =~= b@.map_values(|s: String| s@));
    true
}

fn copy_exprs(v: &Vec<Expr>) -> (r: Vec<Expr>)
    ensures
        exprs_view(r@, r@.len() as int) == exprs_view(v@, v@.len() as int),
        r@.len() == v@.len(),
    decreases v,
{
    let mut r: Vec<Expr> = Vec::new();
    let mut i: usize = 0;
    while i < v.len()
        invariant
            i <= v@.len(),
            r@.len() == i,
            forall|j: int| 0 <= j < i ==> #[trigger] expr_view(r@[j]) == expr_view(v@[j]),
        decreases v@.len() - i,
    {
        proof { assert(decreases_to!(*v => v[i as int])); }
        let c = v[i].copy();
        r.push(c);
        i = i + 1;
    }
    proof {
        lemma_exprs_view(r@, r@.len() as int);
        lemma_exprs_view(v@, v@.len() as int);
        assert(exprs_view(r@, r@.len() as int) =~= exprs_view(v@, v@.len() as int));
    }
    r
}

fn copy_pairs(v: &Vec<(String, Expr)>) -> (r: Vec<(String, Expr)>)
    ensures
        pairs_view(r@, r@.len() as int) == pairs_view(v@, v@.len() as int),
        r@.len() == v@.len(),
    decreases v,
{
    let mut r: Vec<(String, Expr)> = Vec::new();
    let mut i: usize = 0;
    while i < v.len()
        invariant
            i <= v@.len(),
            r@.len() == i,
            forall|j: int| 0 <= j < i ==> #[trigger] r@[j].0@ == v@[j].0@ && expr_view(r@[j].1) == expr_view(v@[j].1),
        decreases v@.len() - i,
    {
        proof {
            assert(decreases_to!(*v => v[i as int]));
            assert(decreases_to!(v[i as int] => v[i as int].1));
        }
        let c = v[i].1.copy();
        r.push((v[i].0.clone(), c));
        i = i + 1;
    }
    proof {
        lemma_pairs_view(r@, r@.len() as int);
        lemma_pairs_view(v@, v@.len() as int);
        assert(pairs_view(r@, r@.len() as int) =~= pairs_view(v@, v@.len() as int));
    }
    r
}

fn copy_opt_expr(o: &Option<Box<Expr>>) -> (r: Option<Box<Expr>>)
    ensures
        opt_expr_view(r) == opt_expr_view(*o),
    decreases o,
{
    match o {
        Some(b) => Some(Box::new((**b).copy())),
        None => None,
    }
}

fn same_exprs(a: &Vec<Expr>, b: &Vec<Expr>) -> (r: bool)
    ensures
        r == (exprs_view(a@, a@.len() as int) == exprs_view(b@, b@.len() as int)),
    decreases a,
{
    proof {
        lemma_exprs_view(a@, a@.len() as int);
        lemma_exprs_view(b@, b@.len() as int);
    }
    if a.len() != b.len() {
        return false;
    }
    let mut i: usize = 0;
    while i < a.len()
        invariant
            i <= a@.len(),
            a@.len() == b@.len(),
            exprs_view(a@, a@.len() as int).len() == a@.len(),
            exprs_view(b@, b@.len() as int).len() == b@.len(),
            forall|j: int| 0 <= j < a@.len() ==> #[trigger] exprs_view(a@, a@.len() as int)[j] == expr_view(a@[j]),
            forall|j: int| 0 <= j < b@.len() ==> #[trigger] exprs_view(b@, b@.len() as int)[j] == expr_view(b@[j]),
            forall|j: int| 0 <= j < i ==> #[trigger] expr_view(a@[j]) == expr_view(b@[j]),
        decreases a@.len() - i,
    {
        proof { assert(decreases_to!(*a => a[i as int])); }
        if !a[i].same(&b[i]) {
            assert(exprs_view(a@, a@.len() as int)[i as int] != exprs_view(b@, b@.len() as int)[i as int]);
            return false;
        }
        i = i + 1;
    }
    assert(exprs_view(a@, a@.len() as int) =~= exprs_view(b@, b@.len() as int));
    true
}

fn same_pairs(a: &Vec<(String, Expr)>, b: &Vec<(String, Expr)>) -> (r: bool)
    ensures
        r == (pairs_view(a@, a@.len() as int) == pairs_view(b@, b@.len() as int)),
    decreases a,
{
    proof {
        lemma_pairs_view(a@, a@.len() as int);
        lemma_pairs_view(b@, b@.len() as int);
    }
    if a.len() != b.len() {
        return false;
    }
    let mut i: usize = 0;
    while i < a.len()
        invariant
            i <= a@.len(),
            a@.len() == b@.len(),
            pairs_view(a@, a@.len() as int).len() == a@.len(),
            pairs_view(b@, b@.len() as int).len() == b@.len(),
            forall|j: int| 0 <= j < a@.len() ==> #[trigger] pairs_view(a@, a@.len() as int)[j] == (a@[j].0@, expr_view(a@[j].1)),
            forall|j: int| 0 <= j < b@.len() ==> #[trigger] pairs_view(b@, b@.len() as int)[j] == (b@[j].0@, expr_view(b@[j].1)),
            forall|j: int| 0 <= j < i ==> (#[trigger] a@[j]).0@ == b@[j].0@ && expr_view(a@[j].1) == expr_view(b@[j].1),
        decreases a@.len() - i,
    {
        proof {
            assert(decreases_to!(*a => a[i as int]));
            assert(decreases_to!(a[i as int] => a[i as int].1));
        }
        let names = str_eq(&a[i].0, &b[i].0);
        if !names {
            assert(pairs_view(a@, a@.len() as int)[i as int] != pairs_view(b@, b@.len() as int)[i as int]);
            return false;
        }
        let values = a[i].1.same(&b[i].1);
        if !values {
            assert(pairs_view(a@, a@.len() as int)[i as int] != pairs_view(b@, b@.len() as int)[i as int]);
            return false;
        }
        assert(a@[i as int].0@ == b@[i as int].0@ && expr_view(a@[i as int].1) == expr_view(b@[i as int].1));
        i = i + 1;
    }
    assert(pairs_view(a@, a@.len() as int) =~= pairs_view(b@, b@.len() as int));
    true
}

fn same_opt_expr(a: &Option<Box<Expr>>, b: &Option<Box<Expr>>) -> (r: bool)
    ensures
        r == (opt_expr_view(*a) == opt_expr_view(*b)),
    decreases a,
{
    match (a, b) {
        (Some(x), Some(y)) => (**x).same(&**y),
        (None, None) => true,
        _ => false,
    }
}

impl Expr {
    /// A copy of the expression.
    pub fn copy(&self) -> (r: Expr)
        ensures
            r@ == self@,
        decreases self,
    {
        match self {
            Expr::Integer(a0) => Expr::Integer(*a0),
            Expr::Float(a0) => Expr::Float(*a0),
            Expr::String(a0) => Expr::String(a0.clone()),
            Expr::Bool(a0) => Expr::Bool(*a0),
            Expr::Identifier(a0) => Expr::Identifier(a0.clone()),
            Expr::OwnedRef(a0) => Expr::OwnedRef(a0.clone()),
            Expr::PriorState(a0) => Expr::PriorState(a0.clone()),
            Expr::Add(a0, a1) => Expr::Add(Box::new((**a0).copy()), Box::new((**a1).copy())),
            Expr::Sub(a0, a1) => Expr::Sub(Box::new((**a0).copy()), Box::new((**a1).copy())),
            Expr::Mul(a0, a1) => Expr::Mul(Box::new((**a0).copy()), Box::new((**a1).copy())),
            Expr::Div(a0, a1) => Expr::Div(Box::new((**a0).copy()), Box::new((**a1).copy())),
            Expr::Eq(a0, a1) => Expr::Eq(Box::new((**a0).copy()), Box::new((**a1).copy())),
            Expr::Ne(a0, a1) => Expr::Ne(Box::new((**a0).copy()), Box::new((**a1).copy())),
            Expr::Lt(a0, a1) => Expr::Lt(Box::new((**a0).copy()), Box::new((**a1).copy())),
            Expr::Le(a0, a1) => Expr::Le(Box::new((**a0).copy()), Box::new((**a1).copy())),
            Expr::Gt(a0, a1) => Expr::Gt(Box::new((**a0).copy()), Box::new((**a1).copy())),
            Expr::Ge(a0, a1) => Expr::Ge(Box::new((**a0).copy()), Box::new((**a1).copy())),
            Expr::Or(a0, a1) => Expr::Or(Box::new((**a0).copy()), Box::new((**a1).copy())),
            Expr::And(a0, a1) => Expr::And(Box::new((**a0).copy()), Box::new((**a1).copy())),
            Expr::Not(a0) => Expr::Not(Box::new((**a0).copy())),
            Expr::Neg(a0) => Expr::Neg(Box::new((**a0).copy())),
            Expr::BitNot(a0) => Expr::BitNot(Box::new((**a0).copy())),
            Expr::BitAnd(a0, a1) => Expr::BitAnd(Box::new((**a0).copy()), Box::new((**a1).copy())),
            Expr::BitOr(a0, a1) => Expr::BitOr(Box::new((**a0).copy()), Box::new((**a1).copy())),
            Expr::BitXor(a0, a1) => Expr::BitXor(Box::new((**a0).copy()), Box::new((**a1).copy())),
            Expr::Shl(a0, a1) => Expr::Shl(Box::new((**a0).copy()), Box::new((**a1).copy())),
            Expr::Shr(a0, a1) => Expr::Shr(Box::new((**a0).copy()), Box::new((**a1).copy())),
            Expr::Call(a0, a1) => {
                proof { assert(decreases_to!(*self => (*self)->Call_1)); }
                Expr::Call(a0.clone(), copy_exprs(a1))
            }
            Expr::ListLiteral(a0) => {
                proof { assert(decreases_to!(*self => (*self)->ListLiteral_0)); }
                Expr::ListLiteral(copy_exprs(a0))
            }
            Expr::ListIndex(a0, a1) => Expr::ListIndex(Box::new((**a0).copy()), Box::new((**a1).copy())),
            Expr::ListLen(a0) => Expr::ListLen(Box::new((**a0).copy())),
            Expr::Slice { value, start, end, stride } => {
                proof { assert(decreases_to!(*self => (*self)->Slice_start)); }
                proof { assert(decreases_to!(*self => (*self)->Slice_end)); }
                proof { assert(decreases_to!(*self => (*self)->Slice_stride)); }
                Expr::Slice { value: Box::new((**value).copy()), start: copy_opt_expr(start), end: copy_opt_expr(end), stride: copy_opt_expr(stride) }
            }
            Expr::FieldAccess(a0, a1) => Expr::FieldAccess(Box::new((**a0).copy()), a1.clone()),
            Expr::StructInstance(a0, a1) => {
                proof { assert(decreases_to!(*self => (*self)->StructInstance_1)); }
                Expr::StructInstance(a0.clone(), copy_pairs(a1))
            }
            Expr::ObjectLiteral(a0) => {
                proof { assert(decreases_to!(*self => (*self)->ObjectLiteral_0)); }
                Expr::ObjectLiteral(copy_pairs(a0))
            }
            Expr::PatternMatch { value, variant, fields } => Expr::PatternMatch { value: Box::new((**value).copy()), variant: variant.clone(), fields: copy_strings(fields) },
            Expr::ForAll { var, expr } => Expr::ForAll { var: var.clone(), expr: Box::new((**expr).copy()) },
            Expr::Exists { var, expr } => Expr::Exists { var: var.clone(), expr: Box::new((**expr).copy()) },
        }
    }

    /// The two expressions are the same tree.
    #[verifier::spinoff_prover]
    #[verifier::rlimit(60)]
    pub fn same(&self, other: &Expr) -> (r: bool)
        ensures
            r == (self@ == other@),
        decreases self,
    {
        match (self, other) {
            (Expr::Integer(a01), Expr::Integer(a02)) => *a01 == *a02,
            (Expr::Float(a01), Expr::Float(a02)) => *a01 == *a02,
            (Expr::String(a01), Expr::String(a02)) => str_eq(a01, a02),
            (Expr::Bool(a01), Expr::Bool(a02)) => *a01 == *a02,
            (Expr::Identifier(a01), Expr::Identifier(a02)) => str_eq(a01, a02),
            (Expr::OwnedRef(a01), Expr::OwnedRef(a02)) => str_eq(a01, a02),
            (Expr::PriorState(a01), Expr::PriorState(a02)) => str_eq(a01, a02),
            (Expr::Add(a01, a11), Expr::Add(a02, a12)) => (**a01).same(&**a02) && (**a11).same(&**a12),
            (Expr::Sub(a01, a11), Expr::Sub(a02, a12)) => (**a01).same(&**a02) && (**a11).same(&**a12),
            (Expr::Mul(a01, a11), Expr::Mul(a02, a12)) => (**a01).same(&**a02) && (**a11).same(&**a12),
            (Expr::Div(a01, a11), Expr::Div(a02, a12)) => (**a01).same(&**a02) && (**a11).same(&**a12),
            (Expr::Eq(a01, a11), Expr::Eq(a02, a12)) => (**a01).same(&**a02) && (**a11).same(&**a12),
            (Expr::Ne(a01, a11), Expr::Ne(a02, a12)) => (**a01).same(&**a02) && (**a11).same(&**a12),
            (Expr::Lt(a01, a11), Expr::Lt(a02, a12)) => (**a01).same(&**a02) && (**a11).same(&**a12),
            (Expr::Le(a01, a11), Expr::Le(a02, a12)) => (**a01).same(&**a02) && (**a11).same(&**a12),
            (Expr::Gt(a01, a11), Expr::Gt(a02, a12)) => (**a01).same(&**a02) && (**a11).same(&**a12),
            (Expr::Ge(a01, a11), Expr::Ge(a02, a12)) => (**a01).same(&**a02) && (**a11).same(&**a12),
            (Expr::Or(a01, a11), Expr::Or(a02, a12)) => (**a01).same(&**a02) && (**a11).same(&**a12),
            (Expr::And(a01, a11), Expr::And(a02, a12)) => (**a01).same(&**a02) && (**a11).same(&**a12),
            (Expr::Not(a01), Expr::Not(a02)) => (**a01).same(&**a02),
            (Expr::Neg(a01), Expr::Neg(a02)) => (**a01).same(&**a02),
            (Expr::BitNot(a01), Expr::BitNot(a02)) => (**a01).same(&**a02),
            (Expr::BitAnd(a01, a11), Expr::BitAnd(a02, a12)) => (**a01).same(&**a02) && (**a11).same(&**a12),
            (Expr::BitOr(a01, a11), Expr::BitOr(a02, a12)) => (**a01).same(&**a02) && (**a11).same(&**a12),
            (Expr::BitXor(a01, a11), Expr::BitXor(a02, a12)) => (**a01).same(&**a02) && (**a11).same(&**a12),
            (Expr::Shl(a01, a11), Expr::Shl(a02, a12)) => (**a01).same(&**a02) && (**a11).same(&**a12),
            (Expr::Shr(a01, a11), Expr::Shr(a02, a12)) => (**a01).same(&**a02) && (**a11).same(&**a12),
            (Expr::Call(a01, a11), Expr::Call(a02, a12)) => {
                proof { assert(decreases_to!(*self => (*self)->Call_1)); }
                str_eq(a01, a02) && same_exprs(a11, a12)
            }
            (Expr::ListLiteral(a01), Expr::ListLiteral(a02)) => {
                proof { assert(decreases_to!(*self => (*self)->ListLiteral_0)); }
                same_exprs(a01, a02)
            }
            (Expr::ListIndex(a01, a11), Expr::ListIndex(a02, a12)) => (**a01).same(&**a02) && (**a11).same(&**a12),
            (Expr::ListLen(a01), Expr::ListLen(a02)) => (**a01).same(&**a02),
            (Expr::Slice { value: value1, start: start1, end: end1, stride: stride1 }, Expr::Slice { value: value2, start: start2, end: end2, stride: stride2 }) => {
                proof { assert(decreases_to!(*self => (*self)->Slice_start)); }
                proof { assert(decreases_to!(*self => (*self)->Slice_end)); }
                proof { assert(decreases_to!(*self => (*self)->Slice_stride)); }
                (**value1).same(&**value2) && same_opt_expr(start1, start2) && same_opt_expr(end1, end2) && same_opt_expr(stride1, stride2)
            }
            (Expr::FieldAccess(a01, a11), Expr::FieldAccess(a02, a12)) => (**a01).same(&**a02) && str_eq(a11, a12),
            (Expr::StructInstance(a01, a11), Expr::StructInstance(a02, a12)) => {
                proof { assert(decreases_to!(*self => (*self)->StructInstance_1)); }
                str_eq(a01, a02) && same_pairs(a11, a12)
            }
            (Expr::ObjectLiteral(a01), Expr::ObjectLiteral(a02)) => {
                proof { assert(decreases_to!(*self => (*self)->ObjectLiteral_0)); }
                same_pairs(a01, a02)
            }
            (Expr::PatternMatch { value: value1, variant: variant1, fields: fields1 }, Expr::PatternMatch { value: value2, variant: variant2, fields: fields2 }) => (**value1).same(&**value2) && str_eq(variant1, variant2) && same_strings(fields1, fields2),
            (Expr::ForAll { var: var1, expr: expr1 }, Expr::ForAll { var: var2, expr: expr2 }) => str_eq(var1, var2) && (**expr1).same(&**expr2),
            (Expr::Exists { var: var1, expr: expr1 }, Expr::Exists { var: var2, expr: expr2 }) => str_eq(var1, var2) && (**expr1).same(&**expr2),
            _ => false,
        }
    }
}

// ---------------------------------------------------------------------------
// Types

/// A Brief type.
#[derive(Debug)]
pub enum Type {
    Int,
    Float,
    String,
    Bool,
    Data,
    Void,
    UInt,
    Custom(String),
    Union(Vec<Type>),
    ContractBound(Box<Type>, Box<Expr>),
    TypeVar(String),
    Generic(String, Vec<Type>),
    Applied(String, Vec<Type>),
    Sig(String),
    Vector(Box<Type>, usize),
    Option(Box<Type>),
    Enum(String),
    Constrained(Box<Type>, BitRange),
}

/// A type as a mathematical value.
pub enum TypeV {
    Int,
    Float,
    String,
    Bool,
    Data,
    Void,
    UInt,
    Custom(Seq<char>),
    Union(Seq<TypeV>),
    ContractBound(Box<TypeV>, Box<ExprV>),
    TypeVar(Seq<char>),
    Generic(Seq<char>, Seq<TypeV>),
    Applied(Seq<char>, Seq<TypeV>),
    Sig(Seq<char>),
    Vector(Box<TypeV>, usize),
    Option(Box<TypeV>),
    Enum(Seq<char>),
    Constrained(Box<TypeV>, BitRange),
}

pub open spec fn type_view(t: Type) -> TypeV
    decreases t,
{
    match t {
        Type::Int => TypeV::Int,
        Type::Float => TypeV::Float,
        Type::String => TypeV::String,
        Type::Bool => TypeV::Bool,
        Type::Data => TypeV::Data,
        Type::Void => TypeV::Void,
        Type::UInt => TypeV::UInt,
        Type::Custom(a0) => TypeV::Custom(a0@),
        Type::Union(a0) => TypeV::Union(types_view(a0@, a0@.len() as int)),
        Type::ContractBound(a0, a1) => TypeV::ContractBound(Box::new(type_view(*a0)), Box::new(expr_view(*a1))),
        Type::TypeVar(a0) => TypeV::TypeVar(a0@),
        Type::Generic(a0, a1) => TypeV::Generic(a0@, types_view(a1@, a1@.len() as int)),
        Type::Applied(a0, a1) => TypeV::Applied(a0@, types_view(a1@, a1@.len() as int)),
        Type::Sig(a0) => TypeV::Sig(a0@),
        Type::Vector(a0, a1) => TypeV::Vector(Box::new(type_view(*a0)), a1),
        Type::Option(a0) => TypeV::Option(Box::new(type_view(*a0))),
        Type::Enum(a0) => TypeV::Enum(a0@),
        Type::Constrained(a0, a1) => TypeV::Constrained(Box::new(type_view(*a0)), a1),
    }
}

/// The views of the first `n` types.
pub open spec fn types_view(s: Seq<Type>, n: int) -> Seq<TypeV>
    decreases s, n,
{
    if n <= 0 || n > s.len() {
        seq![]
    } else {
        types_view(s, n - 1).push(type_view(s[n - 1]))
    }
}

pub proof fn lemma_types_view(s: Seq<Type>, n: int)
    requires
        0 <= n <= s.len(),
    ensures
        types_view(s, n).len() == n,
        forall|i: int| 0 <= i < n ==> #[trigger] types_view(s, n)[i] == type_view(s[i]),
    decreases n,
{
    if n > 0 {
        lemma_types_view(s, n - 1);
    }
}

impl View for Type {
    type V = TypeV;

    open spec fn view(&self) -> TypeV {
        type_view(*self)
    }
}

/// The views of a vector of types.
pub open spec fn type_list(v: Seq<Type>) -> Seq<TypeV> {
    types_view(v, v.len() as int)
}

pub fn copy_types(v: &Vec<Type>) -> (r: Vec<Type>)
    ensures
        type_list(r@) == type_list(v@),
        r@.len() == v@.len(),
    decreases v,
{
    let mut r: Vec<Type> = Vec::new();
    let mut i: usize = 0;
    while i < v.len()
        invariant
            i <= v@.len(),
            r@.len() == i,
            forall|j: int| 0 <= j < i ==> #[trigger] type_view(r@[j]) == type_view(v@[j]),
        decreases v@.len() - i,
    {
        proof { assert(decreases_to!(*v => v[i as int])); }
        let c = v[i].copy();
        r.push(c);
        i = i + 1;
    }
    proof {
        lemma_types_view(r@, r@.len() as int);
        lemma_types_view(v@, v@.len() as int);
        assert(type_list(r@) =~= type_list(v@));
    }
    r
}

fn same_types(a: &Vec<Type>, b: &Vec<Type>) -> (r: bool)
    ensures
        r == (type_list(a@) == type_list(b@)),
    decreases a,
{
    proof {
        lemma_types_view(a@, a@.len() as int);
        lemma_types_view(b@, b@.len() as int);
    }
    if a.len() != b.len() {
        return false;
    }
    let mut i: usize = 0;
    while i < a.len()
        invariant
            i <= a@.len(),
            a@.len() == b@.len(),
            type_list(a@).len() == a@.len(),
            type_list(b@).len() == b@.len(),
            forall|j: int| 0 <= j < a@.len() ==> #[trigger] type_list(a@)[j] == type_view(a@[j]),
            forall|j: int| 0 <= j < b@.len() ==> #[trigger] type_list(b@)[j] == type_view(b@[j]),
            forall|j: int| 0 <= j < i ==> #[trigger] type_view(a@[j]) == type_view(b@[j]),
        decreases a@.len() - i,
    {
        proof { assert(decreases_to!(*a => a[i as int])); }
        if !a[i].same(&b[i]) {
            assert(type_list(a@)[i as int] != type_list(b@)[i as int]);
            return false;
        }
        i = i + 1;
    }
    assert(type_list(a@) =~= type_list(b@));
    true
}

impl Type {
    /// A copy of the type.
    pub fn copy(&self) -> (r: Type)
        ensures
            r@ == self@,
        decreases self,
    {
        match self {
            Type::Int => Type::Int,
            Type::Float => Type::Float,
            Type::String => Type::String,
            Type::Bool => Type::Bool,
            Type::Data => Type::Data,
            Type::Void => Type::Void,
            Type::UInt => Type::UInt,
            Type::Custom(a0) => Type::Custom(a0.clone()),
            Type::Union(a0) => {
                proof { assert(decreases_to!(*self => (*self)->Union_0)); }
                Type::Union(copy_types(a0))
            }
            Type::ContractBound(a0, a1) => Type::ContractBound(Box::new((**a0).copy()), Box::new((**a1).copy())),
            Type::TypeVar(a0) => Type::TypeVar(a0.clone()),
            Type::Generic(a0, a1) => {
                proof { assert(decreases_to!(*self => (*self)->Generic_1)); }
                Type::Generic(a0.clone(), copy_types(a1))
            }
            Type::Applied(a0, a1) => {
                proof { assert(decreases_to!(*self => (*self)->Applied_1)); }
                Type::Applied(a0.clone(), copy_types(a1))
            }
            Type::Sig(a0) => Type::Sig(a0.clone()),
            Type::Vector(a0, a1) => Type::Vector(Box::new((**a0).copy()), *a1),
            Type::Option(a0) => Type::Option(Box::new((**a0).copy())),
            Type::Enum(a0) => Type::Enum(a0.clone()),
            Type::Constrained(a0, a1) => Type::Constrained(Box::new((**a0).copy()), *a1),
        }
    }

    /// The two types are the same.
    pub fn same(&self, other: &Type) -> (r: bool)
        ensures
            r == (self@ == other@),
        decreases self,
    {
        match (self, other) {
            (Type::Int, Type::Int) => true,
            (Type::Float, Type::Float) => true,
            (Type::String, Type::String) => true,
            (Type::Bool, Type::Bool) => true,
            (Type::Data, Type::Data) => true,
            (Type::Void, Type::Void) => true,
            (Type::UInt, Type::UInt) => true,
            (Type::Custom(a01), Type::Custom(a02)) => str_eq(a01, a02),
            (Type::Union(a01), Type::Union(a02)) => {
                proof { assert(decreases_to!(*self => (*self)->Union_0)); }
                same_types(a01, a02)
            }
            (Type::ContractBound(a01, a11), Type::ContractBound(a02, a12)) => (**a01).same(&**a02) && (**a11).same(&**a12),
            (Type::TypeVar(a01), Type::TypeVar(a02)) => str_eq(a01, a02),
            (Type::Generic(a01, a11), Type::Generic(a02, a12)) => {
                proof { assert(decreases_to!(*self => (*self)->Generic_1)); }
                str_eq(a01, a02) && same_types(a11, a12)
            }
            (Type::Applied(a01, a11), Type::Applied(a02, a12)) => {
                proof { assert(decreases_to!(*self => (*self)->Applied_1)); }
                str_eq(a01, a02) && same_types(a11, a12)
            }
            (Type::Sig(a01), Type::Sig(a02)) => str_eq(a01, a02),
            (Type::Vector(a01, a11), Type::Vector(a02, a12)) => (**a01).same(&**a02) && *a11 == *a12,
            (Type::Option(a01), Type::Option(a02)) => (**a01).same(&**a02),
            (Type::Enum(a01), Type::Enum(a02)) => str_eq(a01, a02),
            (Type::Constrained(a01, a11), Type::Constrained(a02, a12)) => (**a01).same(&**a02) && *a11 == *a12,
            _ => false,

        }
    }
}

// ---------------------------------------------------------------------------
// Dependencies of an expression

/// The state an expression reads: the names of the identifiers, owned
/// references and prior-state references in it. Shifts contribute nothing.
pub open spec fn deps(e: ExprV) -> Set<Seq<char>>
    decreases e,
{
    match e {
        ExprV::Identifier(n) => set![n],
        ExprV::OwnedRef(n) => set![n],
        ExprV::PriorState(n) => set![n],
        ExprV::Add(l, r) => deps(*l) + deps(*r),
        ExprV::Sub(l, r) => deps(*l) + deps(*r),
        ExprV::Mul(l, r) => deps(*l) + deps(*r),
        ExprV::Div(l, r) => deps(*l) + deps(*r),
        ExprV::BitAnd(l, r) => deps(*l) + deps(*r),
        ExprV::BitOr(l, r) => deps(*l) + deps(*r),
        ExprV::BitXor(l, r) => deps(*l) + deps(*r),
        ExprV::Eq(l, r) => deps(*l) + deps(*r),
        ExprV::Ne(l, r) => deps(*l) + deps(*r),
        ExprV::Lt(l, r) => deps(*l) + deps(*r),
        ExprV::Le(l, r) => deps(*l) + deps(*r),
        ExprV::Gt(l, r) => deps(*l) + deps(*r),
        ExprV::Ge(l, r) => deps(*l) + deps(*r),
        ExprV::Or(l, r) => deps(*l) + deps(*r),
        ExprV::And(l, r) => deps(*l) + deps(*r),
        ExprV::Not(x) => deps(*x),
        ExprV::Neg(x) => deps(*x),
        ExprV::BitNot(x) => deps(*x),
        ExprV::ListLen(x) => deps(*x),
        ExprV::Call(_, args) => deps_list(args, args.len() as int),
        ExprV::ListLiteral(args) => deps_list(args, args.len() as int),
        ExprV::ListIndex(l, i) => deps(*l) + deps(*i),
        ExprV::Slice { value, start, end, stride } => deps(*value) + deps_opt(start) + deps_opt(end) + deps_opt(stride),
        ExprV::FieldAccess(x, _) => deps(*x),
        ExprV::StructInstance(_, fields) => deps_pairs(fields, fields.len() as int),
        ExprV::ObjectLiteral(fields) => deps_pairs(fields, fields.len() as int),
        ExprV::PatternMatch { value, .. } => deps(*value),
        ExprV::ForAll { expr, .. } => deps(*expr),
        ExprV::Exists { expr, .. } => deps(*expr),
        _ => Set::empty(),
    }
}

pub open spec fn deps_opt(o: Option<Box<ExprV>>) -> Set<Seq<char>>
    decreases o,
{
    match o {
        Some(b) => deps(*b),
        None => Set::empty(),
    }
}

/// The dependencies of the first `n` expressions.
pub open spec fn deps_list(s: Seq<ExprV>, n: int) -> Set<Seq<char>>
    decreases s, n,
{
    if n <= 0 || n > s.len() {
        Set::empty()
    } else {
        deps_list(s, n - 1) + deps(s[n - 1])
    }
}

/// The dependencies of the first `n` named expressions.
pub open spec fn deps_pairs(s: Seq<(Seq<char>, ExprV)>, n: int) -> Set<Seq<char>>
    decreases s, n,
{
    if n <= 0 || n > s.len() {
        Set::empty()
    } else {
        deps_pairs(s, n - 1) + deps(s[n - 1].1)
    }
}

/// The set of names a vector holds.
pub open spec fn name_set(v: Seq<String>) -> Set<Seq<char>> {
    v.map_values(|s: String| s@).to_set()
}

/// No name occurs twice.
pub open spec fn no_dup_names(v: Seq<String>) -> bool {
    forall|i: int, j: int| 0 <= i < j < v.len() ==> v[i]@ != v[j]@
}

pub(crate) fn add_name(acc: &mut Vec<String>, name: &String)
    requires
        no_dup_names(old(acc)@),
    ensures
        no_dup_names(final(acc)@),
        name_set(final(acc)@) == name_set(old(acc)@).insert(name@),
{
    let ghost before = acc@;
    let mut i: usize = 0;
    while i < acc.len()
        invariant
            i <= acc@.len(),
            acc@ == before,
            no_dup_names(before),
            forall|j: int| 0 <= j < i ==> acc@[j]@ != name@,
        decreases acc@.len() - i,
    {
        if str_eq(&acc[i], name) {
            assert(name_set(acc@) =~= name_set(acc@).insert(name@)) by {
                assert(acc@.map_values(|s: String| s@)[i as int] == name@);
            }
            return;
        }
        i = i + 1;
    }
    acc.push(name.clone());
    assert(acc@.map_values(|s: String| s@) =~= before.map_values(|s: String| s@).push(name@));
    assert(name_set(acc@) =~= name_set(before).insert(name@)) by {
        let a = acc@.map_values(|s: String| s@);
        let b0 = before.map_values(|s: String| s@);
        assert forall|x: Seq<char>| a.contains(x) <==> (b0.contains(x) || x == name@) by {
            if a.contains(x) {
                let k = choose|k: int| 0 <= k < a.len() && a[k] == x;
                if k < b0.len() {
                    assert(b0[k] == x);
                }
            }
            if b0.contains(x) {
                let k = choose|k: int| 0 <= k < b0.len() && b0[k] == x;
                assert(a[k] == x);
            }
            if x == name@ {
                assert(a[b0.len() as int] == x);
            }
        }
    }
}

impl Expr {
    /// The names the expression reads, each once.
    pub fn extract_dependencies(&self) -> (r: Vec<String>)
        ensures
            no_dup_names(r@),
            name_set(r@) == deps(self@),
    {
        let mut acc: Vec<String> = Vec::new();
        assert(name_set(acc@) =~= Set::<Seq<char>>::empty());
        self.extract_deps_recursive(&mut acc);
        assert(name_set(acc@) =~= deps(self@));
        acc
    }

    /// Adds the names the expression reads to `acc`.
    pub fn extract_deps_recursive(&self, acc: &mut Vec<String>)
        requires
            no_dup_names(old(acc)@),
        ensures
            no_dup_names(final(acc)@),
            name_set(final(acc)@) == name_set(old(acc)@) + deps(self@),
        decreases self,
    {
        let ghost start = name_set(acc@);
        match self {
            Expr::Identifier(n) => { add_name(acc, n);
                proof { assert(name_set(acc@) =~= start + deps(self@)); }
            }
            Expr::OwnedRef(n) => { add_name(acc, n);
                proof { assert(name_set(acc@) =~= start + deps(self@)); }
            }
            Expr::PriorState(n) => { add_name(acc, n);
                proof { assert(name_set(acc@) =~= start + deps(self@)); }
            }
            Expr::Add(l, r) => {
                (**l).extract_deps_recursive(acc);
                (**r).extract_deps_recursive(acc);
                proof { assert(name_set(acc@) =~= start + deps(self@)); }
            }
            Expr::Sub(l, r) => {
                (**l).extract_deps_recursive(acc);
                (**r).extract_deps_recursive(acc);
                proof { assert(name_set(acc@) =~= start + deps(self@)); }
            }
            Expr::Mul(l, r) => {
                (**l).extract_deps_recursive(acc);
                (**r).extract_deps_recursive(acc);
                proof { assert(name_set(acc@) =~= start + deps(self@)); }
            }
            Expr::Div(l, r) => {
                (**l).extract_deps_recursive(acc);
                (**r).extract_deps_recursive(acc);
                proof { assert(name_set(acc@) =~= start + deps(self@)); }
            }
            Expr::BitAnd(l, r) => {
                (**l).extract_deps_recursive(acc);
                (**r).extract_deps_recursive(acc);
                proof { assert(name_set(acc@) =~= start + deps(self@)); }
            }
            Expr::BitOr(l, r) => {
                (**l).extract_deps_recursive(acc);
                (**r).extract_deps_recursive(acc);
                proof { assert(name_set(acc@) =~= start + deps(self@)); }
            }
            Expr::BitXor(l, r) => {
                (**l).extract_deps_recursive(acc);
                (**r).extract_deps_recursive(acc);
                proof { assert(name_set(acc@) =~= start + deps(self@)); }
            }
            Expr::Eq(l, r) => {
                (**l).extract_deps_recursive(acc);
                (**r).extract_deps_recursive(acc);
                proof { assert(name_set(acc@) =~= start + deps(self@)); }
            }
            Expr::Ne(l, r) => {
                (**l).extract_deps_recursive(acc);
                (**r).extract_deps_recursive(acc);
                proof { assert(name_set(acc@) =~= start + deps(self@)); }
            }
            Expr::Lt(l, r) => {
                (**l).extract_deps_recursive(acc);
                (**r).extract_deps_recursive(acc);
                proof { assert(name_set(acc@) =~= start + deps(self@)); }
            }
            Expr::Le(l, r) => {
                (**l).extract_deps_recursive(acc);
                (**r).extract_deps_recursive(acc);
                proof { assert(name_set(acc@) =~= start + deps(self@)); }
            }
            Expr::Gt(l, r) => {
                (**l).extract_deps_recursive(acc);
                (**r).extract_deps_recursive(acc);
                proof { assert(name_set(acc@) =~= start + deps(self@)); }
            }
            Expr::Ge(l, r) => {
                (**l).extract_deps_recursive(acc);
                (**r).extract_deps_recursive(acc);
                proof { assert(name_set(acc@) =~= start + deps(self@)); }
            }
            Expr::Or(l, r) => {
                (**l).extract_deps_recursive(acc);
                (**r).extract_deps_recursive(acc);
                proof { assert(name_set(acc@) =~= start + deps(self@)); }
            }
            Expr::And(l, r) => {
                (**l).extract_deps_recursive(acc);
                (**r).extract_deps_recursive(acc);
                proof { assert(name_set(acc@) =~= start + deps(self@)); }
            }
            Expr::ListIndex(l, r) => {
                (**l).extract_deps_recursive(acc);
                (**r).extract_deps_recursive(acc);
                proof { assert(name_set(acc@) =~= start + deps(self@)); }
            }
            Expr::Not(x) => {
                (**x).extract_deps_recursive(acc);
                proof { assert(name_set(acc@) =~= start + deps(self@)); }
            }
            Expr::Neg(x) => {
                (**x).extract_deps_recursive(acc);
                proof { assert(name_set(acc@) =~= start + deps(self@)); }
            }
            Expr::BitNot(x) => {
                (**x).extract_deps_recursive(acc);
                proof { assert(name_set(acc@) =~= start + deps(self@)); }
            }
            Expr::ListLen(x) => {
                (**x).extract_deps_recursive(acc);
                proof { assert(name_set(acc@) =~= start + deps(self@)); }
            }
            Expr::FieldAccess(x, _) => {
                (**x).extract_deps_recursive(acc);
                proof { assert(name_set(acc@) =~= start + deps(self@)); }
            }
            Expr::PatternMatch { value, .. } => {
                (**value).extract_deps_recursive(acc);
                proof { assert(name_set(acc@) =~= start + deps(self@)); }
            }
            Expr::ForAll { expr, .. } => {
                (**expr).extract_deps_recursive(acc);
                proof { assert(name_set(acc@) =~= start + deps(self@)); }
            }
            Expr::Exists { expr, .. } => {
                (**expr).extract_deps_recursive(acc);
                proof { assert(name_set(acc@) =~= start + deps(self@)); }
            }
            Expr::Call(_, args) => {
                proof { assert(decreases_to!(*self => (*self)->Call_1)); }
                extract_list(args, acc);
                proof { lemma_exprs_view(args@, args@.len() as int); }
                proof { assert(name_set(acc@) =~= start + deps(self@)); }
            }
            Expr::ListLiteral(args) => {
                proof { assert(decreases_to!(*self => (*self)->ListLiteral_0)); }
                extract_list(args, acc);
                proof { lemma_exprs_view(args@, args@.len() as int); }
                proof { assert(name_set(acc@) =~= start + deps(self@)); }
            }
            Expr::StructInstance(_, fields) => {
                proof { assert(decreases_to!(*self => (*self)->StructInstance_1)); }
                extract_pairs(fields, acc);
                proof { lemma_pairs_view(fields@, fields@.len() as int); }
                proof { assert(name_set(acc@) =~= start + deps(self@)); }
            }
            Expr::ObjectLiteral(fields) => {
                proof { assert(decreases_to!(*self => (*self)->ObjectLiteral_0)); }
                extract_pairs(fields, acc);
                proof { lemma_pairs_view(fields@, fields@.len() as int); }
                proof { assert(name_set(acc@) =~= start + deps(self@)); }
            }
            Expr::Slice { value, start: s0, end: e0, stride: st0 } => {
                (**value).extract_deps_recursive(acc);
                proof { assert(decreases_to!(*self => (*self)->Slice_start)); }
                extract_opt(s0, acc);
                proof { assert(decreases_to!(*self => (*self)->Slice_end)); }
                extract_opt(e0, acc);
                proof { assert(decreases_to!(*self => (*self)->Slice_stride)); }
                extract_opt(st0, acc);
                proof { assert(name_set(acc@) =~= start + deps(self@)); }
            }
            _ => {
                proof { assert(name_set(acc@) =~= start + deps(self@)); }
            }
        }
    }

    /// Expressions carry no source location.
    pub fn span(&self) -> (r: Option<Span>)
        ensures
            r is None,
    {
        None
    }
}

fn extract_list(args: &Vec<Expr>, acc: &mut Vec<String>)
    requires
        no_dup_names(old(acc)@),
    ensures
        no_dup_names(final(acc)@),
        name_set(final(acc)@) == name_set(old(acc)@) + deps_list(exprs_view(args@, args@.len() as int), args@.len() as int),
    decreases args,
{
    let ghost start = name_set(acc@);
    let ghost n = args@.len() as int;
    proof {
        lemma_exprs_view(args@, n);
    }
    let mut i: usize = 0;
    assert(name_set(acc@) =~= start + deps_list(exprs_view(args@, n), 0));
    while i < args.len()
        invariant
            i <= args@.len(),
            no_dup_names(acc@),
            n == args@.len(),
            name_set(acc@) == start + deps_list(exprs_view(args@, n), i as int),
            exprs_view(args@, n).len() == n,
            forall|j: int| 0 <= j < n ==> #[trigger] exprs_view(args@, n)[j] == expr_view(args@[j]),
        decreases args@.len() - i,
    {
        proof { assert(decreases_to!(*args => args[i as int])); }
        args[i].extract_deps_recursive(acc);
        proof {
            assert(exprs_view(args@, n)[i as int] == expr_view(args@[i as int]));
            assert(name_set(acc@) =~= start + deps_list(exprs_view(args@, n), i + 1));
        }
        i = i + 1;
    }
}

fn extract_pairs(fields: &Vec<(String, Expr)>, acc: &mut Vec<String>)
    requires
        no_dup_names(old(acc)@),
    ensures
        no_dup_names(final(acc)@),
        name_set(final(acc)@) == name_set(old(acc)@) + deps_pairs(pairs_view(fields@, fields@.len() as int), fields@.len() as int),
    decreases fields,
{
    let ghost start = name_set(acc@);
    let ghost n = fields@.len() as int;
    proof {
        lemma_pairs_view(fields@, n);
    }
    let mut i: usize = 0;
    assert(name_set(acc@) =~= start + deps_pairs(pairs_view(fields@, n), 0));
    while i < fields.len()
        invariant
            i <= fields@.len(),
            no_dup_names(acc@),
            n == fields@.len(),
            name_set(acc@) == start + deps_pairs(pairs_view(fields@, n), i as int),
            pairs_view(fields@, n).len() == n,
            forall|j: int| 0 <= j < n ==> #[trigger] pairs_view(fields@, n)[j] == (fields@[j].0@, expr_view(fields@[j].1)),
        decreases fields@.len() - i,
    {
        proof {
            assert(decreases_to!(*fields => fields[i as int]));
            assert(decreases_to!(fields[i as int] => fields[i as int].1));
        }
        fields[i].1.extract_deps_recursive(acc);
        proof {
            assert(pairs_view(fields@, n)[i as int].1 == expr_view(fields@[i as int].1));
            assert(name_set(acc@) =~= start + deps_pairs(pairs_view(fields@, n), i + 1));
        }
        i = i + 1;
    }
}

fn extract_opt(o: &Option<Box<Expr>>, acc: &mut Vec<String>)
    requires
        no_dup_names(old(acc)@),
    ensures
        no_dup_names(final(acc)@),
        name_set(final(acc)@) == name_set(old(acc)@) + deps_opt(opt_expr_view(*o)),
    decreases o,
{
    match o {
        Some(b) => (**b).extract_deps_recursive(acc),
        None => {
            assert(name_set(acc@) =~= name_set(acc@) + Set::<Seq<char>>::empty());
        }
    }
}

// ---------------------------------------------------------------------------
// Declarations

#[derive(Debug)]
pub struct TypeParam {
    pub name: String,
    pub bounds: Vec<TypeBound>,
}

#[derive(Debug)]
pub enum TypeBound {
    Eq(Type),
    SubTypeOf(Type),
    SuperTypeOf(Type),
    HasTrait(String),
}

#[derive(Debug)]
pub enum ResultType {
    Projection(Vec<Type>),
    TrueAssertion,
    VoidType,
}

/// The platform a foreign function runs on.
#[derive(Debug, Clone, Copy, PartialEq, Eq, Structural)]
pub enum ForeignTarget {
    Native,
    Wasm,
    C,
    Python,
    Js,
    Swift,
    Go,
}

pub open spec fn foreign_target_text(t: ForeignTarget) -> Seq<char> {
    match t {
        ForeignTarget::Native => "native"@,
        ForeignTarget::Wasm => "wasm"@,
        ForeignTarget::C => "c"@,
        ForeignTarget::Python => "python"@,
        ForeignTarget::Js => "js"@,
        ForeignTarget::Swift => "swift"@,
        ForeignTarget::Go => "go"@,
    }
}

impl ForeignTarget {
    /// The target's name.
    pub fn to_string(&self) -> (s: String)
        ensures
            s@ == foreign_target_text(*self),
    {
        match self {
            ForeignTarget::Native => owned("native"),
            ForeignTarget::Wasm => owned("wasm"),
            ForeignTarget::C => owned("c"),
            ForeignTarget::Python => owned("python"),
            ForeignTarget::Js => owned("js"),
            ForeignTarget::Swift => owned("swift"),
            ForeignTarget::Go => owned("go"),
        }
    }
}

/// How a foreign call reports failure.
#[derive(Debug, Clone, Copy, PartialEq, Eq, Structural)]
pub enum FfiKind {
    Frgn,
    FrgnBang,
    Syscall,
    SyscallBang,
}

/// A `frgn` declaration.
#[derive(Debug)]
pub struct ForeignSignature {
    pub name: String,
    pub location: String,
    pub wasm_impl: Option<String>,
    pub wasm_setup: Option<String>,
    pub inputs: Vec<(String, Type)>,
    pub success_output: Vec<(String, Type)>,
    pub result_type: ResultType,
    pub error_type_name: String,
    pub error_fields: Vec<(String, Type)>,
    pub input_layout: Option<MemoryLayout>,
    pub output_layout: Option<MemoryLayout>,
    pub precondition: Option<String>,
    pub postcondition: Option<String>,
    pub buffer_mode: Option<String>,
    pub ffi_kind: Option<FfiKind>,
    pub span: Option<Span>,
}

/// A resource declaration (`rsrc`), with its constructor arguments.
#[derive(Debug, Clone)]
pub struct ResourceDeclaration {
    pub name: String,
    pub resource_type: String,
    pub args: Vec<i64>,
    pub span: Option<Span>,
}

/// A foreign function binding, as loaded from a TOML binding file.
#[derive(Debug)]
pub struct ForeignBinding {
    pub name: String,
    pub description: Option<String>,
    pub location: String,
    pub target: ForeignTarget,
    pub mapper: Option<String>,
    pub path: Option<String>,
    pub wasm_impl: Option<String>,
    pub wasm_setup: Option<String>,
    pub inputs: Vec<(String, Type)>,
    pub success_output: Vec<(String, Type)>,
    pub error_type: String,
    pub error_fields: Vec<(String, Type)>,
    pub input_layout: Option<MemoryLayout>,
    pub output_layout: Option<MemoryLayout>,
    pub precondition: Option<String>,
    pub postcondition: Option<String>,
    pub buffer_mode: Option<String>,
}

pub open spec fn opt_str(o: Option<String>) -> Option<Seq<char>> {
    match o {
        Some(s) => Some(s@),
        None => None,
    }
}

/// Named types as plain values.
pub open spec fn named_types(v: Seq<(String, Type)>) -> Seq<(Seq<char>, TypeV)> {
    v.map_values(|p: (String, Type)| (p.0@, p.1@))
}

pub fn copy_named_types(v: &Vec<(String, Type)>) -> (r: Vec<(String, Type)>)
    ensures
        named_types(r@) == named_types(v@),
{
    let mut r: Vec<(String, Type)> = Vec::new();
    let mut i: usize = 0;
    while i < v.len()
        invariant
            i <= v@.len(),
            r@.len() == i,
            forall|j: int| 0 <= j < i ==> (#[trigger] r@[j]).0@ == v@[j].0@ && r@[j].1@ == v@[j].1@,
        decreases v@.len() - i,
    {
        let t = v[i].1.copy();
        r.push((v[i].0.clone(), t));
        i = i + 1;
    }
    assert(named_types(r@) =~= named_types(v@));
    r
}

fn copy_opt_str(o: &Option<String>) -> (r: Option<String>)
    ensures
        opt_str(r) == opt_str(*o),
{
    match o {
        Some(s) => Some(s.clone()),
        None => None,
    }
}

impl ForeignBinding {
    /// A binding with only a name, a location and a target; its error type
    /// is `Error`, everything else is empty.
    pub fn new(name: String, location: String, target: ForeignTarget) -> (b: Self)
        ensures
            b.name@ == name@,
            b.location@ == location@,
            b.target == target,
            b.description is None && b.mapper is None && b.path is None,
            b.wasm_impl is None && b.wasm_setup is None,
            b.inputs@.len() == 0 && b.success_output@.len() == 0 && b.error_fields@.len() == 0,
            b.error_type@ == "Error"@,
            b.input_layout is None && b.output_layout is None,
            b.precondition is None && b.postcondition is None && b.buffer_mode is None,
    {
        ForeignBinding {
            name,
            description: None,
            location,
            target,
            mapper: None,
            path: None,
            wasm_impl: None,
            wasm_setup: None,
            inputs: Vec::new(),
            success_output: Vec::new(),
            error_type: owned("Error"),
            error_fields: Vec::new(),
            input_layout: None,
            output_layout: None,
            precondition: None,
            postcondition: None,
            buffer_mode: None,
        }
    }

    /// The binding a `frgn` declaration describes, for the native target.
    pub fn from_signature(sig: &ForeignSignature) -> (b: Self)
        ensures
            b.name@ == sig.name@,
            b.location@ == sig.location@,
            b.target == ForeignTarget::Native,
            b.description is None && b.mapper is None && b.path is None,
            opt_str(b.wasm_impl) == opt_str(sig.wasm_impl),
            opt_str(b.wasm_setup) == opt_str(sig.wasm_setup),
            named_types(b.inputs@) == named_types(sig.inputs@),
            named_types(b.success_output@) == named_types(sig.success_output@),
            b.error_type@ == sig.error_type_name@,
            named_types(b.error_fields@) == named_types(sig.error_fields@),
            opt_layout_view(b.input_layout) == opt_layout_view(sig.input_layout),
            opt_layout_view(b.output_layout) == opt_layout_view(sig.output_layout),
            opt_str(b.precondition) == opt_str(sig.precondition),
            opt_str(b.postcondition) == opt_str(sig.postcondition),
            opt_str(b.buffer_mode) == opt_str(sig.buffer_mode),
    {
        ForeignBinding {
            name: sig.name.clone(),
            description: None,
            location: sig.location.clone(),
            target: ForeignTarget::Native,
            mapper: None,
            path: None,
            wasm_impl: copy_opt_str(&sig.wasm_impl),
            wasm_setup: copy_opt_str(&sig.wasm_setup),
            inputs: copy_named_types(&sig.inputs),
            success_output: copy_named_types(&sig.success_output),
            error_type: sig.error_type_name.clone(),
            error_fields: copy_named_types(&sig.error_fields),
            input_layout: copy_opt_layout(&sig.input_layout),
            output_layout: copy_opt_layout(&sig.output_layout),
            precondition: copy_opt_str(&sig.precondition),
            postcondition: copy_opt_str(&sig.postcondition),
            buffer_mode: copy_opt_str(&sig.buffer_mode),
        }
    }
}

// ---------------------------------------------------------------------------
// Statements and items

/// A statement of a transaction or definition body.
#[derive(Debug)]
pub enum Statement {
    Assignment { lhs: Expr, expr: Expr, timeout: Option<(Expr, TimeUnit)> },
    Unification { name: String, pattern: String, expr: Expr },
    Guarded { condition: Expr, statements: Vec<Statement> },
    Term(Vec<Option<Expr>>),
    Escape(Option<Expr>),
    Expression(Expr),
    Let {
        name: String,
        ty: Option<Type>,
        expr: Option<Expr>,
        address: Option<u64>,
        bit_range: Option<BitRange>,
        is_override: bool,
    },
}

/// A pre- and postcondition, with an optional watchdog.
#[derive(Debug)]
pub struct Contract {
    pub pre_condition: Expr,
    pub post_condition: Expr,
    pub watchdog: Option<WatchdogSpec>,
    pub span: Option<Span>,
}

#[derive(Debug)]
pub struct WatchdogSpec {
    pub condition: Expr,
    pub is_required: bool,
}

impl Contract {
    pub fn new(pre: Expr, post: Expr) -> (c: Self)
        ensures
            c.pre_condition@ == pre@,
            c.post_condition@ == post@,
            c.watchdog is None,
            c.span is None,
    {
        Contract { pre_condition: pre, post_condition: post, watchdog: None, span: None }
    }
}

#[derive(Debug)]
pub struct Signature {
    pub name: String,
    pub input_types: Vec<Type>,
    pub result_type: ResultType,
    pub source: Option<String>,
    pub alias: Option<String>,
    /// The definition whose paths this signature is bound to.
    pub bound_defn: Option<String>,
}

/// The outputs of a definition: one type, alternatives the caller must
/// all handle, or a tuple the caller must bind whole.
#[derive(Debug)]
pub enum OutputType {
    Single(Type),
    Union(Vec<Type>),
    Tuple(Vec<Type>),
}

/// The types of an output structure, flattened.
pub open spec fn output_types(o: OutputType) -> Seq<TypeV> {
    match o {
        OutputType::Single(t) => seq![t@],
        OutputType::Union(ts) => type_list(ts@),
        OutputType::Tuple(ts) => type_list(ts@),
    }
}

impl OutputType {
    /// All the types of the output structure.
    pub fn all_types(&self) -> (v: Vec<Type>)
        ensures
            type_list(v@) == output_types(*self),
    {
        match self {
            OutputType::Single(t) => {
                let mut v: Vec<Type> = Vec::new();
                v.push(t.copy());
                proof {
                    lemma_types_view(v@, 1);
                    assert(type_list(v@) =~= seq![t@]);
                }
                v
            }
            OutputType::Union(ts) => copy_types(ts),
            OutputType::Tuple(ts) => copy_types(ts),
        }
    }

    pub fn is_union(&self) -> (b: bool)
        ensures
            b == (*self is Union),
    {
        match self {
            OutputType::Union(_) => true,
            _ => false,
        }
    }

    pub fn is_tuple(&self) -> (b: bool)
        ensures
            b == (*self is Tuple),
    {
        match self {
            OutputType::Tuple(_) => true,
            _ => false,
        }
    }

    /// The number of output slots.
    pub fn slot_count(&self) -> (n: usize)
        ensures
            n == output_types(*self).len(),
    {
        match self {
            OutputType::Single(_) => 1,
            OutputType::Union(ts) => {
                proof { lemma_types_view(ts@, ts@.len() as int); }
                ts.len()
            }
            OutputType::Tuple(ts) => {
                proof { lemma_types_view(ts@, ts@.len() as int); }
                ts.len()
            }
        }
    }

    /// What the caller must handle: every alternative of a union, every
    /// slot of a tuple, the one type of a single output.
    pub fn required_caller_bindings(&self) -> (v: Vec<Type>)
        ensures
            type_list(v@) == output_types(*self),
    {
        self.all_types()
    }

    /// A single output must be bound at its own type; unions and tuples are
    /// left to the type checker.
    pub fn is_caller_binding_sufficient(&self, caller_type: &Type) -> (b: bool)
        ensures
            b == match *self {
                OutputType::Single(t) => t@ == caller_type@,
                _ => true,
            },
    {
        match self {
            OutputType::Single(t) => t.same(caller_type),
            _ => true,
        }
    }
}

#[derive(Debug)]
pub struct Definition {
    pub name: String,
    pub type_params: Vec<TypeParam>,
    pub parameters: Vec<(String, Type)>,
    pub outputs: Vec<Type>,
    pub output_type: Option<OutputType>,
    pub output_names: Vec<Option<String>>,
    pub contract: Contract,
    pub body: Vec<Statement>,
    /// No body: the postcondition must follow from the precondition.
    pub is_lambda: bool,
}

#[derive(Debug)]
pub struct Transaction {
    pub is_async: bool,
    pub is_reactive: bool,
    pub name: String,
    pub parameters: Vec<(String, Type)>,
    pub contract: Contract,
    pub body: Vec<Statement>,
    pub reactor_speed: Option<u32>,
    pub span: Option<Span>,
    /// No body: the postcondition must follow from the precondition.
    pub is_lambda: bool,
    /// The variables its precondition reads.
    pub dependencies: Vec<String>,
}

#[derive(Debug)]
pub struct StateDecl {
    pub name: String,
    pub ty: Type,
    pub expr: Option<Expr>,
    pub address: Option<u64>,
    pub bit_range: Option<BitRange>,
    pub is_override: bool,
    /// In OS mode the address is requested from the kernel; otherwise it is used as is.
    pub os_mode: bool,
    pub span: Option<Span>,
}

#[derive(Debug)]
pub struct TriggerDeclaration {
    pub name: String,
    pub ty: Type,
    pub address: u64,
    pub bit_range: Option<BitRange>,
    pub stages: Vec<String>,
    pub condition: Option<Expr>,
    pub span: Option<Span>,
}

#[derive(Debug)]
pub struct Constant {
    pub name: String,
    pub ty: Type,
    pub expr: Expr,
}

#[derive(Debug, Clone)]
pub struct Import {
    pub items: Vec<ImportItem>,
    pub path: Vec<String>,
}

#[derive(Debug, Clone)]
pub struct ImportItem {
    pub name: String,
    pub alias: Option<String>,
}

/// A top-level item of a program.
#[derive(Debug)]
pub enum TopLevel {
    Signature(Signature),
    Definition(Definition),
    Transaction(Transaction),
    StateDecl(StateDecl),
    Trigger(TriggerDeclaration),
    Constant(Constant),
    Import(Import),
    ForeignBinding { name: String, toml_path: String, signature: ForeignSignature, target: ForeignTarget, span: Option<Span> },
    ResourceDecl(ResourceDeclaration),
    Struct(StructDefinition),
    RStruct(RStructDefinition),
    Enum(EnumDefinition),
    RenderBlock(RenderBlock),
    Stylesheet(String),
    SvgComponent { name: String, content: String },
}

#[derive(Debug)]
pub struct StructDefinition {
    pub name: String,
    pub fields: Vec<StructField>,
    pub transactions: Vec<Transaction>,
    pub view_html: Option<String>,
    pub span: Option<Span>,
}

#[derive(Debug)]
pub struct StructField {
    pub name: String,
    pub ty: Type,
    pub default: Option<Expr>,
}

#[derive(Debug)]
pub struct EnumDefinition {
    pub name: String,
    pub type_params: Vec<TypeParam>,
    pub variants: Vec<EnumVariant>,
    pub span: Option<Span>,
}

#[derive(Debug)]
pub enum EnumVariant {
    Unit(String),
    Tuple(String, Vec<Type>),
    Struct(String, Vec<(String, Type)>),
}

impl StructDefinition {
    /// A struct with a name and nothing else.
    pub fn new(name: String) -> (d: Self)
        ensures
            d.name@ == name@,
            d.fields@.len() == 0,
            d.transactions@.len() == 0,
            d.view_html is None,
            d.span is None,
    {
        StructDefinition { name, fields: Vec::new(), transactions: Vec::new(), view_html: None, span: None }
    }
}

#[derive(Debug)]
pub struct RStructDefinition {
    pub name: String,
    pub fields: Vec<StructField>,
    pub transactions: Vec<Transaction>,
    pub view_html: String,
    pub span: Option<Span>,
}

#[derive(Debug, Clone)]
pub struct RenderBlock {
    pub struct_name: String,
    pub view_html: String,
    pub span: Option<Span>,
}

#[derive(Debug, Clone)]
pub struct Comment {
    pub line: usize,
    pub text: String,
}

/// A program: its items, its comments, and its file-level reactor speed.
#[derive(Debug)]
pub struct Program {
    pub items: Vec<TopLevel>,
    pub comments: Vec<Comment>,
    pub reactor_speed: Option<u32>,
}

/// A signature projecting some output types of a definition.
#[derive(Debug)]
pub struct SigProjection {
    pub sig_name: String,
    pub projected_types: Vec<Type>,
    pub source_defn: String,
}

} // verus!
