//! Symbolic execution of transaction bodies: expressions become symbolic
//! values (literals folded, identities applied), each guard splits a path
//! in two, and postconditions are checked against the values a path ends
//! with.
//!
//! Literal arithmetic works in 64-bit integers; the specifications say
//! when it fits, and the functions require that it does.

use vstd::prelude::*;
use crate::text::{owned, chars_of, chars_eq, eq_str};
use crate::table::{keys_of, key_index, table_map, table_insert, lemma_table_insert, lemma_key_index, find_key};
use crate::compiler::ast::{Expr, ExprV, Statement};

verus! {

/// A symbolic value.
#[derive(Debug)]
pub enum SymbolicValue {
    /// A constant, with a hint of its type (`int`, `bool`).
    Literal(i64, String),
    /// The current value of a variable that was not assigned on the path.
    Identifier(String),
    /// The value a variable had before the transaction.
    Previous(String),
    /// An operation (`+`, `-`, `*`, `/`, `&`, `|`, `^`, `<<`, `>>`) on two values.
    Binary(String, Box<SymbolicValue>, Box<SymbolicValue>),
    /// A value that is not tracked.
    Unknown,
}

/// A symbolic value as a mathematical value.
pub enum SymVal {
    Literal(i64, Seq<char>),
    Identifier(Seq<char>),
    Previous(Seq<char>),
    Binary(Seq<char>, Box<SymVal>, Box<SymVal>),
    Unknown,
}

pub open spec fn sym_view(v: SymbolicValue) -> SymVal
    decreases v,
{
    match v {
        SymbolicValue::Literal(n, t) => SymVal::Literal(n, t@),
        SymbolicValue::Identifier(n) => SymVal::Identifier(n@),
        SymbolicValue::Previous(n) => SymVal::Previous(n@),
        SymbolicValue::Binary(op, l, r) => SymVal::Binary(op@, Box::new(sym_view(*l)), Box::new(sym_view(*r))),
        SymbolicValue::Unknown => SymVal::Unknown,
    }
}

impl View for SymbolicValue {
    type V = SymVal;

    open spec fn view(&self) -> SymVal {
        sym_view(*self)
    }
}

fn str_same(a: &String, b: &String) -> (r: bool)
    ensures
        r == (a@ == b@),
{
    let x = chars_of(a.as_str());
    let y = chars_of(b.as_str());
    chars_eq(x.as_slice(), y.as_slice())
}

pub open spec fn int_lit(n: int) -> SymVal {
    SymVal::Literal(n as i64, "int"@)
}

impl SymbolicValue {
    /// An integer constant.
    pub fn int_literal(n: i64) -> (v: Self)
        ensures
            v@ == SymVal::Literal(n, "int"@),
    {
        SymbolicValue::Literal(n, owned("int"))
    }

    /// A Boolean constant: 1 or 0.
    pub fn bool_literal(b: bool) -> (v: Self)
        ensures
            v@ == SymVal::Literal(if b { 1 } else { 0 }, "bool"@),
    {
        SymbolicValue::Literal(if b { 1 } else { 0 }, owned("bool"))
    }

    /// The value is the constant 1.
    pub fn is_definitely_true(&self) -> (r: bool)
        ensures
            r == (self@ matches SymVal::Literal(n, _) && n == 1),
    {
        match self {
            SymbolicValue::Literal(n, _) => *n == 1,
            _ => false,
        }
    }

    /// The value is the constant 0.
    pub fn is_definitely_false(&self) -> (r: bool)
        ensures
            r == (self@ matches SymVal::Literal(n, _) && n == 0),
    {
        match self {
            SymbolicValue::Literal(n, _) => *n == 0,
            _ => false,
        }
    }

    /// The two values are the same.
    pub fn same(&self, other: &Self) -> (r: bool)
        ensures
            r == (self@ == other@),
        decreases self,
    {
        match (self, other) {
            (SymbolicValue::Literal(a, s), SymbolicValue::Literal(b, t)) => *a == *b && str_same(s, t),
            (SymbolicValue::Identifier(a), SymbolicValue::Identifier(b)) => str_same(a, b),
            (SymbolicValue::Previous(a), SymbolicValue::Previous(b)) => str_same(a, b),
            (SymbolicValue::Binary(o1, l1, r1), SymbolicValue::Binary(o2, l2, r2)) =>
                str_same(o1, o2) && (**l1).same(&**l2) && (**r1).same(&**r2),
            (SymbolicValue::Unknown, SymbolicValue::Unknown) => true,
            _ => false,
        }
    }

    /// A copy of the value.
    pub fn copy(&self) -> (r: Self)
        ensures
            r@ == self@,
        decreases self,
    {
        match self {
            SymbolicValue::Literal(n, t) => SymbolicValue::Literal(*n, t.clone()),
            SymbolicValue::Identifier(n) => SymbolicValue::Identifier(n.clone()),
            SymbolicValue::Previous(n) => SymbolicValue::Previous(n.clone()),
            SymbolicValue::Binary(op, l, r) => SymbolicValue::Binary(op.clone(), Box::new((**l).copy()), Box::new((**r).copy())),
            SymbolicValue::Unknown => SymbolicValue::Unknown,
        }
    }
}

// ---------------------------------------------------------------------------
// Folding

pub open spec fn abs(a: int) -> int {
    if a < 0 { -a } else { a }
}

/// Division rounding toward zero, as Rust divides integers.
pub open spec fn trunc_div(a: int, b: int) -> int {
    if b == 0 {
        0
    } else if (a < 0) != (b < 0) {
        -(abs(a) / abs(b))
    } else {
        abs(a) / abs(b)
    }
}

pub open spec fn in_i64(x: int) -> bool {
    i64::MIN <= x <= i64::MAX
}

/// The folding rules: arithmetic on two literals; `0 + x`, `x + 0`,
/// `1 * x`, `x * 1` give `x`; `0 * x` and `x * 0` give 0.
pub open spec fn simplify(op: Seq<char>, l: SymVal, r: SymVal) -> Option<SymVal> {
    match (l, r) {
        (SymVal::Literal(a, _), SymVal::Literal(b, _)) if op == "+"@ => Some(int_lit(a + b)),
        (SymVal::Literal(a, _), SymVal::Literal(b, _)) if op == "-"@ => Some(int_lit(a - b)),
        (SymVal::Literal(a, _), SymVal::Literal(b, _)) if op == "*"@ => Some(int_lit(a * b)),
        (SymVal::Literal(a, _), SymVal::Literal(b, _)) if op == "/"@ && b != 0 => Some(int_lit(trunc_div(a as int, b as int))),
        _ => if op == "+"@ && l matches SymVal::Literal(0, _) {
            Some(r)
        } else if op == "+"@ && r matches SymVal::Literal(0, _) {
            Some(l)
        } else if op == "*"@ && l matches SymVal::Literal(1, _) {
            Some(r)
        } else if op == "*"@ && r matches SymVal::Literal(1, _) {
            Some(l)
        } else if op == "*"@ && l matches SymVal::Literal(0, _) {
            Some(int_lit(0))
        } else if op == "*"@ && r matches SymVal::Literal(0, _) {
            Some(int_lit(0))
        } else {
            None
        },
    }
}

/// What an arithmetic operator gives on two numbers: none for another
/// operator or a division by zero; division truncates toward zero.
pub open spec fn arith(op: Seq<char>, x: int, y: int) -> Option<int> {
    if op == "+"@ {
        Some(x + y)
    } else if op == "-"@ {
        Some(x - y)
    } else if op == "*"@ {
        Some(x * y)
    } else if op == "/"@ && y != 0 {
        Some(trunc_div(x, y))
    } else {
        None
    }
}

/// The number a symbolic value stands for, given the current value of each
/// name (`cur`) and its value at the start (`prev`); none for an unknown
/// value or an operation `arith` gives none for.
pub open spec fn sym_value(v: SymVal, cur: spec_fn(Seq<char>) -> int, prev: spec_fn(Seq<char>) -> int) -> Option<int>
    decreases v,
{
    match v {
        SymVal::Literal(n, _) => Some(n as int),
        SymVal::Identifier(x) => Some(cur(x)),
        SymVal::Previous(x) => Some(prev(x)),
        SymVal::Binary(op, a, b) => match (sym_value(*a, cur, prev), sym_value(*b, cur, prev)) {
            (Some(x), Some(y)) => arith(op, x, y),
            _ => None,
        },
        SymVal::Unknown => None,
    }
}

/// Folding is sound arithmetic: whenever the operation `op` on `l` and `r`
/// stands for a number, a fold of it stands for the same number, whatever
/// the names' values. In particular anything times the literal 0 (on either
/// side) folds, and to 0.
pub proof fn law_simplify_sound(op: Seq<char>, l: SymVal, r: SymVal, cur: spec_fn(Seq<char>) -> int,
    prev: spec_fn(Seq<char>) -> int, t: Seq<char>)
    requires
        simplify_fits(op, l, r),
    ensures
        simplify(op, l, r) matches Some(v) ==> (sym_value(SymVal::Binary(op, Box::new(l), Box::new(r)), cur, prev) matches Some(n)
            ==> sym_value(v, cur, prev) == Some(n)),
        simplify("*"@, l, SymVal::Literal(0, t)) matches Some(v) && sym_value(v, cur, prev) == Some(0int),
        simplify("*"@, SymVal::Literal(0, t), r) matches Some(v) && sym_value(v, cur, prev) == Some(0int),
{
    reveal_strlit("+");
    reveal_strlit("-");
    reveal_strlit("*");
    reveal_strlit("/");
    assert("+"@[0] != "-"@[0] && "+"@[0] != "*"@[0] && "+"@[0] != "/"@[0]);
    assert("-"@[0] != "*"@[0] && "-"@[0] != "/"@[0] && "*"@[0] != "/"@[0]);
    match (l, r) {
        (SymVal::Literal(a, _), SymVal::Literal(b, _)) => {
            if op == "+"@ {
                assert(in_i64(a + b));
                assert(((a + b) as i64) as int == a + b);
            } else if op == "-"@ {
                assert(in_i64(a - b));
                assert(((a - b) as i64) as int == a - b);
            } else if op == "*"@ {
                assert(in_i64(a * b));
                assert(((a * b) as i64) as int == a * b);
            } else if op == "/"@ && b != 0 {
                assert(in_i64(trunc_div(a as int, b as int)));
                assert((trunc_div(a as int, b as int) as i64) as int == trunc_div(a as int, b as int));
            }
        },
        _ => {},
    }
    match l {
        SymVal::Literal(a, _) => {
            assert(a * 0 == 0) by (nonlinear_arith);
        },
        _ => {},
    }
    match r {
        SymVal::Literal(b, _) => {
            assert(0 * b == 0) by (nonlinear_arith);
        },
        _ => {},
    }
    let bv = sym_value(SymVal::Binary(op, Box::new(l), Box::new(r)), cur, prev);
    if bv is Some {
        let x = sym_value(l, cur, prev)->0;
        let y = sym_value(r, cur, prev)->0;
        assert(x * 0 == 0 && 0 * y == 0 && x * 1 == x && 1 * y == y) by (nonlinear_arith);
        assert(0 + y == y && x + 0 == x);
    }
}

/// Folding `op` on two literals does not overflow.
pub open spec fn simplify_fits(op: Seq<char>, l: SymVal, r: SymVal) -> bool {
    match (l, r) {
        (SymVal::Literal(a, _), SymVal::Literal(b, _)) =>
            (op == "+"@ ==> in_i64(a + b)) && (op == "-"@ ==> in_i64(a - b)) && (op == "*"@ ==> in_i64(a * b))
                && (op == "/"@ && b != 0 ==> in_i64(trunc_div(a as int, b as int))),
        _ => true,
    }
}

pub(crate) fn div_trunc(a: i64, b: i64) -> (q: i64)
    requires
        b != 0,
        in_i64(trunc_div(a as int, b as int)),
    ensures
        q == trunc_div(a as int, b as int),
{
    let a2 = a as i128;
    let b2 = b as i128;
    let ma: u128 = if a2 < 0 { (-a2) as u128 } else { a2 as u128 };
    let mb: u128 = if b2 < 0 { (-b2) as u128 } else { b2 as u128 };
    let m = ma / mb;
    assert(ma == abs(a as int) && mb == abs(b as int));
    assert(m <= ma) by (nonlinear_arith)
        requires
            mb >= 1,
            m == ma / mb,
    ;
    let r: i128 = if (a < 0) != (b < 0) { -(m as i128) } else { m as i128 };
    r as i64
}

/// Applies the folding rules to `op` on two values.
pub fn simplify_binary(op: &str, left: &SymbolicValue, right: &SymbolicValue) -> (r: Option<SymbolicValue>)
    requires
        simplify_fits(op@, left@, right@),
    ensures
        match (r, simplify(op@, left@, right@)) {
            (Some(a), Some(b)) => a@ == b,
            (None, None) => true,
            _ => false,
        },
{
    proof {
        reveal_strlit("+");
        reveal_strlit("-");
        reveal_strlit("*");
        reveal_strlit("/");
    }
    let o = chars_of(op);
    let plus = eq_str(o.as_slice(), "+");
    let minus = eq_str(o.as_slice(), "-");
    let times = eq_str(o.as_slice(), "*");
    let divide = eq_str(o.as_slice(), "/");
    match (left, right) {
        (SymbolicValue::Literal(a, _), SymbolicValue::Literal(b, _)) => {
            if plus {
                return Some(SymbolicValue::int_literal(*a + *b));
            } else if minus {
                return Some(SymbolicValue::int_literal(*a - *b));
            } else if times {
                return Some(SymbolicValue::int_literal(*a * *b));
            } else if divide && *b != 0 {
                return Some(SymbolicValue::int_literal(div_trunc(*a, *b)));
            }
        }
        _ => {}
    }
    let l_zero = left.is_definitely_false();
    let r_zero = right.is_definitely_false();
    let l_one = left.is_definitely_true();
    let r_one = right.is_definitely_true();
    if plus && l_zero {
        Some(right.copy())
    } else if plus && r_zero {
        Some(left.copy())
    } else if times && l_one {
        Some(right.copy())
    } else if times && r_one {
        Some(left.copy())
    } else if times && l_zero {
        Some(SymbolicValue::int_literal(0))
    } else if times && r_zero {
        Some(SymbolicValue::int_literal(0))
    } else {
        None
    }
}


// ---------------------------------------------------------------------------
// States

/// The values assigned on a path and the guards it passed.
#[derive(Debug)]
pub struct SymbolicState {
    /// Values by variable; no variable occurs twice.
    pub assignments: Vec<(String, SymbolicValue)>,
    pub path_constraints: Vec<Expr>,
}

pub struct StateV {
    pub values: Map<Seq<char>, SymVal>,
    pub constraints: Seq<ExprV>,
}

pub open spec fn exprs_of(v: Seq<Expr>) -> Seq<ExprV> {
    v.map_values(|e: Expr| e@)
}

impl View for SymbolicState {
    type V = StateV;

    open spec fn view(&self) -> StateV {
        StateV {
            values: table_map(self.assignments@).map_values(|v: SymbolicValue| v@),
            constraints: exprs_of(self.path_constraints@),
        }
    }
}

pub open spec fn bin(op: Seq<char>, l: SymVal, r: SymVal) -> SymVal {
    match simplify(op, l, r) {
        Some(s) => s,
        None => SymVal::Binary(op, Box::new(l), Box::new(r)),
    }
}

/// The symbolic value of an expression on a path with values `m`.
pub open spec fn eval_sym(e: ExprV, m: Map<Seq<char>, SymVal>) -> SymVal
    decreases e,
{
    match e {
        ExprV::Integer(n) => SymVal::Literal(n, "int"@),
        ExprV::Bool(b) => SymVal::Literal(if b { 1 } else { 0 }, "bool"@),
        ExprV::Identifier(n) => if m.dom().contains(n) { m[n] } else { SymVal::Identifier(n) },
        ExprV::PriorState(n) => SymVal::Previous(n),
        ExprV::OwnedRef(n) => SymVal::Previous(n),
        ExprV::Add(l, r) => bin("+"@, eval_sym(*l, m), eval_sym(*r, m)),
        ExprV::Sub(l, r) => bin("-"@, eval_sym(*l, m), eval_sym(*r, m)),
        ExprV::Mul(l, r) => bin("*"@, eval_sym(*l, m), eval_sym(*r, m)),
        ExprV::Div(l, r) => bin("/"@, eval_sym(*l, m), eval_sym(*r, m)),
        ExprV::BitAnd(l, r) => SymVal::Binary("&"@, Box::new(eval_sym(*l, m)), Box::new(eval_sym(*r, m))),
        ExprV::BitOr(l, r) => SymVal::Binary("|"@, Box::new(eval_sym(*l, m)), Box::new(eval_sym(*r, m))),
        ExprV::BitXor(l, r) => SymVal::Binary("^"@, Box::new(eval_sym(*l, m)), Box::new(eval_sym(*r, m))),
        ExprV::Shl(l, r) => SymVal::Binary("<<"@, Box::new(eval_sym(*l, m)), Box::new(eval_sym(*r, m))),
        ExprV::Shr(l, r) => SymVal::Binary(">>"@, Box::new(eval_sym(*l, m)), Box::new(eval_sym(*r, m))),
        _ => SymVal::Unknown,
    }
}

/// Evaluating `e` folds no literals out of 64-bit range.
pub open spec fn eval_ok(e: ExprV, m: Map<Seq<char>, SymVal>) -> bool
    decreases e,
{
    match e {
        ExprV::Add(l, r) => eval_ok(*l, m) && eval_ok(*r, m) && simplify_fits("+"@, eval_sym(*l, m), eval_sym(*r, m)),
        ExprV::Sub(l, r) => eval_ok(*l, m) && eval_ok(*r, m) && simplify_fits("-"@, eval_sym(*l, m), eval_sym(*r, m)),
        ExprV::Mul(l, r) => eval_ok(*l, m) && eval_ok(*r, m) && simplify_fits("*"@, eval_sym(*l, m), eval_sym(*r, m)),
        ExprV::Div(l, r) => eval_ok(*l, m) && eval_ok(*r, m) && simplify_fits("/"@, eval_sym(*l, m), eval_sym(*r, m)),
        ExprV::BitAnd(l, r) => eval_ok(*l, m) && eval_ok(*r, m),
        ExprV::BitOr(l, r) => eval_ok(*l, m) && eval_ok(*r, m),
        ExprV::BitXor(l, r) => eval_ok(*l, m) && eval_ok(*r, m),
        ExprV::Shl(l, r) => eval_ok(*l, m) && eval_ok(*r, m),
        ExprV::Shr(l, r) => eval_ok(*l, m) && eval_ok(*r, m),
        ExprV::PatternMatch { value, .. } => eval_ok(*value, m),
        _ => true,
    }
}

impl SymbolicState {
    /// A state whose one constraint is the precondition.
    pub fn new(precondition: &Expr) -> (s: Self)
        ensures
            s@.values == Map::<Seq<char>, SymVal>::empty(),
            s@.constraints == seq![precondition@],
    {
        let mut c: Vec<Expr> = Vec::new();
        c.push(precondition.copy());
        let s = SymbolicState { assignments: Vec::new(), path_constraints: c };
        assert(s@.values =~= Map::<Seq<char>, SymVal>::empty());
        assert(s@.constraints =~= seq![precondition@]);
        s
    }

    /// A state with no values and no constraints.
    pub fn empty() -> (s: Self)
        ensures
            s@.values == Map::<Seq<char>, SymVal>::empty(),
            s@.constraints == Seq::<ExprV>::empty(),
    {
        let s = SymbolicState { assignments: Vec::new(), path_constraints: Vec::new() };
        assert(s@.values =~= Map::<Seq<char>, SymVal>::empty());
        assert(s@.constraints =~= Seq::<ExprV>::empty());
        s
    }

    /// A copy of the state.
    pub fn copy(&self) -> (r: Self)
        ensures
            r@ == self@,
    {
        let mut a: Vec<(String, SymbolicValue)> = Vec::new();
        let mut i: usize = 0;
        while i < self.assignments.len()
            invariant
                i <= self.assignments@.len(),
                a@.len() == i,
                forall|k: int| 0 <= k < i ==> #[trigger] a@[k].0@ == self.assignments@[k].0@ && a@[k].1@ == self.assignments@[k].1@,
            decreases self.assignments@.len() - i,
        {
            a.push((self.assignments[i].0.clone(), self.assignments[i].1.copy()));
            i = i + 1;
        }
        let mut c: Vec<Expr> = Vec::new();
        let mut j: usize = 0;
        while j < self.path_constraints.len()
            invariant
                j <= self.path_constraints@.len(),
                exprs_of(c@) == exprs_of(self.path_constraints@.subrange(0, j as int)),
            decreases self.path_constraints@.len() - j,
        {
            let e = self.path_constraints[j].copy();
            let ghost before = c@;
            c.push(e);
            assert(exprs_of(c@) =~= exprs_of(before).push(e@));
            assert(exprs_of(self.path_constraints@.subrange(0, j + 1)) =~= exprs_of(self.path_constraints@.subrange(0, j as int)).push(self.path_constraints@[j as int]@));
            j = j + 1;
        }
        assert(self.path_constraints@.subrange(0, self.path_constraints@.len() as int) =~= self.path_constraints@);
        let r = SymbolicState { assignments: a, path_constraints: c };
        proof {
            assert(keys_of(a@) =~= keys_of(self.assignments@));
            assert forall|k: Seq<char>| key_index(keys_of(a@), k) is Some implies
                #[trigger] a@[key_index(keys_of(a@), k)->0].1@ == self.assignments@[key_index(keys_of(self.assignments@), k)->0].1@ by {
                lemma_key_index(keys_of(a@), k);
            }
            assert(r@.values =~= self@.values);
        }
        r
    }

    /// Records that `target` now holds the value of `value_expr`.
    pub fn assign(&mut self, target: &str, value_expr: &Expr)
        requires
            eval_ok(value_expr@, old(self)@.values),
        ensures
            final(self)@.values == old(self)@.values.insert(target@, eval_sym(value_expr@, old(self)@.values)),
            final(self)@.constraints == old(self)@.constraints,
    {
        let v = eval_symbolic(value_expr, self);
        let ghost before = self.assignments@;
        let ghost vv = v@;
        let key = owned(target);
        match find_key(&self.assignments, target) {
            Some(i) => {
                let k = self.assignments[i].0.clone();
                self.assignments.set(i, (k, v));
            }
            None => {
                self.assignments.push((key, v));
            }
        }
        proof {
            lemma_table_insert(before, key, v);
            assert(self.assignments@ == table_insert(before, key, v));
            assert(table_map(self.assignments@).map_values(|x: SymbolicValue| x@)
                =~= table_map(before).map_values(|x: SymbolicValue| x@).insert(target@, vv));
        }
    }

    /// Records a guard: its condition when taken, its negation when not.
    pub fn add_constraint(&mut self, condition: &Expr, taken: bool)
        ensures
            final(self)@.values == old(self)@.values,
            final(self)@.constraints == old(self)@.constraints.push(
                if taken { condition@ } else { ExprV::Not(Box::new(condition@)) }),
    {
        let ghost before = self.path_constraints@;
        let c = if taken { condition.copy() } else { Expr::Not(Box::new(condition.copy())) };
        self.path_constraints.push(c);
        assert(exprs_of(self.path_constraints@) =~= exprs_of(before).push(c@));
    }

    /// The value of a variable on this path, if it was assigned.
    pub fn get_value(&self, name: &str) -> (r: Option<SymbolicValue>)
        ensures
            match r {
                Some(v) => self@.values.dom().contains(name@) && v@ == self@.values[name@],
                None => !self@.values.dom().contains(name@),
            },
    {
        match find_key(&self.assignments, name) {
            Some(i) => {
                proof { lemma_key_index(keys_of(self.assignments@), name@); }
                Some(self.assignments[i].1.copy())
            }
            None => None,
        }
    }
}

/// The symbolic value of an expression in a state.
pub fn eval_symbolic(expr: &Expr, state: &SymbolicState) -> (r: SymbolicValue)
    requires
        eval_ok(expr@, state@.values),
    ensures
        r@ == eval_sym(expr@, state@.values),
    decreases expr,
{
    match expr {
        Expr::Integer(n) => SymbolicValue::Literal(*n, owned("int")),
        Expr::Bool(b) => SymbolicValue::bool_literal(*b),
        Expr::Identifier(name) => match state.get_value(name.as_str()) {
            Some(v) => v,
            None => SymbolicValue::Identifier(name.clone()),
        },
        Expr::PriorState(name) => SymbolicValue::Previous(name.clone()),
        Expr::OwnedRef(name) => SymbolicValue::Previous(name.clone()),
        Expr::Add(l, r) => binary("+", eval_symbolic(l, state), eval_symbolic(r, state)),
        Expr::Sub(l, r) => binary("-", eval_symbolic(l, state), eval_symbolic(r, state)),
        Expr::Mul(l, r) => binary("*", eval_symbolic(l, state), eval_symbolic(r, state)),
        Expr::Div(l, r) => binary("/", eval_symbolic(l, state), eval_symbolic(r, state)),
        Expr::BitAnd(l, r) => SymbolicValue::Binary(owned("&"), Box::new(eval_symbolic(l, state)), Box::new(eval_symbolic(r, state))),
        Expr::BitOr(l, r) => SymbolicValue::Binary(owned("|"), Box::new(eval_symbolic(l, state)), Box::new(eval_symbolic(r, state))),
        Expr::BitXor(l, r) => SymbolicValue::Binary(owned("^"), Box::new(eval_symbolic(l, state)), Box::new(eval_symbolic(r, state))),
        Expr::Shl(l, r) => SymbolicValue::Binary(owned("<<"), Box::new(eval_symbolic(l, state)), Box::new(eval_symbolic(r, state))),
        Expr::Shr(l, r) => SymbolicValue::Binary(owned(">>"), Box::new(eval_symbolic(l, state)), Box::new(eval_symbolic(r, state))),
        Expr::PatternMatch { value, .. } => {
            let _ = eval_symbolic(value, state);
            SymbolicValue::Unknown
        }
        _ => SymbolicValue::Unknown,
    }
}

fn binary(op: &str, l: SymbolicValue, r: SymbolicValue) -> (v: SymbolicValue)
    requires
        simplify_fits(op@, l@, r@),
    ensures
        v@ == bin(op@, l@, r@),
{
    match simplify_binary(op, &l, &r) {
        Some(s) => s,
        None => SymbolicValue::Binary(owned(op), Box::new(l), Box::new(r)),
    }
}

// ---------------------------------------------------------------------------
// Postconditions

/// Two symbolic values are known to be equal: equal literals, the same
/// variable, or the same operation on equal operands.
pub open spec fn sym_eq(l: SymVal, r: SymVal) -> bool
    decreases l,
{
    match (l, r) {
        (SymVal::Literal(a, _), SymVal::Literal(b, _)) => a == b,
        (SymVal::Identifier(a), SymVal::Identifier(b)) => a == b,
        (SymVal::Previous(a), SymVal::Previous(b)) => a == b,
        (SymVal::Binary(o1, l1, r1), SymVal::Binary(o2, l2, r2)) => o1 == o2 && sym_eq(*l1, *l2) && sym_eq(*r1, *r2),
        _ => false,
    }
}

/// One symbolic value is known to be below the other: two literals.
pub open spec fn sym_lt(l: SymVal, r: SymVal) -> bool {
    match (l, r) {
        (SymVal::Literal(a, _), SymVal::Literal(b, _)) => a < b,
        _ => false,
    }
}

/// Whether a postcondition holds of the values of a path; what it cannot
/// decide does not hold.
pub open spec fn sat(e: ExprV, m: Map<Seq<char>, SymVal>) -> bool
    decreases e,
{
    match e {
        ExprV::Eq(l, r) => sym_eq(eval_sym(*l, m), eval_sym(*r, m)),
        ExprV::Ne(l, r) => !sym_eq(eval_sym(*l, m), eval_sym(*r, m)),
        ExprV::Lt(l, r) => sym_lt(eval_sym(*l, m), eval_sym(*r, m)),
        ExprV::Le(l, r) => sym_lt(eval_sym(*l, m), eval_sym(*r, m)) || sym_eq(eval_sym(*l, m), eval_sym(*r, m)),
        ExprV::Gt(l, r) => sym_lt(eval_sym(*r, m), eval_sym(*l, m)),
        ExprV::Ge(l, r) => sym_lt(eval_sym(*r, m), eval_sym(*l, m)) || sym_eq(eval_sym(*l, m), eval_sym(*r, m)),
        ExprV::And(l, r) => sat(*l, m) && sat(*r, m),
        ExprV::Or(l, r) => sat(*l, m) || sat(*r, m),
        ExprV::Bool(b) => b,
        ExprV::Not(x) => !sat(*x, m),
        _ => false,
    }
}

/// Deciding `sat` folds no literals out of range (`&&` and `||` decide
/// their right side only when they need it).
pub open spec fn sat_ok(e: ExprV, m: Map<Seq<char>, SymVal>) -> bool
    decreases e,
{
    match e {
        ExprV::Eq(l, r) => eval_ok(*l, m) && eval_ok(*r, m),
        ExprV::Ne(l, r) => eval_ok(*l, m) && eval_ok(*r, m),
        ExprV::Lt(l, r) => eval_ok(*l, m) && eval_ok(*r, m),
        ExprV::Le(l, r) => eval_ok(*l, m) && eval_ok(*r, m),
        ExprV::Gt(l, r) => eval_ok(*l, m) && eval_ok(*r, m),
        ExprV::Ge(l, r) => eval_ok(*l, m) && eval_ok(*r, m),
        ExprV::And(l, r) => sat_ok(*l, m) && (sat(*l, m) ==> sat_ok(*r, m)),
        ExprV::Or(l, r) => sat_ok(*l, m) && (!sat(*l, m) ==> sat_ok(*r, m)),
        ExprV::Not(x) => sat_ok(*x, m),
        _ => true,
    }
}

/// Whether two symbolic values are known to be equal.
pub fn symbolic_equals(left: &SymbolicValue, right: &SymbolicValue) -> (r: bool)
    ensures
        r == sym_eq(left@, right@),
    decreases left,
{
    match (left, right) {
        (SymbolicValue::Literal(a, _), SymbolicValue::Literal(b, _)) => *a == *b,
        (SymbolicValue::Identifier(a), SymbolicValue::Identifier(b)) => str_same(a, b),
        (SymbolicValue::Previous(a), SymbolicValue::Previous(b)) => str_same(a, b),
        (SymbolicValue::Binary(o1, l1, r1), SymbolicValue::Binary(o2, l2, r2)) =>
            str_same(o1, o2) && symbolic_equals(&**l1, &**l2) && symbolic_equals(&**r1, &**r2),
        _ => false,
    }
}

/// Whether one symbolic value is known to be below the other.
pub fn symbolic_less_than(left: &SymbolicValue, right: &SymbolicValue) -> (r: bool)
    ensures
        r == sym_lt(left@, right@),
{
    match (left, right) {
        (SymbolicValue::Literal(a, _), SymbolicValue::Literal(b, _)) => *a < *b,
        _ => false,
    }
}

/// Whether a postcondition holds of the values of a path.
pub fn satisfies_postcondition(post: &Expr, state: &SymbolicState) -> (r: bool)
    requires
        sat_ok(post@, state@.values),
    ensures
        r == sat(post@, state@.values),
    decreases post,
{
    match post {
        Expr::Eq(l, r) => symbolic_equals(&eval_symbolic(l, state), &eval_symbolic(r, state)),
        Expr::Ne(l, r) => !symbolic_equals(&eval_symbolic(l, state), &eval_symbolic(r, state)),
        Expr::Lt(l, r) => symbolic_less_than(&eval_symbolic(l, state), &eval_symbolic(r, state)),
        Expr::Le(l, r) => {
            let a = eval_symbolic(l, state);
            let b = eval_symbolic(r, state);
            symbolic_less_than(&a, &b) || symbolic_equals(&a, &b)
        }
        Expr::Gt(l, r) => {
            let a = eval_symbolic(l, state);
            let b = eval_symbolic(r, state);
            symbolic_less_than(&b, &a)
        }
        Expr::Ge(l, r) => {
            let a = eval_symbolic(l, state);
            let b = eval_symbolic(r, state);
            symbolic_less_than(&b, &a) || symbolic_equals(&a, &b)
        }
        Expr::And(l, r) => satisfies_postcondition(l, state) && satisfies_postcondition(r, state),
        Expr::Or(l, r) => satisfies_postcondition(l, state) || satisfies_postcondition(r, state),
        Expr::Bool(b) => *b,
        Expr::Not(x) => !satisfies_postcondition(x, state),
        _ => false,
    }
}

// ---------------------------------------------------------------------------
// Paths

pub open spec fn assign_v(st: StateV, n: Seq<char>, e: ExprV) -> StateV {
    StateV { values: st.values.insert(n, eval_sym(e, st.values)), constraints: st.constraints }
}

pub open spec fn constrain(st: StateV, c: ExprV, taken: bool) -> StateV {
    StateV { values: st.values, constraints: st.constraints.push(if taken { c } else { ExprV::Not(Box::new(c)) }) }
}

/// What a statement does to a path: an assignment to a variable (or owned
/// reference) and a `let` with a value record it; nothing else changes
/// the values.
pub open spec fn exec_stmt(st: StateV, s: Statement) -> StateV {
    match s {
        Statement::Assignment { lhs, expr, .. } => match lhs@ {
            ExprV::Identifier(n) => assign_v(st, n, expr@),
            ExprV::OwnedRef(n) => assign_v(st, n, expr@),
            _ => st,
        },
        Statement::Let { name, expr, .. } => match expr {
            Some(e) => assign_v(st, name@, e@),
            None => st,
        },
        _ => st,
    }
}

pub open spec fn exec_ok(st: StateV, s: Statement) -> bool {
    match s {
        Statement::Assignment { lhs, expr, .. } => match lhs@ {
            ExprV::Identifier(n) => eval_ok(expr@, st.values),
            ExprV::OwnedRef(n) => eval_ok(expr@, st.values),
            _ => true,
        },
        Statement::Let { expr, .. } => match expr {
            Some(e) => eval_ok(e@, st.values),
            None => true,
        },
        _ => true,
    }
}

/// The first `n` statements executed in order.
pub open spec fn exec_all(st: StateV, ss: Seq<Statement>, n: int) -> StateV
    decreases n,
{
    if n <= 0 || n > ss.len() {
        st
    } else {
        exec_stmt(exec_all(st, ss, n - 1), ss[n - 1])
    }
}

pub open spec fn exec_all_ok(st: StateV, ss: Seq<Statement>, n: int) -> bool
    decreases n,
{
    if n <= 0 || n > ss.len() {
        true
    } else {
        exec_all_ok(st, ss, n - 1) && exec_ok(exec_all(st, ss, n - 1), ss[n - 1])
    }
}

/// The paths a statement turns one path into: a guard gives the path that
/// takes it (its statements executed) and the one that does not; `term`
/// and `escape` keep the path; other statements execute on it.
pub open spec fn step(s: Statement, st: StateV) -> Seq<StateV> {
    match s {
        Statement::Guarded { condition, statements } => seq![
            exec_all(constrain(st, condition@, true), statements@, statements@.len() as int),
            constrain(st, condition@, false),
        ],
        Statement::Term(_) => seq![st],
        Statement::Escape(_) => seq![st],
        _ => seq![exec_stmt(st, s)],
    }
}

pub open spec fn step_ok(s: Statement, st: StateV) -> bool {
    match s {
        Statement::Guarded { condition, statements } =>
            exec_all_ok(constrain(st, condition@, true), statements@, statements@.len() as int),
        Statement::Term(_) => true,
        Statement::Escape(_) => true,
        _ => exec_ok(st, s),
    }
}

/// The paths of the first `k` of `ps`, each stepped by `s`, in order.
pub open spec fn step_all(s: Statement, ps: Seq<StateV>, k: int) -> Seq<StateV>
    decreases k,
{
    if k <= 0 || k > ps.len() {
        seq![]
    } else {
        step_all(s, ps, k - 1) + step(s, ps[k - 1])
    }
}

pub open spec fn empty_state() -> StateV {
    StateV { values: Map::empty(), constraints: seq![] }
}

/// The paths through the first `n` statements of a body.
pub open spec fn paths(body: Seq<Statement>, n: int) -> Seq<StateV>
    decreases n,
{
    if n <= 0 || n > body.len() {
        seq![empty_state()]
    } else {
        let ps = paths(body, n - 1);
        step_all(body[n - 1], ps, ps.len() as int)
    }
}

pub open spec fn paths_ok(body: Seq<Statement>, n: int) -> bool
    decreases n,
{
    if n <= 0 || n > body.len() {
        true
    } else {
        let ps = paths(body, n - 1);
        paths_ok(body, n - 1) && forall|i: int| 0 <= i < ps.len() ==> step_ok(body[n - 1], #[trigger] ps[i])
    }
}

pub open spec fn state_views(v: Seq<SymbolicState>) -> Seq<StateV> {
    v.map_values(|s: SymbolicState| s@)
}

/// Executes a statement on a path.
pub fn execute_statement(stmt: &Statement, state: &mut SymbolicState)
    requires
        exec_ok(old(state)@, *stmt),
    ensures
        final(state)@ == exec_stmt(old(state)@, *stmt),
{
    match stmt {
        Statement::Assignment { lhs, expr, .. } => match lhs {
            Expr::Identifier(name) => state.assign(name.as_str(), expr),
            Expr::OwnedRef(name) => state.assign(name.as_str(), expr),
            _ => {}
        },
        Statement::Let { name, expr, .. } => match expr {
            Some(e) => state.assign(name.as_str(), e),
            None => {}
        },
        _ => {}
    }
}

fn execute_all(stmts: &Vec<Statement>, state: &mut SymbolicState)
    requires
        exec_all_ok(old(state)@, stmts@, stmts@.len() as int),
    ensures
        final(state)@ == exec_all(old(state)@, stmts@, stmts@.len() as int),
{
    let ghost st0 = state@;
    let mut i: usize = 0;
    while i < stmts.len()
        invariant
            i <= stmts@.len(),
            exec_all_ok(st0, stmts@, stmts@.len() as int),
            state@ == exec_all(st0, stmts@, i as int),
        decreases stmts@.len() - i,
    {
        proof { lemma_exec_all_ok_prefix(st0, stmts@, i + 1, stmts@.len() as int); }
        execute_statement(&stmts[i], state);
        i = i + 1;
    }
}

proof fn lemma_exec_all_ok_prefix(st: StateV, ss: Seq<Statement>, m: int, n: int)
    requires
        0 <= m <= n <= ss.len(),
        exec_all_ok(st, ss, n),
    ensures
        exec_all_ok(st, ss, m),
    decreases n - m,
{
    if m < n {
        lemma_exec_all_ok_prefix(st, ss, m, n - 1);
    }
}

proof fn lemma_paths_ok_prefix(body: Seq<Statement>, m: int, n: int)
    requires
        0 <= m <= n <= body.len(),
        paths_ok(body, n),
    ensures
        paths_ok(body, m),
    decreases n - m,
{
    if m < n {
        lemma_paths_ok_prefix(body, m, n - 1);
    }
}

/// The paths through a body: one empty path to start; each guard splits
/// every path in two (taken, with its statements executed, then not
/// taken); other statements execute on every path.
pub fn enumerate_paths(body: &Vec<Statement>) -> (r: Vec<SymbolicState>)
    requires
        paths_ok(body@, body@.len() as int),
    ensures
        state_views(r@) == paths(body@, body@.len() as int),
{
    let mut ps: Vec<SymbolicState> = Vec::new();
    ps.push(SymbolicState::empty());
    assert(state_views(ps@) =~= paths(body@, 0));
    let mut i: usize = 0;
    while i < body.len()
        invariant
            i <= body@.len(),
            paths_ok(body@, body@.len() as int),
            state_views(ps@) == paths(body@, i as int),
        decreases body@.len() - i,
    {
        proof { lemma_paths_ok_prefix(body@, i + 1, body@.len() as int); }
        let ghost pv = state_views(ps@);
        let stmt = &body[i];
        let mut next: Vec<SymbolicState> = Vec::new();
        let mut k: usize = 0;
        assert(state_views(next@) =~= step_all(*stmt, pv, 0));
        while k < ps.len()
            invariant
                k <= ps@.len(),
                pv == state_views(ps@),
                *stmt == body@[i as int],
                forall|q: int| 0 <= q < pv.len() ==> step_ok(*stmt, #[trigger] pv[q]),
                state_views(next@) == step_all(*stmt, pv, k as int),
            decreases ps@.len() - k,
        {
            let ghost sv = pv[k as int];
            assert(step_ok(*stmt, sv));
            let ghost before = state_views(next@);
            match stmt {
                Statement::Guarded { condition, statements } => {
                    let mut t = ps[k].copy();
                    t.add_constraint(condition, true);
                    execute_all(statements, &mut t);
                    let mut f = ps[k].copy();
                    f.add_constraint(condition, false);
                    next.push(t);
                    next.push(f);
                    assert(state_views(next@) =~= before + seq![t@, f@]);
                }
                Statement::Term(_) => {
                    let t = ps[k].copy();
                    next.push(t);
                    assert(state_views(next@) =~= before + seq![t@]);
                }
                Statement::Escape(_) => {
                    let t = ps[k].copy();
                    next.push(t);
                    assert(state_views(next@) =~= before + seq![t@]);
                }
                _ => {
                    let mut t = ps[k].copy();
                    execute_statement(stmt, &mut t);
                    next.push(t);
                    assert(state_views(next@) =~= before + seq![t@]);
                }
            }
            k = k + 1;
        }
        ps = next;
        i = i + 1;
    }
    ps
}

} // verus!
