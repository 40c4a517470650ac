//! The entry point of a program: the transaction whose precondition holds
//! in the initial state.
//!
//! Constant folding works in 64-bit integers: a precondition whose folding
//! overflows cannot be read. The specifications say when folding fits, and
//! `find_entry_point` requires it of every precondition.

use vstd::prelude::*;
use crate::text::{owned, chars_of, chars_eq, joined, string_views, join_strings};
use crate::compiler::ast::{Program, TopLevel, Expr, ExprV};

verus! {

/// The transaction a program starts with.
#[derive(Debug, Clone)]
pub struct EntryPoint {
    pub transaction_name: String,
    pub is_async: bool,
    pub parallel_async: usize,
}

/// Why a program has no single entry point.
#[derive(Debug, Clone)]
pub enum EntryPointError {
    /// More than one synchronous transaction can fire at the start.
    AmbiguousEntry { transactions: Vec<String> },
    /// No transaction can fire at the start.
    NoEntryPoint,
}

/// The initial value of a variable as a truth value: whether its first
/// declaration gives an initial value; `None` when it is not declared.
pub open spec fn init_value(items: Seq<TopLevel>, name: Seq<char>) -> Option<bool>
    decreases items.len(),
{
    if items.len() == 0 {
        None
    } else {
        match items[0] {
            TopLevel::StateDecl(d) => if d.name@ == name {
                Some(d.expr is Some)
            } else {
                init_value(items.drop_first(), name)
            },
            _ => init_value(items.drop_first(), name),
        }
    }
}

/// The value of an expression folded as a constant in the initial state: a
/// declared variable counts 1 when it has an initial value and 0 otherwise;
/// what cannot be folded counts 0.
pub open spec fn fold_const(e: ExprV, items: Seq<TopLevel>) -> int
    decreases e,
{
    match e {
        ExprV::Integer(n) => n as int,
        ExprV::Identifier(name) => match init_value(items, name) {
            Some(true) => 1,
            _ => 0,
        },
        ExprV::Neg(x) => -fold_const(*x, items),
        ExprV::Add(l, r) => fold_const(*l, items) + fold_const(*r, items),
        ExprV::Sub(l, r) => fold_const(*l, items) - fold_const(*r, items),
        ExprV::Mul(l, r) => fold_const(*l, items) * fold_const(*r, items),
        _ => 0,
    }
}

pub open spec fn in_i64(x: int) -> bool {
    i64::MIN <= x <= i64::MAX
}

/// Every step of folding `e` fits in 64 bits.
pub open spec fn fold_fits(e: ExprV, items: Seq<TopLevel>) -> bool
    decreases e,
{
    match e {
        ExprV::Neg(x) => fold_fits(*x, items) && in_i64(-fold_const(*x, items)),
        ExprV::Add(l, r) => fold_fits(*l, items) && fold_fits(*r, items)
            && in_i64(fold_const(*l, items) + fold_const(*r, items)),
        ExprV::Sub(l, r) => fold_fits(*l, items) && fold_fits(*r, items)
            && in_i64(fold_const(*l, items) - fold_const(*r, items)),
        ExprV::Mul(l, r) => fold_fits(*l, items) && fold_fits(*r, items)
            && in_i64(fold_const(*l, items) * fold_const(*r, items)),
        _ => true,
    }
}

/// Whether a precondition holds in the initial state: literals as they are,
/// a variable unless it is declared without an initial value, comparisons
/// of folded constants, and `&&`, `||`, `!` of these; anything else does
/// not hold.
pub open spec fn initially_true(e: ExprV, items: Seq<TopLevel>) -> bool
    decreases e,
{
    match e {
        ExprV::Bool(b) => b,
        ExprV::Identifier(name) => init_value(items, name) != Some(false),
        ExprV::Eq(l, r) => fold_const(*l, items) == fold_const(*r, items),
        ExprV::Ne(l, r) => fold_const(*l, items) != fold_const(*r, items),
        ExprV::Ge(l, r) => fold_const(*l, items) >= fold_const(*r, items),
        ExprV::Gt(l, r) => fold_const(*l, items) > fold_const(*r, items),
        ExprV::Le(l, r) => fold_const(*l, items) <= fold_const(*r, items),
        ExprV::Lt(l, r) => fold_const(*l, items) < fold_const(*r, items),
        ExprV::And(l, r) => initially_true(*l, items) && initially_true(*r, items),
        ExprV::Or(l, r) => initially_true(*l, items) || initially_true(*r, items),
        ExprV::Not(x) => !initially_true(*x, items),
        _ => false,
    }
}

/// Every constant that deciding `initially_true` folds fits in 64 bits
/// (`&&` and `||` decide their right side only when they need it).
pub open spec fn decidable(e: ExprV, items: Seq<TopLevel>) -> bool
    decreases e,
{
    match e {
        ExprV::Eq(l, r) => fold_fits(*l, items) && fold_fits(*r, items),
        ExprV::Ne(l, r) => fold_fits(*l, items) && fold_fits(*r, items),
        ExprV::Ge(l, r) => fold_fits(*l, items) && fold_fits(*r, items),
        ExprV::Gt(l, r) => fold_fits(*l, items) && fold_fits(*r, items),
        ExprV::Le(l, r) => fold_fits(*l, items) && fold_fits(*r, items),
        ExprV::Lt(l, r) => fold_fits(*l, items) && fold_fits(*r, items),
        ExprV::And(l, r) => decidable(*l, items) && (initially_true(*l, items) ==> decidable(*r, items)),
        ExprV::Or(l, r) => decidable(*l, items) && (!initially_true(*l, items) ==> decidable(*r, items)),
        ExprV::Not(x) => decidable(*x, items),
        _ => true,
    }
}

/// The names of the transactions among the first `n` items whose
/// precondition holds initially and whose `async` flag is `is_async`, in
/// order.
pub open spec fn starters(items: Seq<TopLevel>, n: int, is_async: bool) -> Seq<Seq<char>>
    decreases n,
{
    if n <= 0 {
        seq![]
    } else {
        let rest = starters(items, n - 1, is_async);
        match items[n - 1] {
            TopLevel::Transaction(t) => if t.is_async == is_async && initially_true(t.contract.pre_condition@, items) {
                rest.push(t.name@)
            } else {
                rest
            },
            _ => rest,
        }
    }
}

/// Every precondition of the program can be decided.
pub open spec fn all_decidable(items: Seq<TopLevel>) -> bool {
    forall|i: int| 0 <= i < items.len() ==> match #[trigger] items[i] {
        TopLevel::Transaction(t) => decidable(t.contract.pre_condition@, items),
        _ => true,
    }
}

pub struct EntryPointV {
    pub transaction_name: Seq<char>,
    pub is_async: bool,
    pub parallel_async: nat,
}

impl View for EntryPoint {
    type V = EntryPointV;

    open spec fn view(&self) -> EntryPointV {
        EntryPointV { transaction_name: self.transaction_name@, is_async: self.is_async, parallel_async: self.parallel_async as nat }
    }
}

/// The entry point of a program: its one synchronous starter, else its
/// first asynchronous one; more than one synchronous starter is ambiguous.
pub open spec fn entry_of(items: Seq<TopLevel>) -> Result<EntryPointV, Option<Seq<Seq<char>>>> {
    let sync = starters(items, items.len() as int, false);
    let asyn = starters(items, items.len() as int, true);
    if sync.len() > 1 {
        Err(Some(sync))
    } else if sync.len() == 0 && asyn.len() == 0 {
        Err(None)
    } else if sync.len() == 1 {
        Ok(EntryPointV { transaction_name: sync[0], is_async: asyn.len() > 1, parallel_async: asyn.len() })
    } else {
        Ok(EntryPointV { transaction_name: asyn[0], is_async: asyn.len() - 1 > 1, parallel_async: (asyn.len() - 1) as nat })
    }
}

impl EntryPointError {
    /// `Err(Some(names))` for an ambiguous entry, `Err(None)` for none.
    pub open spec fn spec_kind(&self) -> Option<Seq<Seq<char>>> {
        match self {
            EntryPointError::AmbiguousEntry { transactions } => Some(string_views(transactions@)),
            EntryPointError::NoEntryPoint => None,
        }
    }

    /// The message of the error.
    pub fn to_string(&self) -> (s: String)
        ensures
            s@ == match self {
                EntryPointError::AmbiguousEntry { transactions } => "Multiple transactions can fire from initial state: "@
                    + joined(string_views(transactions@), ", "@) + ". Specify which is the entry point or make some async."@,
                EntryPointError::NoEntryPoint =>
                    "No transaction can fire from initial state. Define a transaction with a precondition that is initially true."@,
            },
    {
        match self {
            EntryPointError::AmbiguousEntry { transactions } => {
                let mut s = owned("Multiple transactions can fire from initial state: ");
                let j = join_strings(transactions, ", ");
                s.append(j.as_str());
                s.append(". Specify which is the entry point or make some async.");
                s
            }
            EntryPointError::NoEntryPoint => owned(
                "No transaction can fire from initial state. Define a transaction with a precondition that is initially true.",
            ),
        }
    }
}

/// Finds the transaction a program starts with.
pub struct EntryPointAnalyzer;

impl EntryPointAnalyzer {
    /// Whether the first declaration of `name` gives it an initial value;
    /// `None` when it is not declared.
    pub fn get_initial_value(name: &str, program: &Program) -> (r: Option<bool>)
        ensures
            r == init_value(program.items@, name@),
    {
        let items = &program.items;
        let want = chars_of(name);
        let mut i: usize = 0;
        assert(items@.subrange(0, items@.len() as int) =~= items@);
        while i < items.len()
            invariant
                i <= items@.len(),
                items@ == program.items@,
                want@ == name@,
                init_value(items@, name@) == init_value(items@.subrange(i as int, items@.len() as int), name@),
            decreases items@.len() - i,
        {
            proof {
                let tail = items@.subrange(i as int, items@.len() as int);
                assert(tail[0] == items@[i as int]);
                assert(tail.drop_first() =~= items@.subrange(i + 1, items@.len() as int));
            }
            match &items[i] {
                TopLevel::StateDecl(d) => {
                    let n = chars_of(d.name.as_str());
                    if chars_eq(n.as_slice(), want.as_slice()) {
                        assert(items@[i as int] == TopLevel::StateDecl(*d));
                        return Some(d.expr.is_some());
                    }
                }
                _ => {}
            }
            i = i + 1;
        }
        None
    }

    /// The value of an expression folded as a constant in the initial
    /// state.
    pub fn evaluate_to_constant(expr: &Expr, program: &Program) -> (r: i64)
        requires
            fold_fits(expr@, program.items@),
        ensures
            r == fold_const(expr@, program.items@),
        decreases expr,
    {
        match expr {
            Expr::Integer(n) => *n,
            Expr::Identifier(name) => match Self::get_initial_value(name.as_str(), program) {
                Some(true) => 1,
                _ => 0,
            },
            Expr::Neg(x) => {
                let v = Self::evaluate_to_constant(x, program);
                -v
            }
            Expr::Add(l, r) => {
                let a = Self::evaluate_to_constant(l, program);
                let b = Self::evaluate_to_constant(r, program);
                a + b
            }
            Expr::Sub(l, r) => {
                let a = Self::evaluate_to_constant(l, program);
                let b = Self::evaluate_to_constant(r, program);
                a - b
            }
            Expr::Mul(l, r) => {
                let a = Self::evaluate_to_constant(l, program);
                let b = Self::evaluate_to_constant(r, program);
                a * b
            }
            _ => 0,
        }
    }

    /// Whether a precondition holds in the initial state.
    pub fn is_initially_true(expr: &Expr, program: &Program) -> (r: bool)
        requires
            decidable(expr@, program.items@),
        ensures
            r == initially_true(expr@, program.items@),
        decreases expr,
    {
        match expr {
            Expr::Bool(b) => *b,
            Expr::Identifier(name) => {
                let v = Self::get_initial_value(name.as_str(), program);
                match v {
                    Some(false) => false,
                    _ => true,
                }
            }
            Expr::Eq(l, r) => Self::evaluate_to_constant(l, program) == Self::evaluate_to_constant(r, program),
            Expr::Ne(l, r) => Self::evaluate_to_constant(l, program) != Self::evaluate_to_constant(r, program),
            Expr::Ge(l, r) => Self::evaluate_to_constant(l, program) >= Self::evaluate_to_constant(r, program),
            Expr::Gt(l, r) => Self::evaluate_to_constant(l, program) > Self::evaluate_to_constant(r, program),
            Expr::Le(l, r) => Self::evaluate_to_constant(l, program) <= Self::evaluate_to_constant(r, program),
            Expr::Lt(l, r) => Self::evaluate_to_constant(l, program) < Self::evaluate_to_constant(r, program),
            Expr::And(l, r) => Self::is_initially_true(l, program) && Self::is_initially_true(r, program),
            Expr::Or(l, r) => Self::is_initially_true(l, program) || Self::is_initially_true(r, program),
            Expr::Not(x) => !Self::is_initially_true(x, program),
            _ => false,
        }
    }

    /// The entry point of a program: the one synchronous transaction whose
    /// precondition holds initially, else the first such asynchronous one
    /// (more of them may run in parallel).
    pub fn find_entry_point(program: &Program) -> (r: Result<EntryPoint, EntryPointError>)
        requires
            all_decidable(program.items@),
        ensures
            match (r, entry_of(program.items@)) {
                (Ok(e), Ok(v)) => e@ == v,
                (Err(e), Err(k)) => e.spec_kind() == k,
                _ => false,
            },
    {
        let items = &program.items;
        let mut candidates: Vec<String> = Vec::new();
        let mut async_candidates: Vec<String> = Vec::new();
        let mut i: usize = 0;
        assert(string_views(candidates@) =~= starters(items@, 0, false));
        assert(string_views(async_candidates@) =~= starters(items@, 0, true));
        while i < items.len()
            invariant
                i <= items@.len(),
                items@ == program.items@,
                all_decidable(items@),
                string_views(candidates@) == starters(items@, i as int, false),
                string_views(async_candidates@) == starters(items@, i as int, true),
            decreases items@.len() - i,
        {
            match &items[i] {
                TopLevel::Transaction(txn) => {
                    assert(items@[i as int] == TopLevel::Transaction(*txn));
                    assert(decidable(txn.contract.pre_condition@, items@));
                    if Self::is_initially_true(&txn.contract.pre_condition, program) {
                        let ghost b1 = candidates@;
                        let ghost b2 = async_candidates@;
                        if txn.is_async {
                            async_candidates.push(txn.name.clone());
                            assert(string_views(async_candidates@) =~= string_views(b2).push(txn.name@));
                        } else {
                            candidates.push(txn.name.clone());
                            assert(string_views(candidates@) =~= string_views(b1).push(txn.name@));
                        }
                    }
                }
                _ => {}
            }
            i = i + 1;
        }
        if candidates.len() > 1 {
            return Err(EntryPointError::AmbiguousEntry { transactions: candidates });
        }
        if candidates.len() == 0 && async_candidates.len() == 0 {
            return Err(EntryPointError::NoEntryPoint);
        }
        let ghost sv = string_views(candidates@);
        let ghost av = string_views(async_candidates@);
        let entry = if candidates.len() > 0 {
            candidates.remove(0)
        } else {
            async_candidates.remove(0)
        };
        assert(entry@ == (if sv.len() == 1 { sv[0] } else { av[0] }));
        Ok(EntryPoint {
            transaction_name: entry,
            is_async: candidates.len() > 0 || async_candidates.len() > 1,
            parallel_async: async_candidates.len(),
        })
    }
}

} // verus!
