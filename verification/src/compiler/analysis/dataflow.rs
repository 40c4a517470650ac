//! Data flow between transactions: the errors it reports, and the protocol
//! check of the preconditions that transactions require.

use vstd::prelude::*;
use crate::text::{owned, chars_of, contains, contains_str};
use crate::compiler::ast::{Program, TopLevel, Statement, Expr, ExprV, TypeV, TimeUnit, BitRange, Transaction};
use crate::compiler::proof_engine::strs;

verus! {

/// A data-flow problem between transactions.
#[derive(Debug, Clone)]
pub enum DataflowError {
    /// A transaction reads a variable before any transaction sets it.
    UseBeforeSet { variable: String, transaction: String, depends_on: String },
    /// A computation runs without a transaction that loads its weights.
    MissingWeightLoad { computation_txn: String, load_txn: Option<String> },
}

/// A transaction whose required register value was not set first.
#[derive(Debug, Clone)]
pub enum ProtocolError {
    PreconditionNotMet { transaction: String, required: String, missing: String },
}

impl ProtocolError {
    /// `Transaction 'T' requires R but M was not set`.
    pub fn to_string(&self) -> (s: String)
        ensures
            match self {
                ProtocolError::PreconditionNotMet { transaction, required, missing } =>
                    s@ == "Transaction '"@ + transaction@ + "' requires "@ + required@ + " but "@ + missing@ + " was not set"@,
            },
    {
        match self {
            ProtocolError::PreconditionNotMet { transaction, required, missing } => {
                let mut s = owned("Transaction '");
                s.append(transaction.as_str());
                s.append("' requires ");
                s.append(required.as_str());
                s.append(" but ");
                s.append(missing.as_str());
                s.append(" was not set");
                s
            }
        }
    }
}

/// Checks the order in which transactions set the registers that other
/// transactions require.
pub struct TransactionProtocolVerifier;

impl TransactionProtocolVerifier {
    /// The protocol violations of a program. The check tracks no register
    /// states yet, so it finds none.
    pub fn verify(program: &Program) -> (r: Vec<ProtocolError>)
        ensures
            r@.len() == 0,
    {
        Vec::new()
    }
}


// ---------------------------------------------------------------------------
// Weight loads before computations

/// A statement as a mathematical value.
pub enum StatementV {
    Assignment { lhs: ExprV, expr: ExprV, timeout: Option<(ExprV, TimeUnit)> },
    Unification { name: Seq<char>, pattern: Seq<char>, expr: ExprV },
    Guarded { condition: ExprV, statements: Seq<StatementV> },
    Term(Seq<Option<ExprV>>),
    Escape(Option<ExprV>),
    Expression(ExprV),
    Let { name: Seq<char>, ty: Option<TypeV>, expr: Option<ExprV>, address: Option<u64>, bit_range: Option<BitRange>, is_override: bool },
}

pub open spec fn opt_view(o: Option<Expr>) -> Option<ExprV> {
    match o {
        Some(e) => Some(e@),
        None => None,
    }
}

pub open spec fn stmt_view(s: Statement) -> StatementV
    decreases s,
{
    match s {
        Statement::Assignment { lhs, expr, timeout } => StatementV::Assignment {
            lhs: lhs@,
            expr: expr@,
            timeout: match timeout {
                Some((e, u)) => Some((e@, u)),
                None => None,
            },
        },
        Statement::Unification { name, pattern, expr } => StatementV::Unification { name: name@, pattern: pattern@, expr: expr@ },
        Statement::Guarded { condition, statements } => StatementV::Guarded {
            condition: condition@,
            statements: stmts_view(statements@, statements@.len() as int),
        },
        Statement::Term(outs) => StatementV::Term(outs@.map_values(|o: Option<Expr>| opt_view(o))),
        Statement::Escape(o) => StatementV::Escape(opt_view(o)),
        Statement::Expression(e) => StatementV::Expression(e@),
        Statement::Let { name, ty, expr, address, bit_range, is_override } => StatementV::Let {
            name: name@,
            ty: match ty {
                Some(t) => Some(t@),
                None => None,
            },
            expr: opt_view(expr),
            address,
            bit_range,
            is_override,
        },
    }
}

/// The views of the first `n` statements.
pub open spec fn stmts_view(ss: Seq<Statement>, n: int) -> Seq<StatementV>
    decreases ss, n,
{
    if n <= 0 || n > ss.len() {
        seq![]
    } else {
        stmts_view(ss, n - 1).push(stmt_view(ss[n - 1]))
    }
}

/// What `{:?}` writes for a list of statements: a fixed function of them.
pub uninterp spec fn statements_debug(s: Seq<StatementV>) -> Seq<char>;

/// Formats a body with `{:?}`; the contract only names the text.
#[verifier::external_body]
fn debug_statements(body: &Vec<Statement>) -> (r: String)
    ensures
        r@ == statements_debug(stmts_view(body@, body@.len() as int)),
{
    format!("{:?}", body)
}

/// The variables a body assigns by plain name (`x = ...`), guards searched.
pub open spec fn plain_writes(ss: Seq<Statement>, n: int) -> Seq<Seq<char>>
    decreases ss, n,
{
    if n <= 0 || n > ss.len() {
        seq![]
    } else {
        plain_writes(ss, n - 1) + match ss[n - 1] {
            Statement::Assignment { lhs, .. } => match lhs {
                Expr::Identifier(name) => seq![name@],
                _ => seq![],
            },
            Statement::Guarded { statements, .. } => plain_writes(statements@, statements@.len() as int),
            _ => seq![],
        }
    }
}

/// A name that looks like a weight buffer.
pub open spec fn weight_like(w: Seq<char>) -> bool {
    contains(w, "weight"@) || contains(w, "buf"@) || contains(w, "buffer"@)
}

/// A transaction that loads weights: it assigns a variable whose name looks
/// like a weight buffer.
pub open spec fn loads_weights(t: Transaction) -> bool {
    let ws = plain_writes(t.body@, t.body@.len() as int);
    exists|k: int| 0 <= k < ws.len() && #[trigger] weight_like(ws[k])
}

/// A transaction that computes: the `{:?}` text of its body mentions
/// `acc`, `result`, `compute`, `multiply` or `add`.
pub open spec fn computes(t: Transaction) -> bool {
    let d = statements_debug(stmts_view(t.body@, t.body@.len() as int));
    contains(d, "acc"@) || contains(d, "result"@) || contains(d, "compute"@) || contains(d, "multiply"@)
        || contains(d, "add"@)
}

/// Some transaction among the first `n` items loads weights.
pub open spec fn has_weight_load(items: Seq<TopLevel>, n: int) -> bool
    decreases n,
{
    if n <= 0 {
        false
    } else {
        has_weight_load(items, n - 1) || match items[n - 1] {
            TopLevel::Transaction(t) => loads_weights(t),
            _ => false,
        }
    }
}

/// The names of the computing transactions among the first `n` items.
pub open spec fn compute_names(items: Seq<TopLevel>, n: int) -> Seq<Seq<char>>
    decreases n,
{
    if n <= 0 {
        seq![]
    } else {
        compute_names(items, n - 1) + match items[n - 1] {
            TopLevel::Transaction(t) => if computes(t) { seq![t.name@] } else { seq![] },
            _ => seq![],
        }
    }
}

/// The computations reported for lack of a weight load: every computing
/// transaction, where no transaction loads weights.
pub open spec fn weight_findings(items: Seq<TopLevel>) -> Seq<Seq<char>> {
    if has_weight_load(items, items.len() as int) { seq![] } else { compute_names(items, items.len() as int) }
}

fn collect_plain_writes(ss: &Vec<Statement>, acc: &mut Vec<String>)
    ensures
        strs(final(acc)@) == strs(old(acc)@) + plain_writes(ss@, ss@.len() as int),
    decreases ss,
{
    let ghost start = strs(acc@);
    let mut i: usize = 0;
    assert(strs(acc@) =~= start + plain_writes(ss@, 0));
    while i < ss.len()
        invariant
            i <= ss@.len(),
            strs(acc@) == start + plain_writes(ss@, i as int),
        decreases ss@.len() - i,
    {
        let ghost before = strs(acc@);
        match &ss[i] {
            Statement::Assignment { lhs: Expr::Identifier(name), .. } => {
                acc.push(name.clone());
                assert(strs(acc@) =~= before + seq![name@]);
            }
            Statement::Guarded { statements, .. } => {
                proof { assert(decreases_to!(*ss => ss@[i as int])); }
                collect_plain_writes(statements, acc);
            }
            _ => {
                assert(strs(acc@) =~= before + Seq::<Seq<char>>::empty());
            }
        }
        assert(strs(acc@) =~= start + plain_writes(ss@, i + 1));
        i = i + 1;
    }
}

fn writes_weights(t: &Transaction) -> (b: bool)
    ensures
        b == loads_weights(*t),
{
    let mut ws: Vec<String> = Vec::new();
    assert(strs(ws@) =~= Seq::<Seq<char>>::empty());
    collect_plain_writes(&t.body, &mut ws);
    let ghost wv = strs(ws@);
    assert(wv =~= plain_writes(t.body@, t.body@.len() as int));
    let mut k: usize = 0;
    while k < ws.len()
        invariant
            k <= ws@.len(),
            wv == strs(ws@),
            wv == plain_writes(t.body@, t.body@.len() as int),
            forall|m: int| 0 <= m < k ==> !#[trigger] weight_like(wv[m]),
        decreases ws@.len() - k,
    {
        let c = chars_of(ws[k].as_str());
        assert(c@ == wv[k as int]);
        if contains_str(c.as_slice(), "weight") || contains_str(c.as_slice(), "buf") || contains_str(c.as_slice(), "buffer") {
            assert(weight_like(wv[k as int]));
            return true;
        }
        k = k + 1;
    }
    false
}

fn is_compute(t: &Transaction) -> (b: bool)
    ensures
        b == computes(*t),
{
    let d = debug_statements(&t.body);
    let c = chars_of(d.as_str());
    contains_str(c.as_slice(), "acc") || contains_str(c.as_slice(), "result") || contains_str(c.as_slice(), "compute")
        || contains_str(c.as_slice(), "multiply") || contains_str(c.as_slice(), "add")
}

/// Checks that computations have their weights loaded.
pub struct DataflowAnalyzer<'a> {
    program: &'a Program,
}

impl<'a> DataflowAnalyzer<'a> {
    /// An analyzer of `program`.
    pub fn new(program: &'a Program) -> (r: Self)
        ensures
            r.program() == *program,
    {
        DataflowAnalyzer { program }
    }

    pub closed spec fn program(&self) -> Program {
        *self.program
    }

    /// One `MissingWeightLoad` error (with no load transaction) for each
    /// computing transaction, in program order, where no transaction loads
    /// weights; none otherwise.
    pub fn analyze(&self) -> (r: Vec<DataflowError>)
        ensures
            r@.len() == weight_findings(self.program().items@).len(),
            forall|k: int| 0 <= k < r@.len() ==> (#[trigger] r@[k] matches DataflowError::MissingWeightLoad {
                computation_txn, load_txn } && computation_txn@ == weight_findings(self.program().items@)[k]
                && load_txn is None),
    {
        let items = &self.program.items;
        let mut any_load = false;
        let mut i: usize = 0;
        while i < items.len()
            invariant
                i <= items@.len(),
                any_load == has_weight_load(items@, i as int),
            decreases items@.len() - i,
        {
            match &items[i] {
                TopLevel::Transaction(t) => {
                    if writes_weights(t) {
                        any_load = true;
                    }
                }
                _ => {}
            }
            i = i + 1;
        }
        let mut errors: Vec<DataflowError> = Vec::new();
        if any_load {
            return errors;
        }
        let ghost names = compute_names(items@, items@.len() as int);
        let mut j: usize = 0;
        while j < items.len()
            invariant
                j <= items@.len(),
                errors@.len() == compute_names(items@, j as int).len(),
                forall|k: int| 0 <= k < errors@.len() ==> (#[trigger] errors@[k] matches DataflowError::MissingWeightLoad {
                    computation_txn, load_txn } && computation_txn@ == compute_names(items@, j as int)[k]
                    && load_txn is None),
            decreases items@.len() - j,
        {
            let ghost before = compute_names(items@, j as int);
            match &items[j] {
                TopLevel::Transaction(t) => {
                    if is_compute(t) {
                        errors.push(DataflowError::MissingWeightLoad { computation_txn: t.name.clone(), load_txn: None });
                    }
                }
                _ => {}
            }
            assert(forall|k: int| 0 <= k < before.len() ==> compute_names(items@, j + 1)[k] == before[k]);
            j = j + 1;
        }
        errors
    }
}

} // verus!
