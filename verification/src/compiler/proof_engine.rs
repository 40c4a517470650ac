//! The proof engine's findings: errors and warnings with an explanation,
//! the chain of reasoning behind them, examples and hints; and the checks
//! of the engine that read contracts and bodies directly: trivial
//! contracts, postconditions that always hold, and reactive transactions
//! that cannot settle.

use vstd::prelude::*;
use crate::text::{owned, chars_of, chars_eq, decimal, decimal_signed, push_decimal, push_decimal_signed, push_char};
use crate::seqs::{first_index, lemma_first_index_is, lemma_first_index_none};
use crate::table::{keys_of, table_map, table_insert, lemma_table_insert, find_key};
use crate::compiler::errors::Span;
use crate::compiler::ast::{
    Program, TopLevel, Statement, Expr, ExprV, Transaction, add_name, name_set, no_dup_names, expr_view, exprs_view,
    pairs_view, lemma_exprs_view, lemma_pairs_view, Signature, Definition, ResultType, Type, TypeV, type_list,
    output_types,
};
use crate::compiler::sig_casting::{verify_sig_projection, projection_check, types_debug, requested, debug_types};
use crate::compiler::hardware_validator::contains_name;

verus! {

/// A finding of the proof engine.
#[derive(Debug, Clone)]
pub struct ProofError {
    pub code: String,
    pub title: String,
    pub explanation: String,
    pub proof_chain: Vec<String>,
    pub examples: Vec<String>,
    pub hints: Vec<String>,
    pub is_warning: bool,
    pub span: Option<Span>,
}

pub struct ProofErrorV {
    pub code: Seq<char>,
    pub title: Seq<char>,
    pub explanation: Seq<char>,
    pub proof_chain: Seq<Seq<char>>,
    pub examples: Seq<Seq<char>>,
    pub hints: Seq<Seq<char>>,
    pub is_warning: bool,
    pub span: Option<Span>,
}

pub open spec fn strs(v: Seq<String>) -> Seq<Seq<char>> {
    v.map_values(|s: String| s@)
}

impl View for ProofError {
    type V = ProofErrorV;

    open spec fn view(&self) -> ProofErrorV {
        ProofErrorV {
            code: self.code@,
            title: self.title@,
            explanation: self.explanation@,
            proof_chain: strs(self.proof_chain@),
            examples: strs(self.examples@),
            hints: strs(self.hints@),
            is_warning: self.is_warning,
            span: self.span,
        }
    }
}

pub open spec fn proof_views(v: Seq<ProofError>) -> Seq<ProofErrorV> {
    v.map_values(|e: ProofError| e@)
}

fn copy_strings(v: &Vec<String>) -> (r: Vec<String>)
    ensures
        strs(r@) == strs(v@),
{
    let mut r: Vec<String> = Vec::new();
    let mut i: usize = 0;
    while i < v.len()
        invariant
            i <= v@.len(),
            strs(r@) == strs(v@.subrange(0, i as int)),
        decreases v@.len() - i,
    {
        let ghost before = r@;
        let c = v[i].clone();
        r.push(c);
        assert(strs(r@) =~= strs(before).push(c@));
        assert(strs(v@.subrange(0, i + 1)) =~= strs(v@.subrange(0, i as int)).push(v@[i as int]@));
        assert(strs(r@) =~= strs(v@.subrange(0, i + 1)));
        i = i + 1;
    }
    assert(v@.subrange(0, v@.len() as int) =~= v@);
    r
}

/// A finding with a code and a title and nothing else yet.
pub open spec fn bare_finding(code: Seq<char>, title: Seq<char>, is_warning: bool) -> ProofErrorV {
    ProofErrorV {
        code,
        title,
        explanation: seq![],
        proof_chain: seq![],
        examples: seq![],
        hints: seq![],
        is_warning,
        span: None,
    }
}

impl ProofError {
    /// A copy of the finding.
    pub fn copy(&self) -> (e: Self)
        ensures
            e@ == self@,
    {
        ProofError {
            code: self.code.clone(),
            title: self.title.clone(),
            explanation: self.explanation.clone(),
            proof_chain: copy_strings(&self.proof_chain),
            examples: copy_strings(&self.examples),
            hints: copy_strings(&self.hints),
            is_warning: self.is_warning,
            span: self.span,
        }
    }

    fn bare(code: &str, title: &str, is_warning: bool) -> (e: Self)
        ensures
            e@ == bare_finding(code@, title@, is_warning),
    {
        let e = ProofError {
            code: owned(code),
            title: owned(title),
            explanation: String::new(),
            proof_chain: Vec::new(),
            examples: Vec::new(),
            hints: Vec::new(),
            is_warning,
            span: None,
        };
        assert(strs(e.proof_chain@) =~= Seq::<Seq<char>>::empty());
        assert(strs(e.examples@) =~= Seq::<Seq<char>>::empty());
        assert(strs(e.hints@) =~= Seq::<Seq<char>>::empty());
        e
    }

    /// An error with a code and a title.
    pub fn new(code: &str, title: &str) -> (e: Self)
        ensures
            e@ == bare_finding(code@, title@, false),
    {
        Self::bare(code, title, false)
    }

    /// A warning with a code and a title.
    pub fn new_warning(code: &str, title: &str) -> (e: Self)
        ensures
            e@ == bare_finding(code@, title@, true),
    {
        Self::bare(code, title, true)
    }

    pub fn with_span(self, span: Span) -> (e: Self)
        ensures
            e@ == (ProofErrorV { span: Some(span), ..self@ }),
    {
        let mut e = self;
        e.span = Some(span);
        e
    }

    /// Replaces the explanation.
    pub fn with_explanation(self, text: &str) -> (e: Self)
        ensures
            e@ == (ProofErrorV { explanation: text@, ..self@ }),
    {
        let mut e = self;
        e.explanation = owned(text);
        e
    }

    /// Adds a step to the chain of reasoning.
    pub fn with_proof_step(self, step: &str) -> (e: Self)
        ensures
            e@ == (ProofErrorV { proof_chain: self@.proof_chain.push(step@), ..self@ }),
    {
        let mut e = self;
        e.proof_chain.push(owned(step));
        assert(strs(e.proof_chain@) =~= strs(self.proof_chain@).push(step@));
        e
    }

    /// Adds an example.
    pub fn with_example(self, example: &str) -> (e: Self)
        ensures
            e@ == (ProofErrorV { examples: self@.examples.push(example@), ..self@ }),
    {
        let mut e = self;
        e.examples.push(owned(example));
        assert(strs(e.examples@) =~= strs(self.examples@).push(example@));
        e
    }

    /// Adds a hint.
    pub fn with_hint(self, hint: &str) -> (e: Self)
        ensures
            e@ == (ProofErrorV { hints: self@.hints.push(hint@), ..self@ }),
    {
        let mut e = self;
        e.hints.push(owned(hint));
        assert(strs(e.hints@) =~= strs(self.hints@).push(hint@));
        e
    }
}

// ---------------------------------------------------------------------------
// Checks on contracts and bodies

/// A finding with an explanation, chain and hints.
pub open spec fn finding(code: Seq<char>, title: Seq<char>, is_warning: bool, explanation: Seq<char>,
    chain: Seq<Seq<char>>, hints: Seq<Seq<char>>) -> ProofErrorV {
    ProofErrorV { explanation, proof_chain: chain, hints, ..bare_finding(code, title, is_warning) }
}

/// The findings for a trivial (`[true]`) precondition and/or
/// postcondition of the transaction or definition `name`; `kind` says
/// which it is, and the two examples suggest better contracts. With both
/// trivial, both are errors; with one, it is a warning.
pub open spec fn trivial_findings(kind: Seq<char>, name: Seq<char>, pre_trivial: bool, post_trivial: bool,
    pre_example: Seq<char>, post_example: Seq<char>) -> Seq<ProofErrorV> {
    let pre_text = kind + " '"@ + name + "' has precondition '[true]' which is always satisfied"@;
    let post_text = kind + " '"@ + name + "' has postcondition '[true]' which is always satisfied"@;
    let pre_hint = "specify what state is required before '"@ + name + "' runs"@;
    let post_hint = "specify what state '"@ + name + "' guarantees after running"@;
    if pre_trivial && post_trivial {
        seq![
            finding("P009"@, "trivial precondition"@, false, pre_text,
                seq!["1. '[true]' accepts any state"@, "2. this provides no compile-time safety"@], seq![pre_hint, pre_example]),
            finding("P010"@, "trivial postcondition"@, false, post_text,
                seq!["1. '[true]' accepts any state"@, "2. this provides no compile-time safety"@], seq![post_hint, post_example]),
        ]
    } else if pre_trivial {
        seq![
            finding("P009"@, "trivial precondition"@, true, pre_text,
                seq!["1. '[true]' accepts any state"@, "2. consider specifying actual preconditions"@], seq![pre_hint, pre_example]),
        ]
    } else if post_trivial {
        seq![
            finding("P010"@, "trivial postcondition"@, true, post_text,
                seq!["1. '[true]' accepts any state"@, "2. consider specifying actual postconditions"@], seq![post_hint, post_example]),
        ]
    } else {
        seq![]
    }
}

/// A transaction or definition whose precondition and postcondition are both
/// `[true]` gets two errors, P009 then P010; with only the precondition
/// `[true]`, one P009 warning and no P010; with only the postcondition, one
/// P010 warning and no P009; with neither, no finding.
pub proof fn law_trivial_contracts(kind: Seq<char>, name: Seq<char>, pre_trivial: bool, post_trivial: bool,
    pre_example: Seq<char>, post_example: Seq<char>)
    ensures
        ({
            let f = trivial_findings(kind, name, pre_trivial, post_trivial, pre_example, post_example);
            &&& pre_trivial && post_trivial ==> f.len() == 2 && f[0].code == "P009"@ && !f[0].is_warning
                && f[1].code == "P010"@ && !f[1].is_warning
            &&& pre_trivial && !post_trivial ==> f.len() == 1 && f[0].code == "P009"@ && f[0].is_warning
            &&& !pre_trivial && post_trivial ==> f.len() == 1 && f[0].code == "P010"@ && f[0].is_warning
            &&& !pre_trivial && !post_trivial ==> f.len() == 0
        }),
{
}

/// The trivial-contract findings of one item.
pub open spec fn item_trivial_findings(item: TopLevel) -> Seq<ProofErrorV> {
    match item {
        TopLevel::Transaction(t) => trivial_findings("transaction"@, t.name@,
            t.contract.pre_condition@ == ExprV::Bool(true), t.contract.post_condition@ == ExprV::Bool(true),
            "e.g., '[count > 0]' instead of '[true]'"@, "e.g., '[count == @count + 1]' instead of '[true]'"@),
        TopLevel::Definition(d) => trivial_findings("definition"@, d.name@,
            d.contract.pre_condition@ == ExprV::Bool(true), d.contract.post_condition@ == ExprV::Bool(true),
            "e.g., '[x > 0]' instead of '[true]'"@, "e.g., '[result > 0]' instead of '[true]'"@),
        _ => seq![],
    }
}

/// The finding for a postcondition `x == @x` (or `@x == x`), which always
/// holds.
pub open spec fn same_value_finding(t: Transaction) -> Seq<ProofErrorV> {
    match t.contract.post_condition@ {
        ExprV::Eq(l, r) => {
            let pair = match (*l, *r) {
                (ExprV::Identifier(v), ExprV::PriorState(p)) => Some((v, p)),
                (ExprV::PriorState(p), ExprV::Identifier(v)) => Some((v, p)),
                _ => None,
            };
            match pair {
                Some((v, p)) => if v == p {
                    seq![finding("P003"@, "postcondition is always satisfied"@, false,
                        "transaction '"@ + t.name@ + "' postcondition '"@ + v + " == @"@ + v + "' is always true"@,
                        seq![
                            "1. '@"@ + v + "' refers to the value of '"@ + v + "' at transaction start"@,
                            "2. postcondition requires: "@ + v + " == @"@ + v,
                            "3. this is always true (any value equals itself)"@,
                        ],
                        seq!["did you mean to modify the variable?"@])]
                } else {
                    seq![]
                },
                None => seq![],
            }
        },
        _ => seq![],
    }
}

/// A statement list reaches a `term`, directly or inside a guard.
pub open spec fn has_term(ss: Seq<Statement>, n: int) -> bool
    decreases ss, n,
{
    if n <= 0 || n > ss.len() {
        false
    } else {
        has_term(ss, n - 1) || match ss[n - 1] {
            Statement::Term(_) => true,
            Statement::Guarded { statements, .. } => has_term(statements@, statements@.len() as int),
            _ => false,
        }
    }
}

/// The finding for a reactive transaction without a `term`.
pub open spec fn unsettled_finding(t: Transaction) -> Seq<ProofErrorV> {
    if t.is_reactive && !has_term(t.body@, t.body@.len() as int) {
        seq![finding("P005"@, "transaction has no valid termination"@, false,
            "transaction '"@ + t.name@ + "' has no 'term' statement, so it can never complete"@,
            seq![
                "1. '"@ + t.name@ + "' is declared as reactive (rct)"@,
                "2. reactive transactions must have a 'term' to settle"@,
                "3. without 'term', the reactor will wait forever"@,
            ],
            seq!["add 'term;' at the end of transaction '"@ + t.name@ + "'"@, "or use 'term expr1, expr2, ...;' to return values"@])]
    } else {
        seq![]
    }
}

/// The findings of `check` over the first `n` items, in order; `which`
/// picks the check: 0 trivial contracts, 1 self-equal postconditions,
/// 2 reactive transactions that cannot settle.
pub open spec fn item_findings(item: TopLevel, which: int) -> Seq<ProofErrorV> {
    if which == 0 {
        item_trivial_findings(item)
    } else {
        match item {
            TopLevel::Transaction(t) => if which == 1 { same_value_finding(t) } else { unsettled_finding(t) },
            _ => seq![],
        }
    }
}

pub open spec fn program_findings(items: Seq<TopLevel>, n: int, which: int) -> Seq<ProofErrorV>
    decreases n,
{
    if n <= 0 {
        seq![]
    } else {
        program_findings(items, n - 1, which) + item_findings(items[n - 1], which)
    }
}

fn finding_exec(code: &str, title: &str, is_warning: bool, explanation: String, chain: Vec<String>, hints: Vec<String>) -> (e: ProofError)
    ensures
        e@ == finding(code@, title@, is_warning, explanation@, strs(chain@), strs(hints@)),
{
    let mut e = ProofError::bare(code, title, is_warning);
    e.explanation = explanation;
    e.proof_chain = chain;
    e.hints = hints;
    e
}

fn text3(a: &str, b: &str, c: &str) -> (s: String)
    ensures
        s@ == a@ + b@ + c@,
{
    let mut s = owned(a);
    s.append(b);
    s.append(c);
    s
}

fn two(a: String, b: String) -> (v: Vec<String>)
    ensures
        strs(v@) == seq![a@, b@],
{
    let mut v = Vec::new();
    v.push(a);
    v.push(b);
    assert(strs(v@) =~= seq![a@, b@]);
    v
}

fn trivial_findings_exec(kind: &str, name: &str, pre_trivial: bool, post_trivial: bool, pre_example: &str,
    post_example: &str, out: &mut Vec<ProofError>)
    ensures
        proof_views(final(out)@) == proof_views(old(out)@) + trivial_findings(kind@, name@, pre_trivial, post_trivial,
            pre_example@, post_example@),
{
    let ghost start = proof_views(out@);
    let mut pre_text = owned(kind);
    pre_text.append(" '");
    pre_text.append(name);
    pre_text.append("' has precondition '[true]' which is always satisfied");
    let mut post_text = owned(kind);
    post_text.append(" '");
    post_text.append(name);
    post_text.append("' has postcondition '[true]' which is always satisfied");
    if pre_trivial && post_trivial {
        let a = finding_exec("P009", "trivial precondition", false, pre_text,
            two(owned("1. '[true]' accepts any state"), owned("2. this provides no compile-time safety")),
            two(text3("specify what state is required before '", name, "' runs"), owned(pre_example)));
        let b = finding_exec("P010", "trivial postcondition", false, post_text,
            two(owned("1. '[true]' accepts any state"), owned("2. this provides no compile-time safety")),
            two(text3("specify what state '", name, "' guarantees after running"), owned(post_example)));
        out.push(a);
        out.push(b);
        assert(proof_views(out@) =~= start + seq![a@, b@]);
    } else if pre_trivial {
        let a = finding_exec("P009", "trivial precondition", true, pre_text,
            two(owned("1. '[true]' accepts any state"), owned("2. consider specifying actual preconditions")),
            two(text3("specify what state is required before '", name, "' runs"), owned(pre_example)));
        out.push(a);
        assert(proof_views(out@) =~= start + seq![a@]);
    } else if post_trivial {
        let b = finding_exec("P010", "trivial postcondition", true, post_text,
            two(owned("1. '[true]' accepts any state"), owned("2. consider specifying actual postconditions")),
            two(text3("specify what state '", name, "' guarantees after running"), owned(post_example)));
        out.push(b);
        assert(proof_views(out@) =~= start + seq![b@]);
    } else {
        assert(proof_views(out@) =~= start + Seq::<ProofErrorV>::empty());
    }
}

fn is_true_literal(e: &Expr) -> (r: bool)
    ensures
        r == (e@ == ExprV::Bool(true)),
{
    match e {
        Expr::Bool(b) => *b,
        _ => false,
    }
}

fn has_term_statement(statements: &Vec<Statement>) -> (r: bool)
    ensures
        r == has_term(statements@, statements@.len() as int),
    decreases statements,
{
    let mut i: usize = 0;
    while i < statements.len()
        invariant
            i <= statements@.len(),
            !has_term(statements@, i as int),
        decreases statements@.len() - i,
    {
        match &statements[i] {
            Statement::Term(_) => {
                assert(has_term(statements@, i + 1));
                proof { lemma_has_term_mono(statements@, i + 1, statements@.len() as int); }
                return true;
            }
            Statement::Guarded { statements: inner, .. } => {
                proof { assert(decreases_to!(*statements => statements@[i as int])); }
                if has_term_statement(inner) {
                    assert(has_term(statements@, i + 1));
                    proof { lemma_has_term_mono(statements@, i + 1, statements@.len() as int); }
                    return true;
                }
            }
            _ => {}
        }
        i = i + 1;
    }
    false
}

proof fn lemma_has_term_mono(ss: Seq<Statement>, m: int, n: int)
    requires
        0 <= m <= n <= ss.len(),
        has_term(ss, m),
    ensures
        has_term(ss, n),
    decreases n - m,
{
    if m < n {
        lemma_has_term_mono(ss, m, n - 1);
    }
}

pub(crate) fn name_eq(a: &String, b: &String) -> (r: bool)
    ensures
        r == (a@ == b@),
{
    let x = chars_of(a.as_str());
    let y = chars_of(b.as_str());
    chars_eq(x.as_slice(), y.as_slice())
}

/// The engine that checks a program's contracts.
pub struct ProofEngine {
    errors: Vec<ProofError>,
}

impl ProofEngine {
    pub closed spec fn findings(&self) -> Seq<ProofErrorV> {
        proof_views(self.errors@)
    }

    /// An engine with no findings.
    pub fn new() -> (r: Self)
        ensures
            r.findings().len() == 0,
    {
        ProofEngine { errors: Vec::new() }
    }

    /// Reports trivial contracts: a `[true]` precondition and/or
    /// postcondition of each transaction and definition (errors when both
    /// are trivial, warnings otherwise).
    pub fn check_trivial_contracts(&mut self, program: &Program)
        ensures
            final(self).findings() == old(self).findings() + program_findings(program.items@, program.items@.len() as int, 0),
    {
        let items = &program.items;
        let ghost start = self.findings();
        let mut i: usize = 0;
        assert(self.findings() =~= start + program_findings(items@, 0, 0));
        while i < items.len()
            invariant
                i <= items@.len(),
                items@ == program.items@,
                self.findings() == start + program_findings(items@, i as int, 0),
            decreases items@.len() - i,
        {
            let ghost before = self.findings();
            match &items[i] {
                TopLevel::Transaction(t) => {
                    trivial_findings_exec("transaction", t.name.as_str(), is_true_literal(&t.contract.pre_condition),
                        is_true_literal(&t.contract.post_condition), "e.g., '[count > 0]' instead of '[true]'",
                        "e.g., '[count == @count + 1]' instead of '[true]'", &mut self.errors);
                }
                TopLevel::Definition(d) => {
                    trivial_findings_exec("definition", d.name.as_str(), is_true_literal(&d.contract.pre_condition),
                        is_true_literal(&d.contract.post_condition), "e.g., '[x > 0]' instead of '[true]'",
                        "e.g., '[result > 0]' instead of '[true]'", &mut self.errors);
                }
                _ => {
                    assert(proof_views(self.errors@) =~= before + Seq::<ProofErrorV>::empty());
                }
            }
            assert(self.findings() =~= start + program_findings(items@, i + 1, 0));
            i = i + 1;
        }
    }

    fn analyze_postcondition(&mut self, txn: &Transaction)
        ensures
            final(self).findings() == old(self).findings() + same_value_finding(*txn),
    {
        let ghost start = self.findings();
        proof { reveal_with_fuel(crate::compiler::ast::expr_view, 2); }
        let pair: Option<(&String, &String)> = match &txn.contract.post_condition {
            Expr::Eq(l, r) => match (&**l, &**r) {
                (Expr::Identifier(v), Expr::PriorState(p)) => Some((v, p)),
                (Expr::PriorState(p), Expr::Identifier(v)) => Some((v, p)),
                _ => None,
            },
            _ => None,
        };
        match pair {
            Some((v, p)) => {
                if name_eq(v, p) {
                    let mut explanation = owned("transaction '");
                    explanation.append(txn.name.as_str());
                    explanation.append("' postcondition '");
                    explanation.append(v.as_str());
                    explanation.append(" == @");
                    explanation.append(v.as_str());
                    explanation.append("' is always true");
                    let mut s1 = owned("1. '@");
                    s1.append(v.as_str());
                    s1.append("' refers to the value of '");
                    s1.append(v.as_str());
                    s1.append("' at transaction start");
                    let mut s2 = owned("2. postcondition requires: ");
                    s2.append(v.as_str());
                    s2.append(" == @");
                    s2.append(v.as_str());
                    let mut chain = two(s1, s2);
                    let s3 = owned("3. this is always true (any value equals itself)");
                    let ghost c0 = strs(chain@);
                    chain.push(s3);
                    assert(strs(chain@) =~= c0.push(s3@));
                    assert(strs(chain@) =~= seq![s1@, s2@, s3@]);
                    let mut hints: Vec<String> = Vec::new();
                    let h = owned("did you mean to modify the variable?");
                    hints.push(h);
                    assert(strs(hints@) =~= seq![h@]);
                    let e = finding_exec("P003", "postcondition is always satisfied", false, explanation, chain, hints);
                    self.errors.push(e);
                    assert(self.findings() =~= start + seq![e@]);
                } else {
                    assert(self.findings() =~= start + Seq::<ProofErrorV>::empty());
                }
            }
            None => {
                assert(self.findings() =~= start + Seq::<ProofErrorV>::empty());
            }
        }
    }

    /// Reports each transaction whose postcondition is `x == @x` (or
    /// `@x == x`): it always holds.
    pub fn check_postcondition_contradictions(&mut self, program: &Program)
        ensures
            final(self).findings() == old(self).findings() + program_findings(program.items@, program.items@.len() as int, 1),
    {
        let items = &program.items;
        let ghost start = self.findings();
        let mut i: usize = 0;
        assert(self.findings() =~= start + program_findings(items@, 0, 1));
        while i < items.len()
            invariant
                i <= items@.len(),
                items@ == program.items@,
                self.findings() == start + program_findings(items@, i as int, 1),
            decreases items@.len() - i,
        {
            let ghost before = self.findings();
            match &items[i] {
                TopLevel::Transaction(t) => self.analyze_postcondition(t),
                _ => {
                    assert(self.findings() =~= before + Seq::<ProofErrorV>::empty());
                }
            }
            assert(self.findings() =~= start + program_findings(items@, i + 1, 1));
            i = i + 1;
        }
    }

    /// Reports each reactive transaction whose body never reaches `term`.
    pub fn check_total_path(&mut self, program: &Program)
        ensures
            final(self).findings() == old(self).findings() + program_findings(program.items@, program.items@.len() as int, 2),
    {
        let items = &program.items;
        let ghost start = self.findings();
        let mut i: usize = 0;
        assert(self.findings() =~= start + program_findings(items@, 0, 2));
        while i < items.len()
            invariant
                i <= items@.len(),
                items@ == program.items@,
                self.findings() == start + program_findings(items@, i as int, 2),
            decreases items@.len() - i,
        {
            let ghost before = self.findings();
            match &items[i] {
                TopLevel::Transaction(t) => {
                    assert(items@[i as int] == TopLevel::Transaction(*t));
                    assert(item_findings(items@[i as int], 2) == unsettled_finding(*t));
                    if t.is_reactive && !has_term_statement(&t.body) {
                        let mut explanation = owned("transaction '");
                        explanation.append(t.name.as_str());
                        explanation.append("' has no 'term' statement, so it can never complete");
                        let s1 = text3("1. '", t.name.as_str(), "' is declared as reactive (rct)");
                        let mut chain = two(s1, owned("2. reactive transactions must have a 'term' to settle"));
                        let s3 = owned("3. without 'term', the reactor will wait forever");
                        let ghost c0 = strs(chain@);
                        chain.push(s3);
                        assert(strs(chain@) =~= c0.push(s3@));
                        assert(strs(chain@) =~= seq![s1@, "2. reactive transactions must have a 'term' to settle"@, s3@]);
                        let hints = two(text3("add 'term;' at the end of transaction '", t.name.as_str(), "'"),
                            owned("or use 'term expr1, expr2, ...;' to return values"));
                        let e = finding_exec("P005", "transaction has no valid termination", false, explanation, chain, hints);
                        self.errors.push(e);
                        assert(seq![e@] == unsettled_finding(*t));
                        assert(self.findings() =~= before + seq![e@]);
                    } else {
                        assert(self.findings() =~= before + Seq::<ProofErrorV>::empty());
                    }
                }
                _ => {
                    assert(self.findings() =~= before + Seq::<ProofErrorV>::empty());
                }
            }
            assert(self.findings() =~= start + program_findings(items@, i + 1, 2));
            i = i + 1;
        }
    }

    /// The findings so far.
    pub fn errors(&self) -> (r: Vec<ProofError>)
        ensures
            proof_views(r@) == self.findings(),
    {
        let mut v: Vec<ProofError> = Vec::new();
        let mut i: usize = 0;
        while i < self.errors.len()
            invariant
                i <= self.errors@.len(),
                proof_views(v@) == proof_views(self.errors@.subrange(0, i as int)),
            decreases self.errors@.len() - i,
        {
            let e = self.errors[i].copy();
            let ghost before = v@;
            v.push(e);
            assert(proof_views(v@) =~= proof_views(before).push(e@));
            assert(proof_views(self.errors@.subrange(0, i + 1)) =~= proof_views(self.errors@.subrange(0, i as int)).push(self.errors@[i as int]@));
            assert(proof_views(v@) =~= proof_views(self.errors@.subrange(0, i + 1)));
            i = i + 1;
        }
        assert(self.errors@.subrange(0, self.errors@.len() as int) =~= self.errors@);
        v
    }
}


// ---------------------------------------------------------------------------
// Ownership conflicts between async reactive transactions

/// The variables an expression reads, as the ownership check sees them:
/// identifiers and prior-state references under `+ - * /`, comparisons,
/// `&&`, `||` and `!`.
pub open spec fn read_vars_expr(e: ExprV) -> Set<Seq<char>>
    decreases e,
{
    match e {
        ExprV::Identifier(n) => set![n],
        ExprV::PriorState(n) => set![n],
        ExprV::Add(l, r) => read_vars_expr(*l) + read_vars_expr(*r),
        ExprV::Sub(l, r) => read_vars_expr(*l) + read_vars_expr(*r),
        ExprV::Mul(l, r) => read_vars_expr(*l) + read_vars_expr(*r),
        ExprV::Div(l, r) => read_vars_expr(*l) + read_vars_expr(*r),
        ExprV::Eq(l, r) => read_vars_expr(*l) + read_vars_expr(*r),
        ExprV::Ne(l, r) => read_vars_expr(*l) + read_vars_expr(*r),
        ExprV::Lt(l, r) => read_vars_expr(*l) + read_vars_expr(*r),
        ExprV::Le(l, r) => read_vars_expr(*l) + read_vars_expr(*r),
        ExprV::Gt(l, r) => read_vars_expr(*l) + read_vars_expr(*r),
        ExprV::Ge(l, r) => read_vars_expr(*l) + read_vars_expr(*r),
        ExprV::And(l, r) => read_vars_expr(*l) + read_vars_expr(*r),
        ExprV::Or(l, r) => read_vars_expr(*l) + read_vars_expr(*r),
        ExprV::Not(x) => read_vars_expr(*x),
        _ => Set::empty(),
    }
}

/// The variables read by the outputs of a `term`.
pub open spec fn term_read_vars(outs: Seq<Option<Expr>>, n: int) -> Set<Seq<char>>
    decreases n,
{
    if n <= 0 || n > outs.len() {
        Set::empty()
    } else {
        term_read_vars(outs, n - 1) + match outs[n - 1] {
            Some(e) => read_vars_expr(e@),
            None => Set::empty(),
        }
    }
}

/// The variables a statement reads: both sides of an assignment, the value
/// of a `let`, an expression statement, a guard's condition and body, and
/// the outputs of `term`.
pub open spec fn stmt_read_vars(s: Statement) -> Set<Seq<char>>
    decreases s,
{
    match s {
        Statement::Assignment { lhs, expr, .. } => read_vars_expr(expr@) + read_vars_expr(lhs@),
        Statement::Let { expr: Some(e), .. } => read_vars_expr(e@),
        Statement::Expression(e) => read_vars_expr(e@),
        Statement::Guarded { condition, statements } =>
            read_vars_expr(condition@) + stmts_read_vars(statements@, statements@.len() as int),
        Statement::Term(outs) => term_read_vars(outs@, outs@.len() as int),
        _ => Set::empty(),
    }
}

/// The variables the first `n` statements read.
pub open spec fn stmts_read_vars(ss: Seq<Statement>, n: int) -> Set<Seq<char>>
    decreases ss, n,
{
    if n <= 0 || n > ss.len() {
        Set::empty()
    } else {
        stmts_read_vars(ss, n - 1) + stmt_read_vars(ss[n - 1])
    }
}

/// The owned variable an assignment target writes: `&x` or `&x[i]`.
pub open spec fn written_by(lhs: ExprV) -> Seq<Seq<char>> {
    match lhs {
        ExprV::OwnedRef(n) => seq![n],
        ExprV::ListIndex(inner, _) => match *inner {
            ExprV::OwnedRef(n) => seq![n],
            _ => seq![],
        },
        _ => seq![],
    }
}

/// The variables a statement writes, in order, with repeats.
pub open spec fn stmt_write_list(s: Statement) -> Seq<Seq<char>>
    decreases s,
{
    match s {
        Statement::Assignment { lhs, .. } => written_by(lhs@),
        Statement::Guarded { statements, .. } => stmts_write_list(statements@, statements@.len() as int),
        _ => seq![],
    }
}

/// The variables the first `n` statements write, in order, with repeats.
pub open spec fn stmts_write_list(ss: Seq<Statement>, n: int) -> Seq<Seq<char>>
    decreases ss, n,
{
    if n <= 0 || n > ss.len() {
        seq![]
    } else {
        stmts_write_list(ss, n - 1) + stmt_write_list(ss[n - 1])
    }
}

/// Each name once, at its first place.
pub open spec fn dedup(s: Seq<Seq<char>>) -> Seq<Seq<char>>
    decreases s.len(),
{
    if s.len() == 0 {
        seq![]
    } else {
        let d = dedup(s.drop_last());
        if d.contains(s.last()) {
            d
        } else {
            d.push(s.last())
        }
    }
}

/// The variables a transaction's body writes, each once, in the order of
/// their first write.
pub open spec fn txn_writes(t: Transaction) -> Seq<Seq<char>> {
    dedup(stmts_write_list(t.body@, t.body@.len() as int))
}

/// The variables a transaction's body reads.
pub open spec fn txn_reads(t: Transaction) -> Set<Seq<char>> {
    stmts_read_vars(t.body@, t.body@.len() as int)
}

/// The names of `s` that are in `keep`, in order.
pub open spec fn pick(s: Seq<Seq<char>>, keep: Set<Seq<char>>) -> Seq<Seq<char>>
    decreases s.len(),
{
    if s.len() == 0 {
        seq![]
    } else {
        pick(s.drop_last(), keep) + if keep.contains(s.last()) { seq![s.last()] } else { seq![] }
    }
}

/// Each name with a description of the access.
pub open spec fn described(s: Seq<Seq<char>>, desc: Seq<char>) -> Seq<(Seq<char>, Seq<char>)> {
    s.map_values(|w: Seq<char>| (w, desc))
}

/// The conflicting accesses of two transactions: what both write, what the
/// first writes and the second reads, what the second writes and the first
/// reads.
pub open spec fn conflicts(t1: Transaction, t2: Transaction) -> Seq<(Seq<char>, Seq<char>)> {
    let w1 = txn_writes(t1);
    let w2 = txn_writes(t2);
    described(pick(w1, w2.to_set()), t2.name@ + " writes while "@ + t1.name@ + " writes"@)
        + described(pick(w1, txn_reads(t2)), t2.name@ + " reads while "@ + t1.name@ + " writes"@)
        + described(pick(w2, txn_reads(t1)), t1.name@ + " reads while "@ + t2.name@ + " writes"@)
}

/// The identifiers, owned references and prior-state references anywhere
/// in an expression, except inside slices and quantifiers.
pub open spec fn ident_set(e: ExprV) -> Set<Seq<char>>
    decreases e,
{
    match e {
        ExprV::Identifier(n) => set![n],
        ExprV::OwnedRef(n) => set![n],
        ExprV::PriorState(n) => set![n],
        ExprV::Add(l, r) => ident_set(*l) + ident_set(*r),
        ExprV::Sub(l, r) => ident_set(*l) + ident_set(*r),
        ExprV::Mul(l, r) => ident_set(*l) + ident_set(*r),
        ExprV::Div(l, r) => ident_set(*l) + ident_set(*r),
        ExprV::BitAnd(l, r) => ident_set(*l) + ident_set(*r),
        ExprV::BitOr(l, r) => ident_set(*l) + ident_set(*r),
        ExprV::BitXor(l, r) => ident_set(*l) + ident_set(*r),
        ExprV::Shl(l, r) => ident_set(*l) + ident_set(*r),
        ExprV::Shr(l, r) => ident_set(*l) + ident_set(*r),
        ExprV::Eq(l, r) => ident_set(*l) + ident_set(*r),
        ExprV::Ne(l, r) => ident_set(*l) + ident_set(*r),
        ExprV::Lt(l, r) => ident_set(*l) + ident_set(*r),
        ExprV::Le(l, r) => ident_set(*l) + ident_set(*r),
        ExprV::Gt(l, r) => ident_set(*l) + ident_set(*r),
        ExprV::Ge(l, r) => ident_set(*l) + ident_set(*r),
        ExprV::Or(l, r) => ident_set(*l) + ident_set(*r),
        ExprV::And(l, r) => ident_set(*l) + ident_set(*r),
        ExprV::Not(x) => ident_set(*x),
        ExprV::Neg(x) => ident_set(*x),
        ExprV::BitNot(x) => ident_set(*x),
        ExprV::Call(_, args) => ident_list(args, args.len() as int),
        ExprV::ListLiteral(args) => ident_list(args, args.len() as int),
        ExprV::ListIndex(l, i) => ident_set(*l) + ident_set(*i),
        ExprV::ListLen(x) => ident_set(*x),
        ExprV::FieldAccess(x, _) => ident_set(*x),
        ExprV::StructInstance(_, fields) => ident_pairs(fields, fields.len() as int),
        ExprV::ObjectLiteral(fields) => ident_pairs(fields, fields.len() as int),
        ExprV::PatternMatch { value, .. } => ident_set(*value),
        _ => Set::empty(),
    }
}

pub open spec fn ident_list(s: Seq<ExprV>, n: int) -> Set<Seq<char>>
    decreases s, n,
{
    if n <= 0 || n > s.len() {
        Set::empty()
    } else {
        ident_list(s, n - 1) + ident_set(s[n - 1])
    }
}

pub open spec fn ident_pairs(s: Seq<(Seq<char>, ExprV)>, n: int) -> Set<Seq<char>>
    decreases s, n,
{
    if n <= 0 || n > s.len() {
        Set::empty()
    } else {
        ident_pairs(s, n - 1) + ident_set(s[n - 1].1)
    }
}

/// The preconditions of two transactions mention a common variable.
pub open spec fn preconditions_overlap(t1: Transaction, t2: Transaction) -> bool {
    exists|x: Seq<char>| ident_set(t1.contract.pre_condition@).contains(x)
        && #[trigger] ident_set(t2.contract.pre_condition@).contains(x)
}

/// The finding for one conflicting access.
pub open spec fn conflict_finding(n1: Seq<char>, n2: Seq<char>, c: (Seq<char>, Seq<char>)) -> ProofErrorV {
    finding("P001"@, "ownership conflict in async transactions"@, false,
        "transactions '"@ + n1 + "' and '"@ + n2 + "' have conflicting access to '"@ + c.0 + "'"@,
        seq![
            "1. '"@ + n1 + "' is async reactive (can run concurrently)"@,
            "2. '"@ + n2 + "' is async reactive (can run concurrently)"@,
            "3. "@ + c.1,
            "4. Brief: when one writes, no other may read or write"@,
        ],
        seq!["make pre-conditions mutually exclusive"@])
}

/// The findings for two transactions that may run together: one per
/// conflicting access, where their preconditions share a variable.
pub open spec fn pair_findings(t1: Transaction, t2: Transaction) -> Seq<ProofErrorV> {
    if preconditions_overlap(t1, t2) {
        conflicts(t1, t2).map_values(|c: (Seq<char>, Seq<char>)| conflict_finding(t1.name@, t2.name@, c))
    } else {
        seq![]
    }
}

/// The async reactive transactions among the first `n` items, in order.
pub open spec fn async_txns(items: Seq<TopLevel>, n: int) -> Seq<Transaction>
    decreases n,
{
    if n <= 0 {
        seq![]
    } else {
        async_txns(items, n - 1) + match items[n - 1] {
            TopLevel::Transaction(t) => if t.is_async && t.is_reactive { seq![t] } else { seq![] },
            _ => seq![],
        }
    }
}

/// The findings for transaction `i` against transactions `i + 1` to `m - 1`.
pub open spec fn row_findings(ts: Seq<Transaction>, i: int, m: int) -> Seq<ProofErrorV>
    decreases m - i,
{
    if m <= i + 1 {
        seq![]
    } else {
        row_findings(ts, i, m - 1) + pair_findings(ts[i], ts[m - 1])
    }
}

/// The findings for the first `k` transactions, each against those after it.
pub open spec fn exclusion_findings(ts: Seq<Transaction>, k: int) -> Seq<ProofErrorV>
    decreases k,
{
    if k <= 0 {
        seq![]
    } else {
        exclusion_findings(ts, k - 1) + row_findings(ts, k - 1, ts.len() as int)
    }
}

/// The pairs of names as plain values.
pub open spec fn pair_strs(v: Seq<(String, String)>) -> Seq<(Seq<char>, Seq<char>)> {
    v.map_values(|p: (String, String)| (p.0@, p.1@))
}

pub open spec fn derefs(s: Seq<&Transaction>) -> Seq<Transaction> {
    s.map_values(|t: &Transaction| *t)
}

fn add_read_vars(e: &Expr, acc: &mut Vec<String>)
    requires
        no_dup_names(old(acc)@),
    ensures
        no_dup_names(final(acc)@),
        name_set(final(acc)@) == name_set(old(acc)@) + read_vars_expr(e@),
    decreases e,
{
    let ghost start = name_set(acc@);
    match e {
        Expr::Identifier(n) => add_name(acc, n),
        Expr::PriorState(n) => add_name(acc, n),
        Expr::Add(l, r) => { add_read_vars(&**l, acc); add_read_vars(&**r, acc); }
        Expr::Sub(l, r) => { add_read_vars(&**l, acc); add_read_vars(&**r, acc); }
        Expr::Mul(l, r) => { add_read_vars(&**l, acc); add_read_vars(&**r, acc); }
        Expr::Div(l, r) => { add_read_vars(&**l, acc); add_read_vars(&**r, acc); }
        Expr::Eq(l, r) => { add_read_vars(&**l, acc); add_read_vars(&**r, acc); }
        Expr::Ne(l, r) => { add_read_vars(&**l, acc); add_read_vars(&**r, acc); }
        Expr::Lt(l, r) => { add_read_vars(&**l, acc); add_read_vars(&**r, acc); }
        Expr::Le(l, r) => { add_read_vars(&**l, acc); add_read_vars(&**r, acc); }
        Expr::Gt(l, r) => { add_read_vars(&**l, acc); add_read_vars(&**r, acc); }
        Expr::Ge(l, r) => { add_read_vars(&**l, acc); add_read_vars(&**r, acc); }
        Expr::And(l, r) => { add_read_vars(&**l, acc); add_read_vars(&**r, acc); }
        Expr::Or(l, r) => { add_read_vars(&**l, acc); add_read_vars(&**r, acc); }
        Expr::Not(x) => add_read_vars(&**x, acc),
        _ => {}
    }
    proof { assert(name_set(acc@) =~= start + read_vars_expr(e@)); }
}

fn add_read_vars_stmts(ss: &Vec<Statement>, acc: &mut Vec<String>)
    requires
        no_dup_names(old(acc)@),
    ensures
        no_dup_names(final(acc)@),
        name_set(final(acc)@) == name_set(old(acc)@) + stmts_read_vars(ss@, ss@.len() as int),
    decreases ss,
{
    let ghost start = name_set(acc@);
    let mut i: usize = 0;
    assert(name_set(acc@) =~= start + stmts_read_vars(ss@, 0));
    while i < ss.len()
        invariant
            i <= ss@.len(),
            no_dup_names(acc@),
            name_set(acc@) == start + stmts_read_vars(ss@, i as int),
        decreases ss@.len() - i,
    {
        let ghost before = name_set(acc@);
        match &ss[i] {
            Statement::Assignment { lhs, expr, .. } => {
                add_read_vars(expr, acc);
                add_read_vars(lhs, acc);
            }
            Statement::Let { expr: Some(e), .. } => add_read_vars(e, acc),
            Statement::Expression(e) => add_read_vars(e, acc),
            Statement::Guarded { condition, statements: inner } => {
                add_read_vars(condition, acc);
                proof { assert(decreases_to!(*ss => ss@[i as int])); }
                add_read_vars_stmts(inner, acc);
            }
            Statement::Term(outs) => {
                let ghost b0 = name_set(acc@);
                let mut k: usize = 0;
                assert(name_set(acc@) =~= b0 + term_read_vars(outs@, 0));
                while k < outs.len()
                    invariant
                        k <= outs@.len(),
                        no_dup_names(acc@),
                        name_set(acc@) == b0 + term_read_vars(outs@, k as int),
                    decreases outs@.len() - k,
                {
                    match &outs[k] {
                        Some(e) => add_read_vars(e, acc),
                        None => {}
                    }
                    assert(name_set(acc@) =~= b0 + term_read_vars(outs@, k + 1));
                    k = k + 1;
                }
            }
            _ => {}
        }
        assert(name_set(acc@) =~= before + stmt_read_vars(ss@[i as int]));
        assert(name_set(acc@) =~= start + stmts_read_vars(ss@, i + 1));
        i = i + 1;
    }
}

fn add_write_list(ss: &Vec<Statement>, acc: &mut Vec<String>)
    ensures
        strs(final(acc)@) == strs(old(acc)@) + stmts_write_list(ss@, ss@.len() as int),
    decreases ss,
{
    let ghost start = strs(acc@);
    let mut i: usize = 0;
    assert(strs(acc@) =~= start + stmts_write_list(ss@, 0));
    while i < ss.len()
        invariant
            i <= ss@.len(),
            strs(acc@) == start + stmts_write_list(ss@, i as int),
        decreases ss@.len() - i,
    {
        let ghost before = strs(acc@);
        match &ss[i] {
            Statement::Assignment { lhs, .. } => {
                proof { reveal_with_fuel(crate::compiler::ast::expr_view, 2); }
                match lhs {
                    Expr::OwnedRef(n) => {
                        acc.push(n.clone());
                        assert(strs(acc@) =~= before + seq![n@]);
                    }
                    Expr::ListIndex(inner, _) => match &**inner {
                        Expr::OwnedRef(n) => {
                            acc.push(n.clone());
                            assert(strs(acc@) =~= before + seq![n@]);
                        }
                        _ => {
                            assert(strs(acc@) =~= before + Seq::<Seq<char>>::empty());
                        }
                    },
                    _ => {
                        assert(strs(acc@) =~= before + Seq::<Seq<char>>::empty());
                    }
                }
            }
            Statement::Guarded { statements: inner, .. } => {
                proof { assert(decreases_to!(*ss => ss@[i as int])); }
                add_write_list(inner, acc);
            }
            _ => {
                assert(strs(acc@) =~= before + Seq::<Seq<char>>::empty());
            }
        }
        assert(strs(acc@) =~= before + stmt_write_list(ss@[i as int]));
        assert(strs(acc@) =~= start + stmts_write_list(ss@, i + 1));
        i = i + 1;
    }
}

fn dedup_names(v: &Vec<String>) -> (r: Vec<String>)
    ensures
        strs(r@) == dedup(strs(v@)),
{
    let mut r: Vec<String> = Vec::new();
    let mut i: usize = 0;
    assert(strs(v@).subrange(0, 0) =~= Seq::<Seq<char>>::empty());
    while i < v.len()
        invariant
            i <= v@.len(),
            strs(r@) == dedup(strs(v@).subrange(0, i as int)),
        decreases v@.len() - i,
    {
        let ghost before = strs(r@);
        let ghost pre = strs(v@).subrange(0, i + 1);
        assert(pre.drop_last() =~= strs(v@).subrange(0, i as int));
        assert(pre.last() == v@[i as int]@);
        assert(name_set(r@) == strs(r@).to_set());
        if !contains_name(&r, v[i].as_str()) {
            let c = v[i].clone();
            r.push(c);
            assert(strs(r@) =~= before.push(c@));
        }
        i = i + 1;
    }
    assert(strs(v@).subrange(0, v@.len() as int) =~= strs(v@));
    r
}

fn pick_described(ws: &Vec<String>, keep: &Vec<String>, desc: &String, out: &mut Vec<(String, String)>)
    ensures
        pair_strs(final(out)@) == pair_strs(old(out)@) + described(pick(strs(ws@), name_set(keep@)), desc@),
{
    let ghost start = pair_strs(out@);
    let ghost s = strs(ws@);
    let ghost k = name_set(keep@);
    let mut i: usize = 0;
    assert(s.subrange(0, 0) =~= Seq::<Seq<char>>::empty());
    assert(pair_strs(out@) =~= start + described(pick(s.subrange(0, 0), k), desc@));
    while i < ws.len()
        invariant
            i <= ws@.len(),
            s == strs(ws@),
            k == name_set(keep@),
            pair_strs(out@) == start + described(pick(s.subrange(0, i as int), k), desc@),
        decreases ws@.len() - i,
    {
        let ghost before = pair_strs(out@);
        let ghost pre = s.subrange(0, i + 1);
        assert(pre.drop_last() =~= s.subrange(0, i as int));
        assert(pre.last() == ws@[i as int]@);
        if contains_name(keep, ws[i].as_str()) {
            let p = (ws[i].clone(), desc.clone());
            out.push(p);
            assert(pair_strs(out@) =~= before.push((ws@[i as int]@, desc@)));
            assert(described(pick(pre, k), desc@) =~= described(pick(s.subrange(0, i as int), k), desc@)
                + seq![(ws@[i as int]@, desc@)]);
        } else {
            assert(described(pick(pre, k), desc@) =~= described(pick(s.subrange(0, i as int), k), desc@));
        }
        i = i + 1;
    }
    assert(s.subrange(0, ws@.len() as int) =~= s);
}

fn txn_writes_exec(t: &Transaction) -> (r: Vec<String>)
    ensures
        strs(r@) == txn_writes(*t),
{
    let mut raw: Vec<String> = Vec::new();
    add_write_list(&t.body, &mut raw);
    assert(strs(raw@) =~= stmts_write_list(t.body@, t.body@.len() as int));
    dedup_names(&raw)
}

fn txn_reads_exec(t: &Transaction) -> (r: Vec<String>)
    ensures
        name_set(r@) == txn_reads(*t),
{
    let mut acc: Vec<String> = Vec::new();
    assert(name_set(acc@) =~= Set::<Seq<char>>::empty());
    add_read_vars_stmts(&t.body, &mut acc);
    assert(name_set(acc@) =~= txn_reads(*t));
    acc
}

fn text4(a: &str, b: &str, c: &str, d: &str) -> (s: String)
    ensures
        s@ == a@ + b@ + c@ + d@,
{
    let mut s = owned(a);
    s.append(b);
    s.append(c);
    s.append(d);
    s
}

fn conflicts_exec(t1: &Transaction, t2: &Transaction) -> (r: Vec<(String, String)>)
    ensures
        pair_strs(r@) == conflicts(*t1, *t2),
{
    let w1 = txn_writes_exec(t1);
    let w2 = txn_writes_exec(t2);
    let r1 = txn_reads_exec(t1);
    let r2 = txn_reads_exec(t2);
    let mut out: Vec<(String, String)> = Vec::new();
    let d1 = text4(t2.name.as_str(), " writes while ", t1.name.as_str(), " writes");
    let d2 = text4(t2.name.as_str(), " reads while ", t1.name.as_str(), " writes");
    let d3 = text4(t1.name.as_str(), " reads while ", t2.name.as_str(), " writes");
    assert(pair_strs(out@) =~= Seq::<(Seq<char>, Seq<char>)>::empty());
    assert(name_set(w2@) == strs(w2@).to_set());
    pick_described(&w1, &w2, &d1, &mut out);
    pick_described(&w1, &r2, &d2, &mut out);
    pick_described(&w2, &r1, &d3, &mut out);
    assert(pair_strs(out@) =~= conflicts(*t1, *t2));
    out
}

fn add_idents(e: &Expr, acc: &mut Vec<String>)
    requires
        no_dup_names(old(acc)@),
    ensures
        no_dup_names(final(acc)@),
        name_set(final(acc)@) == name_set(old(acc)@) + ident_set(e@),
    decreases e,
{
    let ghost start = name_set(acc@);
    match e {
        Expr::Identifier(n) => { add_name(acc, n); proof { assert(name_set(acc@) =~= start + ident_set(e@)); } }
        Expr::OwnedRef(n) => { add_name(acc, n); proof { assert(name_set(acc@) =~= start + ident_set(e@)); } }
        Expr::PriorState(n) => { add_name(acc, n); proof { assert(name_set(acc@) =~= start + ident_set(e@)); } }
        Expr::Add(l, r) => { add_idents(&**l, acc); add_idents(&**r, acc); proof { assert(name_set(acc@) =~= start + ident_set(e@)); } }
        Expr::Sub(l, r) => { add_idents(&**l, acc); add_idents(&**r, acc); proof { assert(name_set(acc@) =~= start + ident_set(e@)); } }
        Expr::Mul(l, r) => { add_idents(&**l, acc); add_idents(&**r, acc); proof { assert(name_set(acc@) =~= start + ident_set(e@)); } }
        Expr::Div(l, r) => { add_idents(&**l, acc); add_idents(&**r, acc); proof { assert(name_set(acc@) =~= start + ident_set(e@)); } }
        Expr::BitAnd(l, r) => { add_idents(&**l, acc); add_idents(&**r, acc); proof { assert(name_set(acc@) =~= start + ident_set(e@)); } }
        Expr::BitOr(l, r) => { add_idents(&**l, acc); add_idents(&**r, acc); proof { assert(name_set(acc@) =~= start + ident_set(e@)); } }
        Expr::BitXor(l, r) => { add_idents(&**l, acc); add_idents(&**r, acc); proof { assert(name_set(acc@) =~= start + ident_set(e@)); } }
        Expr::Shl(l, r) => { add_idents(&**l, acc); add_idents(&**r, acc); proof { assert(name_set(acc@) =~= start + ident_set(e@)); } }
        Expr::Shr(l, r) => { add_idents(&**l, acc); add_idents(&**r, acc); proof { assert(name_set(acc@) =~= start + ident_set(e@)); } }
        Expr::Eq(l, r) => { add_idents(&**l, acc); add_idents(&**r, acc); proof { assert(name_set(acc@) =~= start + ident_set(e@)); } }
        Expr::Ne(l, r) => { add_idents(&**l, acc); add_idents(&**r, acc); proof { assert(name_set(acc@) =~= start + ident_set(e@)); } }
        Expr::Lt(l, r) => { add_idents(&**l, acc); add_idents(&**r, acc); proof { assert(name_set(acc@) =~= start + ident_set(e@)); } }
        Expr::Le(l, r) => { add_idents(&**l, acc); add_idents(&**r, acc); proof { assert(name_set(acc@) =~= start + ident_set(e@)); } }
        Expr::Gt(l, r) => { add_idents(&**l, acc); add_idents(&**r, acc); proof { assert(name_set(acc@) =~= start + ident_set(e@)); } }
        Expr::Ge(l, r) => { add_idents(&**l, acc); add_idents(&**r, acc); proof { assert(name_set(acc@) =~= start + ident_set(e@)); } }
        Expr::Or(l, r) => { add_idents(&**l, acc); add_idents(&**r, acc); proof { assert(name_set(acc@) =~= start + ident_set(e@)); } }
        Expr::And(l, r) => { add_idents(&**l, acc); add_idents(&**r, acc); proof { assert(name_set(acc@) =~= start + ident_set(e@)); } }
        Expr::ListIndex(l, r) => { add_idents(&**l, acc); add_idents(&**r, acc); proof { assert(name_set(acc@) =~= start + ident_set(e@)); } }
        Expr::Not(x) => { add_idents(&**x, acc); proof { assert(name_set(acc@) =~= start + ident_set(e@)); } }
        Expr::Neg(x) => { add_idents(&**x, acc); proof { assert(name_set(acc@) =~= start + ident_set(e@)); } }
        Expr::BitNot(x) => { add_idents(&**x, acc); proof { assert(name_set(acc@) =~= start + ident_set(e@)); } }
        Expr::ListLen(x) => { add_idents(&**x, acc); proof { assert(name_set(acc@) =~= start + ident_set(e@)); } }
        Expr::FieldAccess(x, _) => { add_idents(&**x, acc); proof { assert(name_set(acc@) =~= start + ident_set(e@)); } }
        Expr::PatternMatch { value, .. } => { add_idents(&**value, acc); proof { assert(name_set(acc@) =~= start + ident_set(e@)); } }
        Expr::Call(_, args) => {
            proof { assert(decreases_to!(*e => (*e)->Call_1)); }
            add_idents_list(args, acc);
            proof { lemma_exprs_view(args@, args@.len() as int); }
            proof { assert(name_set(acc@) =~= start + ident_set(e@)); }
        }
        Expr::ListLiteral(args) => {
            proof { assert(decreases_to!(*e => (*e)->ListLiteral_0)); }
            add_idents_list(args, acc);
            proof { lemma_exprs_view(args@, args@.len() as int); }
            proof { assert(name_set(acc@) =~= start + ident_set(e@)); }
        }
        Expr::StructInstance(_, fields) => {
            proof { assert(decreases_to!(*e => (*e)->StructInstance_1)); }
            add_idents_pairs(fields, acc);
            proof { lemma_pairs_view(fields@, fields@.len() as int); }
            proof { assert(name_set(acc@) =~= start + ident_set(e@)); }
        }
        Expr::ObjectLiteral(fields) => {
            proof { assert(decreases_to!(*e => (*e)->ObjectLiteral_0)); }
            add_idents_pairs(fields, acc);
            proof { lemma_pairs_view(fields@, fields@.len() as int); }
            proof { assert(name_set(acc@) =~= start + ident_set(e@)); }
        }
        _ => { proof { assert(name_set(acc@) =~= start + ident_set(e@)); } }
    }
}

fn add_idents_list(args: &Vec<Expr>, acc: &mut Vec<String>)
    requires
        no_dup_names(old(acc)@),
    ensures
        no_dup_names(final(acc)@),
        name_set(final(acc)@) == name_set(old(acc)@) + ident_list(exprs_view(args@, args@.len() as int), args@.len() as int),
    decreases args,
{
    let ghost start = name_set(acc@);
    let ghost n = args@.len() as int;
    proof { lemma_exprs_view(args@, n); }
    let mut i: usize = 0;
    assert(name_set(acc@) =~= start + ident_list(exprs_view(args@, n), 0));
    while i < args.len()
        invariant
            i <= args@.len(),
            no_dup_names(acc@),
            n == args@.len(),
            name_set(acc@) == start + ident_list(exprs_view(args@, n), i as int),
            exprs_view(args@, n).len() == n,
            forall|j: int| 0 <= j < n ==> #[trigger] exprs_view(args@, n)[j] == expr_view(args@[j]),
        decreases args@.len() - i,
    {
        proof { assert(decreases_to!(*args => args[i as int])); }
        add_idents(&args[i], acc);
        proof {
            assert(exprs_view(args@, n)[i as int] == expr_view(args@[i as int]));
            assert(name_set(acc@) =~= start + ident_list(exprs_view(args@, n), i + 1));
        }
        i = i + 1;
    }
}

fn add_idents_pairs(fields: &Vec<(String, Expr)>, acc: &mut Vec<String>)
    requires
        no_dup_names(old(acc)@),
    ensures
        no_dup_names(final(acc)@),
        name_set(final(acc)@) == name_set(old(acc)@) + ident_pairs(pairs_view(fields@, fields@.len() as int), fields@.len() as int),
    decreases fields,
{
    let ghost start = name_set(acc@);
    let ghost n = fields@.len() as int;
    proof { lemma_pairs_view(fields@, n); }
    let mut i: usize = 0;
    assert(name_set(acc@) =~= start + ident_pairs(pairs_view(fields@, n), 0));
    while i < fields.len()
        invariant
            i <= fields@.len(),
            no_dup_names(acc@),
            n == fields@.len(),
            name_set(acc@) == start + ident_pairs(pairs_view(fields@, n), i as int),
            pairs_view(fields@, n).len() == n,
            forall|j: int| 0 <= j < n ==> #[trigger] pairs_view(fields@, n)[j] == (fields@[j].0@, expr_view(fields@[j].1)),
        decreases fields@.len() - i,
    {
        proof { assert(decreases_to!(*fields => fields[i as int])); }
        proof { assert(decreases_to!(fields[i as int] => fields[i as int].1)); }
        add_idents(&fields[i].1, acc);
        proof {
            assert(pairs_view(fields@, n)[i as int].1 == expr_view(fields@[i as int].1));
            assert(name_set(acc@) =~= start + ident_pairs(pairs_view(fields@, n), i + 1));
        }
        i = i + 1;
    }
}

fn overlap_exec(t1: &Transaction, t2: &Transaction) -> (b: bool)
    ensures
        b == preconditions_overlap(*t1, *t2),
{
    let mut a: Vec<String> = Vec::new();
    assert(name_set(a@) =~= Set::<Seq<char>>::empty());
    add_idents(&t1.contract.pre_condition, &mut a);
    let mut b: Vec<String> = Vec::new();
    assert(name_set(b@) =~= Set::<Seq<char>>::empty());
    add_idents(&t2.contract.pre_condition, &mut b);
    assert(name_set(a@) =~= ident_set(t1.contract.pre_condition@));
    assert(name_set(b@) =~= ident_set(t2.contract.pre_condition@));
    let mut i: usize = 0;
    while i < a.len()
        invariant
            i <= a@.len(),
            name_set(a@) == ident_set(t1.contract.pre_condition@),
            name_set(b@) == ident_set(t2.contract.pre_condition@),
            forall|j: int| 0 <= j < i ==> !name_set(b@).contains(#[trigger] a@[j]@),
        decreases a@.len() - i,
    {
        if contains_name(&b, a[i].as_str()) {
            assert(strs(a@)[i as int] == a@[i as int]@);
            assert(name_set(a@).contains(a@[i as int]@));
            assert(ident_set(t1.contract.pre_condition@).contains(a@[i as int]@));
            assert(ident_set(t2.contract.pre_condition@).contains(a@[i as int]@));
            return true;
        }
        i = i + 1;
    }
    assert forall|x: Seq<char>| ident_set(t1.contract.pre_condition@).contains(x)
        implies !#[trigger] ident_set(t2.contract.pre_condition@).contains(x) by {
        assert(strs(a@).contains(x));
        let k = choose|k: int| 0 <= k < strs(a@).len() && strs(a@)[k] == x;
        assert(a@[k]@ == x);
    }
    false
}

fn conflict_finding_exec(n1: &String, n2: &String, var: &String, desc: &String) -> (e: ProofError)
    ensures
        e@ == conflict_finding(n1@, n2@, (var@, desc@)),
{
    let mut explanation = owned("transactions '");
    explanation.append(n1.as_str());
    explanation.append("' and '");
    explanation.append(n2.as_str());
    explanation.append("' have conflicting access to '");
    explanation.append(var.as_str());
    explanation.append("'");
    let mut chain = two(text3("1. '", n1.as_str(), "' is async reactive (can run concurrently)"),
        text3("2. '", n2.as_str(), "' is async reactive (can run concurrently)"));
    let ghost c0 = strs(chain@);
    let mut s3 = owned("3. ");
    s3.append(desc.as_str());
    let s4 = owned("4. Brief: when one writes, no other may read or write");
    chain.push(s3);
    chain.push(s4);
    assert(strs(chain@) =~= c0.push(s3@).push(s4@));
    let mut hints: Vec<String> = Vec::new();
    let h = owned("make pre-conditions mutually exclusive");
    hints.push(h);
    assert(strs(hints@) =~= seq![h@]);
    assert(explanation@ =~= "transactions '"@ + n1@ + "' and '"@ + n2@ + "' have conflicting access to '"@ + var@ + "'"@);
    assert(strs(chain@) =~= seq![
        "1. '"@ + n1@ + "' is async reactive (can run concurrently)"@,
        "2. '"@ + n2@ + "' is async reactive (can run concurrently)"@,
        "3. "@ + desc@,
        "4. Brief: when one writes, no other may read or write"@,
    ]);
    let e = finding_exec("P001", "ownership conflict in async transactions", false, explanation, chain, hints);
    e
}

impl ProofEngine {
    fn add_pair_findings(&mut self, t1: &Transaction, t2: &Transaction)
        ensures
            final(self).findings() == old(self).findings() + pair_findings(*t1, *t2),
    {
        let ghost start = self.findings();
        let cs = conflicts_exec(t1, t2);
        if cs.len() > 0 && overlap_exec(t1, t2) {
            let ghost cv = pair_strs(cs@);
            let mut k: usize = 0;
            while k < cs.len()
                invariant
                    k <= cs@.len(),
                    cv == pair_strs(cs@),
                    cv == conflicts(*t1, *t2),
                    preconditions_overlap(*t1, *t2),
                    self.findings() == start + cv.subrange(0, k as int).map_values(
                        |c: (Seq<char>, Seq<char>)| conflict_finding(t1.name@, t2.name@, c)),
                decreases cs@.len() - k,
            {
                let e = conflict_finding_exec(&t1.name, &t2.name, &cs[k].0, &cs[k].1);
                let ghost before = self.findings();
                self.errors.push(e);
                assert(self.findings() =~= before.push(e@));
                assert(cv.subrange(0, k + 1) =~= cv.subrange(0, k as int).push(cv[k as int]));
                assert(cv.subrange(0, k + 1).map_values(|c: (Seq<char>, Seq<char>)| conflict_finding(t1.name@, t2.name@, c))
                    =~= cv.subrange(0, k as int).map_values(|c: (Seq<char>, Seq<char>)| conflict_finding(t1.name@, t2.name@, c))
                        .push(conflict_finding(t1.name@, t2.name@, cv[k as int])));
                k = k + 1;
            }
            assert(cv.subrange(0, cs@.len() as int) =~= cv);
        } else {
            assert(pair_findings(*t1, *t2) =~= Seq::<ProofErrorV>::empty());
            assert(self.findings() =~= start + Seq::<ProofErrorV>::empty());
        }
    }

    /// Reports each conflicting access between two async reactive
    /// transactions whose preconditions share a variable: a variable both
    /// write, or one writes and the other reads. Transactions are taken in
    /// program order, each against those after it; within a pair, the
    /// variables in the order of their first write.
    pub fn check_mutual_exclusion(&mut self, program: &Program)
        ensures
            final(self).findings() == old(self).findings() + exclusion_findings(
                async_txns(program.items@, program.items@.len() as int),
                async_txns(program.items@, program.items@.len() as int).len() as int),
    {
        let items = &program.items;
        let ghost start = self.findings();
        let mut ts: Vec<&Transaction> = Vec::new();
        let mut i: usize = 0;
        assert(derefs(ts@) =~= async_txns(items@, 0));
        while i < items.len()
            invariant
                i <= items@.len(),
                items@ == program.items@,
                derefs(ts@) == async_txns(items@, i as int),
            decreases items@.len() - i,
        {
            let ghost before = derefs(ts@);
            match &items[i] {
                TopLevel::Transaction(t) => {
                    if t.is_async && t.is_reactive {
                        ts.push(t);
                        assert(derefs(ts@) =~= before.push(*t));
                    }
                }
                _ => {}
            }
            assert(derefs(ts@) =~= async_txns(items@, i + 1));
            i = i + 1;
        }
        let ghost tv = derefs(ts@);
        let n = ts.len();
        let mut a: usize = 0;
        assert(self.findings() =~= start + exclusion_findings(tv, 0));
        while a < n
            invariant
                a <= n,
                n == ts@.len(),
                tv == derefs(ts@),
                self.findings() == start + exclusion_findings(tv, a as int),
            decreases n - a,
        {
            let ghost row_start = self.findings();
            let mut b: usize = a + 1;
            assert(row_findings(tv, a as int, b as int) =~= Seq::<ProofErrorV>::empty());
            while b < n
                invariant
                    a < b <= n,
                    n == ts@.len(),
                    tv == derefs(ts@),
                    self.findings() == row_start + row_findings(tv, a as int, b as int),
                decreases n - b,
            {
                let ghost before = self.findings();
                self.add_pair_findings(ts[a], ts[b]);
                assert(self.findings() =~= row_start + row_findings(tv, a as int, b + 1));
                b = b + 1;
            }
            assert(self.findings() =~= start + exclusion_findings(tv, a + 1));
            a = a + 1;
        }
    }
}


// ---------------------------------------------------------------------------
// Signature projections

/// The definition named `name` that stands last among the first `n` items:
/// a later definition of a name replaces an earlier one.
pub open spec fn last_definition(items: Seq<TopLevel>, name: Seq<char>, n: int) -> Option<Definition>
    decreases n,
{
    if n <= 0 {
        None
    } else {
        match items[n - 1] {
            TopLevel::Definition(d) => if d.name@ == name { Some(d) } else { last_definition(items, name, n - 1) },
            _ => last_definition(items, name, n - 1),
        }
    }
}

/// The finding for a signature whose projection from its definition is
/// invalid, with the reason `msg`.
pub open spec fn projection_finding(sig: Signature, src: Seq<char>, d: Definition, msg: Seq<char>) -> ProofErrorV {
    finding("B001"@, "invalid sig projection"@, false, "Sig '"@ + sig.name@ + "': "@ + msg,
        seq![
            "1. Signature '"@ + sig.name@ + "' projects from definition '"@ + src + "'"@,
            "2. Requested types: "@ + types_debug(requested(sig.result_type)),
        ] + match d.output_type {
            Some(o) => seq!["3. Available types from definition: "@ + types_debug(output_types(o))],
            None => seq![],
        },
        seq!["ensure all requested types are produced by the definition"@])
}

/// The finding, if any, for one signature: where it names a source
/// definition that the program has, the projection must check.
pub open spec fn sig_findings(items: Seq<TopLevel>, sig: Signature) -> Seq<ProofErrorV> {
    match sig.source {
        Some(src) => match last_definition(items, src@, items.len() as int) {
            Some(d) => match projection_check(sig, d) {
                Ok(()) => seq![],
                Err(msg) => seq![projection_finding(sig, src@, d, msg)],
            },
            None => seq![],
        },
        None => seq![],
    }
}

/// The projection findings of the signatures among the first `n` items.
pub open spec fn projection_findings(items: Seq<TopLevel>, n: int) -> Seq<ProofErrorV>
    decreases n,
{
    if n <= 0 {
        seq![]
    } else {
        projection_findings(items, n - 1) + match items[n - 1] {
            TopLevel::Signature(sig) => sig_findings(items, sig),
            _ => seq![],
        }
    }
}

fn find_definition<'a>(items: &'a Vec<TopLevel>, name: &String) -> (r: Option<&'a Definition>)
    ensures
        match r {
            Some(d) => last_definition(items@, name@, items@.len() as int) == Some(*d),
            None => last_definition(items@, name@, items@.len() as int) is None,
        },
{
    let mut found: Option<&'a Definition> = None;
    let mut i: usize = 0;
    while i < items.len()
        invariant
            i <= items@.len(),
            match found {
                Some(d) => last_definition(items@, name@, i as int) == Some(*d),
                None => last_definition(items@, name@, i as int) is None,
            },
        decreases items@.len() - i,
    {
        match &items[i] {
            TopLevel::Definition(d) => {
                if name_eq(&d.name, name) {
                    found = Some(d);
                }
            }
            _ => {}
        }
        i = i + 1;
    }
    found
}

fn projection_finding_exec(sig: &Signature, src: &String, d: &Definition, msg: String) -> (e: ProofError)
    ensures
        e@ == projection_finding(*sig, src@, *d, msg@),
{
    let mut explanation = owned("Sig '");
    explanation.append(sig.name.as_str());
    explanation.append("': ");
    explanation.append(msg.as_str());
    let s1 = text4("1. Signature '", sig.name.as_str(), "' projects from definition '", src.as_str());
    let mut s1 = s1;
    s1.append("'");
    let empty: Vec<Type> = Vec::new();
    let req: &Vec<Type> = match &sig.result_type {
        ResultType::Projection(ts) => ts,
        _ => &empty,
    };
    assert(type_list(req@) == requested(sig.result_type)) by {
        if !(sig.result_type is Projection) {
            assert(type_list(empty@) =~= Seq::<TypeV>::empty());
        }
    }
    let mut s2 = owned("2. Requested types: ");
    let rd = debug_types(req);
    s2.append(rd.as_str());
    let mut chain = two(s1, s2);
    let ghost c0 = strs(chain@);
    match &d.output_type {
        Some(o) => {
            let all = o.all_types();
            let mut s3 = owned("3. Available types from definition: ");
            let ad = debug_types(&all);
            s3.append(ad.as_str());
            chain.push(s3);
            assert(strs(chain@) =~= c0.push(s3@));
        }
        None => {}
    }
    let mut hints: Vec<String> = Vec::new();
    let h = owned("ensure all requested types are produced by the definition");
    hints.push(h);
    assert(strs(hints@) =~= seq![h@]);
    assert(explanation@ =~= "Sig '"@ + sig.name@ + "': "@ + msg@);
    assert(c0 =~= seq![
        "1. Signature '"@ + sig.name@ + "' projects from definition '"@ + src@ + "'"@,
        "2. Requested types: "@ + types_debug(requested(sig.result_type)),
    ]);
    assert(strs(chain@) =~= seq![
        "1. Signature '"@ + sig.name@ + "' projects from definition '"@ + src@ + "'"@,
        "2. Requested types: "@ + types_debug(requested(sig.result_type)),
    ] + match d.output_type {
        Some(o) => seq!["3. Available types from definition: "@ + types_debug(output_types(o))],
        None => Seq::<Seq<char>>::empty(),
    });
    finding_exec("B001", "invalid sig projection", false, explanation, chain, hints)
}

impl ProofEngine {
    /// Checks each signature that names a source definition against the
    /// last definition of that name (see `verify_sig_projection`), and
    /// reports each invalid projection.
    pub fn check_sig_projections(&mut self, program: &Program)
        ensures
            final(self).findings() == old(self).findings() + projection_findings(program.items@, program.items@.len() as int),
    {
        let items = &program.items;
        let ghost start = self.findings();
        let mut i: usize = 0;
        assert(self.findings() =~= start + projection_findings(items@, 0));
        while i < items.len()
            invariant
                i <= items@.len(),
                items@ == program.items@,
                self.findings() == start + projection_findings(items@, i as int),
            decreases items@.len() - i,
        {
            let ghost before = self.findings();
            match &items[i] {
                TopLevel::Signature(sig) => {
                    match &sig.source {
                        Some(src) => match find_definition(items, src) {
                            Some(d) => match verify_sig_projection(sig, d) {
                                Ok(()) => {
                                    assert(self.findings() =~= before + Seq::<ProofErrorV>::empty());
                                }
                                Err(msg) => {
                                    let e = projection_finding_exec(sig, src, d, msg);
                                    self.errors.push(e);
                                    assert(self.findings() =~= before + seq![e@]);
                                }
                            },
                            None => {
                                assert(self.findings() =~= before + Seq::<ProofErrorV>::empty());
                            }
                        },
                        None => {
                            assert(self.findings() =~= before + Seq::<ProofErrorV>::empty());
                        }
                    }
                }
                _ => {
                    assert(self.findings() =~= before + Seq::<ProofErrorV>::empty());
                }
            }
            assert(self.findings() =~= start + projection_findings(items@, i + 1));
            i = i + 1;
        }
    }
}


// ---------------------------------------------------------------------------
// Foreign calls in bodies

/// The calls of foreign functions (named in `names`) that an expression
/// makes, in order, each with the context "frgn call". Arguments of a call
/// are not searched.
pub open spec fn ffi_calls_expr(e: ExprV, names: Set<Seq<char>>) -> Seq<(Seq<char>, Seq<char>)>
    decreases e,
{
    match e {
        ExprV::Call(n, _) => if names.contains(n) { seq![(n, "frgn call"@)] } else { seq![] },
        ExprV::Add(l, r) => ffi_calls_expr(*l, names) + ffi_calls_expr(*r, names),
        ExprV::Sub(l, r) => ffi_calls_expr(*l, names) + ffi_calls_expr(*r, names),
        ExprV::Mul(l, r) => ffi_calls_expr(*l, names) + ffi_calls_expr(*r, names),
        ExprV::Div(l, r) => ffi_calls_expr(*l, names) + ffi_calls_expr(*r, names),
        ExprV::BitAnd(l, r) => ffi_calls_expr(*l, names) + ffi_calls_expr(*r, names),
        ExprV::BitOr(l, r) => ffi_calls_expr(*l, names) + ffi_calls_expr(*r, names),
        ExprV::BitXor(l, r) => ffi_calls_expr(*l, names) + ffi_calls_expr(*r, names),
        ExprV::Eq(l, r) => ffi_calls_expr(*l, names) + ffi_calls_expr(*r, names),
        ExprV::Ne(l, r) => ffi_calls_expr(*l, names) + ffi_calls_expr(*r, names),
        ExprV::Lt(l, r) => ffi_calls_expr(*l, names) + ffi_calls_expr(*r, names),
        ExprV::Le(l, r) => ffi_calls_expr(*l, names) + ffi_calls_expr(*r, names),
        ExprV::Gt(l, r) => ffi_calls_expr(*l, names) + ffi_calls_expr(*r, names),
        ExprV::Ge(l, r) => ffi_calls_expr(*l, names) + ffi_calls_expr(*r, names),
        ExprV::And(l, r) => ffi_calls_expr(*l, names) + ffi_calls_expr(*r, names),
        ExprV::Or(l, r) => ffi_calls_expr(*l, names) + ffi_calls_expr(*r, names),
        ExprV::ListIndex(l, r) => ffi_calls_expr(*l, names) + ffi_calls_expr(*r, names),
        ExprV::Not(x) => ffi_calls_expr(*x, names),
        ExprV::Neg(x) => ffi_calls_expr(*x, names),
        ExprV::BitNot(x) => ffi_calls_expr(*x, names),
        ExprV::FieldAccess(x, _) => ffi_calls_expr(*x, names),
        ExprV::ListLen(x) => ffi_calls_expr(*x, names),
        _ => seq![],
    }
}

/// The foreign calls of a statement: in a `let` value, in an assignment
/// (value, then target), in an expression statement, and inside guards.
pub open spec fn ffi_calls_stmt(s: Statement, names: Set<Seq<char>>) -> Seq<(Seq<char>, Seq<char>)>
    decreases s,
{
    match s {
        Statement::Let { expr: Some(e), .. } => ffi_calls_expr(e@, names),
        Statement::Assignment { lhs, expr, .. } => ffi_calls_expr(expr@, names) + ffi_calls_expr(lhs@, names),
        Statement::Expression(e) => ffi_calls_expr(e@, names),
        Statement::Guarded { statements, .. } => ffi_calls_stmts(statements@, names, statements@.len() as int),
        _ => seq![],
    }
}

/// The foreign calls of the first `n` statements.
pub open spec fn ffi_calls_stmts(ss: Seq<Statement>, names: Set<Seq<char>>, n: int) -> Seq<(Seq<char>, Seq<char>)>
    decreases ss, n,
{
    if n <= 0 || n > ss.len() {
        seq![]
    } else {
        ffi_calls_stmts(ss, names, n - 1) + ffi_calls_stmt(ss[n - 1], names)
    }
}

fn ffi_calls_in_expr(e: &Expr, names: &Vec<String>, calls: &mut Vec<(String, String)>)
    ensures
        pair_strs(final(calls)@) == pair_strs(old(calls)@) + ffi_calls_expr(e@, name_set(names@)),
    decreases e,
{
    let ghost start = pair_strs(calls@);
    let ghost ns = name_set(names@);
    match e {
        Expr::Call(n, _) => {
            if contains_name(names, n.as_str()) {
                calls.push((n.clone(), owned("frgn call")));
                assert(pair_strs(calls@) =~= start + ffi_calls_expr(e@, ns));
            } else {
                assert(pair_strs(calls@) =~= start + ffi_calls_expr(e@, ns));
            }
        }
        Expr::Add(l, r) | Expr::Sub(l, r) | Expr::Mul(l, r) | Expr::Div(l, r) | Expr::BitAnd(l, r)
        | Expr::BitOr(l, r) | Expr::BitXor(l, r) | Expr::Eq(l, r) | Expr::Ne(l, r) | Expr::Lt(l, r)
        | Expr::Le(l, r) | Expr::Gt(l, r) | Expr::Ge(l, r) | Expr::And(l, r) | Expr::Or(l, r)
        | Expr::ListIndex(l, r) => {
            ffi_calls_in_expr(&**l, names, calls);
            ffi_calls_in_expr(&**r, names, calls);
            assert(pair_strs(calls@) =~= start + ffi_calls_expr(e@, ns));
        }
        Expr::Not(x) | Expr::Neg(x) | Expr::BitNot(x) | Expr::ListLen(x) | Expr::FieldAccess(x, _) => {
            ffi_calls_in_expr(&**x, names, calls);
            assert(pair_strs(calls@) =~= start + ffi_calls_expr(e@, ns));
        }
        _ => {
            assert(pair_strs(calls@) =~= start + ffi_calls_expr(e@, ns));
        }
    }
}

/// The foreign calls (of functions named in `names`) that a body makes, in
/// order, each with the context "frgn call".
pub fn find_ffi_calls_in_body(body: &Vec<Statement>, names: &Vec<String>) -> (r: Vec<(String, String)>)
    ensures
        pair_strs(r@) == ffi_calls_stmts(body@, name_set(names@), body@.len() as int),
    decreases body,
{
    let ghost ns = name_set(names@);
    let mut calls: Vec<(String, String)> = Vec::new();
    let mut i: usize = 0;
    assert(pair_strs(calls@) =~= ffi_calls_stmts(body@, ns, 0));
    while i < body.len()
        invariant
            i <= body@.len(),
            ns == name_set(names@),
            pair_strs(calls@) == ffi_calls_stmts(body@, ns, i as int),
        decreases body@.len() - i,
    {
        let ghost before = pair_strs(calls@);
        match &body[i] {
            Statement::Let { expr: Some(e), .. } => ffi_calls_in_expr(e, names, &mut calls),
            Statement::Assignment { lhs, expr, .. } => {
                ffi_calls_in_expr(expr, names, &mut calls);
                ffi_calls_in_expr(lhs, names, &mut calls);
            }
            Statement::Expression(e) => ffi_calls_in_expr(e, names, &mut calls),
            Statement::Guarded { statements, .. } => {
                proof { assert(decreases_to!(*body => body@[i as int])); }
                let inner = find_ffi_calls_in_body(statements, names);
                let ghost b1 = pair_strs(calls@);
                let mut k: usize = 0;
                while k < inner.len()
                    invariant
                        k <= inner@.len(),
                        pair_strs(calls@) == b1 + pair_strs(inner@).subrange(0, k as int),
                    decreases inner@.len() - k,
                {
                    let p = (inner[k].0.clone(), inner[k].1.clone());
                    let ghost b2 = pair_strs(calls@);
                    calls.push(p);
                    assert(pair_strs(calls@) =~= b2.push(pair_strs(inner@)[k as int]));
                    assert(pair_strs(inner@).subrange(0, k + 1) =~= pair_strs(inner@).subrange(0, k as int).push(pair_strs(inner@)[k as int]));
                    k = k + 1;
                }
                assert(pair_strs(inner@).subrange(0, inner@.len() as int) =~= pair_strs(inner@));
            }
            _ => {}
        }
        assert(pair_strs(calls@) =~= before + ffi_calls_stmt(body@[i as int], ns));
        assert(pair_strs(calls@) =~= ffi_calls_stmts(body@, ns, i + 1));
        i = i + 1;
    }
    calls
}

impl ProofEngine {
    /// Gathers the foreign calls of each definition, where the program binds
    /// foreign functions. What is to be checked of their error handling is
    /// not decided yet: no finding comes of it.
    pub fn check_ffi_error_handling(&mut self, program: &Program)
        ensures
            *final(self) == *old(self),
            final(self).findings() == old(self).findings(),
    {
        let items = &program.items;
        let mut names: Vec<String> = Vec::new();
        let mut i: usize = 0;
        while i < items.len()
            decreases items@.len() - i,
        {
            match &items[i] {
                TopLevel::ForeignBinding { name, .. } => names.push(name.clone()),
                _ => {}
            }
            i = i + 1;
        }
        if names.len() == 0 {
            return;
        }
        let mut j: usize = 0;
        while j < items.len()
            decreases items@.len() - j,
        {
            match &items[j] {
                TopLevel::Definition(d) => {
                    let _calls = find_ffi_calls_in_body(&d.body, &names);
                }
                _ => {}
            }
            j = j + 1;
        }
    }
}


// ---------------------------------------------------------------------------
// `-> true` signatures: every exit path must answer true

/// The outputs of each `term` of a body, in order, guards searched.
pub open spec fn term_values(ss: Seq<Statement>, n: int) -> Seq<Seq<Option<Expr>>>
    decreases ss, n,
{
    if n <= 0 || n > ss.len() {
        seq![]
    } else {
        term_values(ss, n - 1) + match ss[n - 1] {
            Statement::Term(outs) => seq![outs@],
            Statement::Guarded { statements, .. } => term_values(statements@, statements@.len() as int),
            _ => seq![],
        }
    }
}

/// The Boolean literals among the outputs of one path, in order.
pub open spec fn bool_slots(vals: Seq<Option<Expr>>) -> Seq<bool>
    decreases vals.len(),
{
    if vals.len() == 0 {
        seq![]
    } else {
        bool_slots(vals.drop_last()) + match vals.last() {
            Some(Expr::Bool(b)) => seq![b],
            _ => seq![],
        }
    }
}

pub open spec fn false_slot(b: Seq<bool>) -> spec_fn(int) -> bool {
    |j: int| !b[j]
}

pub open spec fn path_has_false(paths: Seq<Seq<Option<Expr>>>) -> spec_fn(int) -> bool {
    |i: int| first_index(bool_slots(paths[i]).len(), false_slot(bool_slots(paths[i]))) is Some
}

/// The finding for exit path `i` whose Boolean output slot `j` is false.
pub open spec fn false_path_finding(sig_name: Seq<char>, defn_name: Seq<char>, i: nat, j: nat) -> ProofErrorV {
    ProofErrorV {
        examples: seq!["when this path executes, the contract is violated"@],
        ..finding("P006"@, "true assertion failed"@, false,
            "signature '"@ + sig_name + "' declares '-> true' but exit path "@ + decimal(i) + " returns false"@,
            seq![
                "1. '"@ + sig_name + "' declares it returns true (verified by compiler)"@,
                "2. definition '"@ + defn_name + "' has exit path "@ + decimal(i),
                "3. Bool output slot "@ + decimal(j) + " returns false"@,
            ],
            seq!["ensure all code paths return true for Bool outputs"@])
    }
}

/// The finding for a `-> true` signature over a definition: the first
/// exit path with a false Boolean output, at its first false slot; none
/// where every Boolean output is true.
pub open spec fn true_assertion_findings(sig_name: Seq<char>, d: Definition) -> Seq<ProofErrorV> {
    let paths = term_values(d.body@, d.body@.len() as int);
    match first_index(paths.len(), path_has_false(paths)) {
        Some(i) => {
            let b = bool_slots(paths[i]);
            match first_index(b.len(), false_slot(b)) {
                Some(j) => seq![false_path_finding(sig_name, d.name@, i as nat, j as nat)],
                None => seq![],
            }
        },
        None => seq![],
    }
}

/// The rows of outputs as plain sequences.
pub open spec fn opt_rows(v: Seq<&Vec<Option<Expr>>>) -> Seq<Seq<Option<Expr>>> {
    v.map_values(|r: &Vec<Option<Expr>>| r@)
}

fn collect_term_values<'a>(ss: &'a Vec<Statement>, out: &mut Vec<&'a Vec<Option<Expr>>>)
    ensures
        opt_rows(final(out)@) == opt_rows(old(out)@) + term_values(ss@, ss@.len() as int),
    decreases ss,
{
    let ghost start = opt_rows(out@);
    let mut i: usize = 0;
    assert(opt_rows(out@) =~= start + term_values(ss@, 0));
    while i < ss.len()
        invariant
            i <= ss@.len(),
            opt_rows(out@) == start + term_values(ss@, i as int),
        decreases ss@.len() - i,
    {
        let ghost before = opt_rows(out@);
        match &ss[i] {
            Statement::Term(outs) => {
                out.push(outs);
                assert(opt_rows(out@) =~= before.push(outs@));
            }
            Statement::Guarded { statements, .. } => {
                proof { assert(decreases_to!(*ss => ss@[i as int])); }
                collect_term_values(statements, out);
            }
            _ => {}
        }
        assert(opt_rows(out@) =~= start + term_values(ss@, i + 1));
        i = i + 1;
    }
}

/// The first false Boolean output slot of a path.
fn first_false_slot(vals: &Vec<Option<Expr>>) -> (r: Option<usize>)
    ensures
        match r {
            Some(j) => first_index(bool_slots(vals@).len(), false_slot(bool_slots(vals@))) == Some(j as int),
            None => first_index(bool_slots(vals@).len(), false_slot(bool_slots(vals@))) is None,
        },
{
    let ghost all = bool_slots(vals@);
    let mut j: usize = 0;
    let mut k: usize = 0;
    while k < vals.len()
        invariant
            k <= vals@.len(),
            all == bool_slots(vals@),
            j <= k,
            j == bool_slots(vals@.subrange(0, k as int)).len(),
            forall|m: int| 0 <= m < j ==> bool_slots(vals@.subrange(0, k as int))[m],
            forall|m: int| 0 <= m < j ==> bool_slots(vals@)[m] == bool_slots(vals@.subrange(0, k as int))[m],
            bool_slots(vals@.subrange(0, k as int)).len() <= bool_slots(vals@).len(),
        decreases vals@.len() - k,
    {
        proof { lemma_bool_slots_prefix(vals@, k + 1); }
        let ghost pre = vals@.subrange(0, k + 1);
        let ghost before = bool_slots(vals@.subrange(0, k as int));
        assert(pre.drop_last() =~= vals@.subrange(0, k as int));
        assert(pre.last() == vals@[k as int]);
        match &vals[k] {
            Some(Expr::Bool(b)) => {
                assert(bool_slots(pre) == before + seq![*b]);
                assert(bool_slots(pre)[j as int] == *b);
                assert(all[j as int] == *b);
                if !*b {
                    proof {
                        assert forall|m: int| 0 <= m < j implies !#[trigger] false_slot(all)(m) by {
                            assert(all[m] == before[m]);
                        }
                        lemma_first_index_is(all.len(), false_slot(all), j as int);
                    }
                    return Some(j);
                }
                j = j + 1;
                assert forall|m: int| 0 <= m < j implies #[trigger] bool_slots(pre)[m] by {
                    if m < j - 1 {
                        assert(bool_slots(pre)[m] == before[m]);
                    }
                }
            }
            _ => {
                assert(bool_slots(pre) == before + Seq::<bool>::empty());
                assert(bool_slots(pre) =~= before);
            }
        }
        k = k + 1;
    }
    assert(vals@.subrange(0, vals@.len() as int) =~= vals@);
    proof { lemma_first_index_none(all.len(), false_slot(all)); }
    None
}

/// The Boolean slots of a prefix are a prefix of the Boolean slots.
proof fn lemma_bool_slots_prefix(vals: Seq<Option<Expr>>, k: int)
    requires
        0 <= k <= vals.len(),
    ensures
        bool_slots(vals.subrange(0, k)).len() <= bool_slots(vals).len(),
        forall|m: int| 0 <= m < bool_slots(vals.subrange(0, k)).len() ==>
            #[trigger] bool_slots(vals)[m] == bool_slots(vals.subrange(0, k))[m],
    decreases vals.len() - k,
{
    if k < vals.len() {
        lemma_bool_slots_prefix(vals, k + 1);
        let a = vals.subrange(0, k + 1);
        assert(a.drop_last() =~= vals.subrange(0, k));
    } else {
        assert(vals.subrange(0, k) =~= vals);
    }
}

impl ProofEngine {
    /// Reports the first exit path of `defn` on which a Boolean output is
    /// false, for the signature `sig_name` that declares `-> true`.
    pub fn verify_true_assertion(&mut self, sig_name: &str, defn: &Definition)
        ensures
            final(self).findings() == old(self).findings() + true_assertion_findings(sig_name@, *defn),
    {
        let ghost start = self.findings();
        let mut paths: Vec<&Vec<Option<Expr>>> = Vec::new();
        assert(opt_rows(paths@) =~= Seq::<Seq<Option<Expr>>>::empty());
        collect_term_values(&defn.body, &mut paths);
        let ghost pv = opt_rows(paths@);
        assert(pv =~= term_values(defn.body@, defn.body@.len() as int));
        let mut i: usize = 0;
        while i < paths.len()
            invariant
                i <= paths@.len(),
                pv == opt_rows(paths@),
                pv == term_values(defn.body@, defn.body@.len() as int),
                pv.len() == paths@.len(),
                self.findings() == start,
                start == old(self).findings(),
                forall|m: int| 0 <= m < i ==> !#[trigger] path_has_false(pv)(m),
            decreases paths@.len() - i,
        {
            assert(pv[i as int] == paths@[i as int]@);
            match first_false_slot(paths[i]) {
                Some(j) => {
                    proof { lemma_first_index_is(pv.len(), path_has_false(pv), i as int); }
                    let mut explanation = owned("signature '");
                    explanation.append(sig_name);
                    explanation.append("' declares '-> true' but exit path ");
                    push_decimal(&mut explanation, i as u64);
                    explanation.append(" returns false");
                    let s1 = text3("1. '", sig_name, "' declares it returns true (verified by compiler)");
                    let mut s2 = text3("2. definition '", defn.name.as_str(), "' has exit path ");
                    push_decimal(&mut s2, i as u64);
                    let mut s3 = owned("3. Bool output slot ");
                    push_decimal(&mut s3, j as u64);
                    s3.append(" returns false");
                    let mut chain = two(s1, s2);
                    let ghost c0 = strs(chain@);
                    chain.push(s3);
                    assert(strs(chain@) =~= c0.push(s3@));
                    let mut hints: Vec<String> = Vec::new();
                    let h = owned("ensure all code paths return true for Bool outputs");
                    hints.push(h);
                    assert(strs(hints@) =~= seq![h@]);
                    let mut e = finding_exec("P006", "true assertion failed", false, explanation, chain, hints);
                    let mut ex: Vec<String> = Vec::new();
                    let x = owned("when this path executes, the contract is violated");
                    ex.push(x);
                    assert(strs(ex@) =~= seq![x@]);
                    e.examples = ex;
                    assert(explanation@ =~= "signature '"@ + sig_name@ + "' declares '-> true' but exit path "@
                        + decimal(i as nat) + " returns false"@);
                    assert(strs(chain@) =~= seq![
                        "1. '"@ + sig_name@ + "' declares it returns true (verified by compiler)"@,
                        "2. definition '"@ + defn.name@ + "' has exit path "@ + decimal(i as nat),
                        "3. Bool output slot "@ + decimal(j as nat) + " returns false"@,
                    ]);
                    assert(e@ == false_path_finding(sig_name@, defn.name@, i as nat, j as nat));
                    self.errors.push(e);
                    assert(self.findings() =~= start + true_assertion_findings(sig_name@, *defn));
                    return;
                }
                None => {}
            }
            i = i + 1;
        }
        proof { lemma_first_index_none(pv.len(), path_has_false(pv)); }
        assert(true_assertion_findings(sig_name@, *defn) =~= Seq::<ProofErrorV>::empty());
        assert(self.findings() =~= start + Seq::<ProofErrorV>::empty());
    }
}


// ---------------------------------------------------------------------------
// Symbolic execution of contracts

/// A value a variable takes during symbolic execution. A float is kept as
/// the bit pattern of its double.
pub enum SymbolicValue {
    Concrete(i64),
    ConcreteFloat(u64),
    Symbolic(String),
    Add(Box<SymbolicValue>, Box<SymbolicValue>),
    Sub(Box<SymbolicValue>, Box<SymbolicValue>),
    Mul(Box<SymbolicValue>, Box<SymbolicValue>),
    BitAnd(Box<SymbolicValue>, Box<SymbolicValue>),
    BitOr(Box<SymbolicValue>, Box<SymbolicValue>),
    BitXor(Box<SymbolicValue>, Box<SymbolicValue>),
    Unknown,
}

/// A symbolic value as a mathematical value.
pub enum SymV {
    Concrete(i64),
    ConcreteFloat(u64),
    Symbolic(Seq<char>),
    Add(Box<SymV>, Box<SymV>),
    Sub(Box<SymV>, Box<SymV>),
    Mul(Box<SymV>, Box<SymV>),
    BitAnd(Box<SymV>, Box<SymV>),
    BitOr(Box<SymV>, Box<SymV>),
    BitXor(Box<SymV>, Box<SymV>),
    Unknown,
}

pub open spec fn sym_view(v: SymbolicValue) -> SymV
    decreases v,
{
    match v {
        SymbolicValue::Concrete(n) => SymV::Concrete(n),
        SymbolicValue::ConcreteFloat(f) => SymV::ConcreteFloat(f),
        SymbolicValue::Symbolic(s) => SymV::Symbolic(s@),
        SymbolicValue::Add(a, b) => SymV::Add(Box::new(sym_view(*a)), Box::new(sym_view(*b))),
        SymbolicValue::Sub(a, b) => SymV::Sub(Box::new(sym_view(*a)), Box::new(sym_view(*b))),
        SymbolicValue::Mul(a, b) => SymV::Mul(Box::new(sym_view(*a)), Box::new(sym_view(*b))),
        SymbolicValue::BitAnd(a, b) => SymV::BitAnd(Box::new(sym_view(*a)), Box::new(sym_view(*b))),
        SymbolicValue::BitOr(a, b) => SymV::BitOr(Box::new(sym_view(*a)), Box::new(sym_view(*b))),
        SymbolicValue::BitXor(a, b) => SymV::BitXor(Box::new(sym_view(*a)), Box::new(sym_view(*b))),
        SymbolicValue::Unknown => SymV::Unknown,
    }
}

impl View for SymbolicValue {
    type V = SymV;

    open spec fn view(&self) -> SymV {
        sym_view(*self)
    }
}

impl SymbolicValue {
    /// A copy of the value.
    pub fn copy(&self) -> (r: Self)
        ensures
            r@ == self@,
        decreases self,
    {
        match self {
            SymbolicValue::Concrete(n) => SymbolicValue::Concrete(*n),
            SymbolicValue::ConcreteFloat(f) => SymbolicValue::ConcreteFloat(*f),
            SymbolicValue::Symbolic(s) => SymbolicValue::Symbolic(s.clone()),
            SymbolicValue::Add(a, b) => SymbolicValue::Add(Box::new((**a).copy()), Box::new((**b).copy())),
            SymbolicValue::Sub(a, b) => SymbolicValue::Sub(Box::new((**a).copy()), Box::new((**b).copy())),
            SymbolicValue::Mul(a, b) => SymbolicValue::Mul(Box::new((**a).copy()), Box::new((**b).copy())),
            SymbolicValue::BitAnd(a, b) => SymbolicValue::BitAnd(Box::new((**a).copy()), Box::new((**b).copy())),
            SymbolicValue::BitOr(a, b) => SymbolicValue::BitOr(Box::new((**a).copy()), Box::new((**b).copy())),
            SymbolicValue::BitXor(a, b) => SymbolicValue::BitXor(Box::new((**a).copy()), Box::new((**b).copy())),
            SymbolicValue::Unknown => SymbolicValue::Unknown,
        }
    }
}

/// A condition a path has taken: the guard, or its negation.
pub struct PathConstraint {
    pub condition: Expr,
    pub is_negated: bool,
}

/// The state of one path: the values of the variables and the conditions
/// taken so far.
pub struct SymbolicState {
    pub vars: Vec<(String, SymbolicValue)>,
    pub constraints: Vec<PathConstraint>,
}

/// A path state as a mathematical value.
pub struct EState {
    pub vars: Map<Seq<char>, SymV>,
    pub constraints: Seq<(ExprV, bool)>,
}

pub open spec fn var_values(v: Seq<(String, SymbolicValue)>) -> Map<Seq<char>, SymV> {
    table_map(v).map_values(|x: SymbolicValue| x@)
}

pub open spec fn constraint_views(c: Seq<PathConstraint>) -> Seq<(ExprV, bool)> {
    c.map_values(|p: PathConstraint| (p.condition@, p.is_negated))
}

impl View for SymbolicState {
    type V = EState;

    open spec fn view(&self) -> EState {
        EState { vars: var_values(self.vars@), constraints: constraint_views(self.constraints@) }
    }
}

/// The state with one more variable value.
pub open spec fn assigned(st: EState, name: Seq<char>, v: SymV) -> EState {
    EState { vars: st.vars.insert(name, v), ..st }
}

/// The state with one more condition.
pub open spec fn constrained(st: EState, c: ExprV, negated: bool) -> EState {
    EState { constraints: st.constraints.push((c, negated)), ..st }
}

impl SymbolicState {
    /// A state with no variables and no conditions.
    pub fn new() -> (s: Self)
        ensures
            s@.vars == Map::<Seq<char>, SymV>::empty(),
            s@.constraints == Seq::<(ExprV, bool)>::empty(),
    {
        let s = SymbolicState { vars: Vec::new(), constraints: Vec::new() };
        assert(var_values(s.vars@) =~= Map::<Seq<char>, SymV>::empty());
        assert(constraint_views(s.constraints@) =~= Seq::<(ExprV, bool)>::empty());
        s
    }

    /// A copy of the state.
    pub fn copy(&self) -> (r: Self)
        ensures
            r@ == self@,
    {
        let mut vars: Vec<(String, SymbolicValue)> = Vec::new();
        let mut i: usize = 0;
        while i < self.vars.len()
            invariant
                i <= self.vars@.len(),
                vars@.len() == i,
                forall|k: int| 0 <= k < i ==> #[trigger] vars@[k].0@ == self.vars@[k].0@,
                forall|k: int| 0 <= k < i ==> #[trigger] vars@[k].1@ == self.vars@[k].1@,
            decreases self.vars@.len() - i,
        {
            vars.push((self.vars[i].0.clone(), self.vars[i].1.copy()));
            i = i + 1;
        }
        let mut cs: Vec<PathConstraint> = Vec::new();
        let mut j: usize = 0;
        while j < self.constraints.len()
            invariant
                j <= self.constraints@.len(),
                cs@.len() == j,
                forall|k: int| 0 <= k < j ==> #[trigger] cs@[k].condition@ == self.constraints@[k].condition@,
                forall|k: int| 0 <= k < j ==> #[trigger] cs@[k].is_negated == self.constraints@[k].is_negated,
            decreases self.constraints@.len() - j,
        {
            cs.push(PathConstraint { condition: self.constraints[j].condition.copy(), is_negated: self.constraints[j].is_negated });
            j = j + 1;
        }
        let r = SymbolicState { vars, constraints: cs };
        assert(keys_of(r.vars@) =~= keys_of(self.vars@));
        proof { lemma_var_values_ext(r.vars@, self.vars@); }
        assert(constraint_views(r.constraints@) =~= constraint_views(self.constraints@));
        r
    }

    /// Adds the condition `condition` (negated or not) to the path.
    pub fn with_constraint(self, condition: Expr, is_negated: bool) -> (r: Self)
        ensures
            r@ == constrained(self@, condition@, is_negated),
    {
        let mut s = self;
        let ghost before = constraint_views(s.constraints@);
        s.constraints.push(PathConstraint { condition, is_negated });
        assert(constraint_views(s.constraints@) =~= before.push((condition@, is_negated)));
        s
    }

    /// Sets the value of a variable.
    pub fn with_assignment(&mut self, name: &String, value: SymbolicValue)
        ensures
            final(self)@ == assigned(old(self)@, name@, value@),
    {
        let ghost v0 = self.vars@;
        proof { lemma_table_insert(v0, *name, value); }
        match find_key(&self.vars, name.as_str()) {
            Some(i) => {
                self.vars.set(i, (name.clone(), value));
            }
            None => {
                self.vars.push((name.clone(), value));
            }
        }
        proof { lemma_table_insert(v0, *name, value); }
        assert(keys_of(self.vars@) =~= keys_of(table_insert(v0, *name, value)));
        proof { lemma_table_map_ext(self.vars@, table_insert(v0, *name, value)); }
        assert(var_values(self.vars@) =~= var_values(v0).insert(name@, value@));
    }

    /// The value of a variable, where it has one.
    pub fn get(&self, name: &String) -> (r: Option<&SymbolicValue>)
        ensures
            match r {
                Some(v) => self@.vars.contains_key(name@) && self@.vars[name@] == v@,
                None => !self@.vars.contains_key(name@),
            },
    {
        match find_key(&self.vars, name.as_str()) {
            Some(i) => Some(&self.vars[i].1),
            None => None,
        }
    }
}


proof fn lemma_table_map_ext<V>(a: Seq<(String, V)>, b: Seq<(String, V)>)
    requires
        keys_of(a) == keys_of(b),
        a.len() == b.len(),
        forall|i: int| 0 <= i < a.len() ==> #[trigger] a[i].1 == b[i].1,
    ensures
        table_map(a) == table_map(b),
{
    assert forall|k: Seq<char>| #[trigger] table_map(a).contains_key(k) implies table_map(a)[k] == table_map(b)[k] by {
        crate::table::lemma_key_index(keys_of(a), k);
    }
    assert(table_map(a) =~= table_map(b));
}

proof fn lemma_var_values_ext(a: Seq<(String, SymbolicValue)>, b: Seq<(String, SymbolicValue)>)
    requires
        keys_of(a) == keys_of(b),
        a.len() == b.len(),
        forall|i: int| 0 <= i < a.len() ==> #[trigger] a[i].1@ == b[i].1@,
    ensures
        var_values(a) == var_values(b),
{
    assert forall|k: Seq<char>| #[trigger] var_values(a).contains_key(k) implies var_values(a)[k] == var_values(b)[k] by {
        crate::table::lemma_key_index(keys_of(a), k);
        let i = crate::table::key_index(keys_of(a), k)->0;
        assert(a[i].1@ == b[i].1@);
    }
    assert(var_values(a) =~= var_values(b));
}

/// The value of an expression over the current variable values: literals
/// are concrete (a Boolean as 1 or 0), a variable without a value stands
/// for itself, `@x` for the prior value of `x`, and arithmetic and bitwise
/// operators build terms; anything else is unknown.
pub open spec fn from_expr_spec(e: ExprV, vars: Map<Seq<char>, SymV>) -> SymV
    decreases e,
{
    match e {
        ExprV::Integer(n) => SymV::Concrete(n),
        ExprV::Float(f) => SymV::ConcreteFloat(f),
        ExprV::Bool(b) => SymV::Concrete(if b { 1 } else { 0 }),
        ExprV::Identifier(n) => if vars.contains_key(n) { vars[n] } else { SymV::Symbolic(n) },
        ExprV::PriorState(n) => SymV::Symbolic(seq!['@'] + n),
        ExprV::Add(l, r) => SymV::Add(Box::new(from_expr_spec(*l, vars)), Box::new(from_expr_spec(*r, vars))),
        ExprV::Sub(l, r) => SymV::Sub(Box::new(from_expr_spec(*l, vars)), Box::new(from_expr_spec(*r, vars))),
        ExprV::Mul(l, r) => SymV::Mul(Box::new(from_expr_spec(*l, vars)), Box::new(from_expr_spec(*r, vars))),
        ExprV::BitAnd(l, r) => SymV::BitAnd(Box::new(from_expr_spec(*l, vars)), Box::new(from_expr_spec(*r, vars))),
        ExprV::BitOr(l, r) => SymV::BitOr(Box::new(from_expr_spec(*l, vars)), Box::new(from_expr_spec(*r, vars))),
        ExprV::BitXor(l, r) => SymV::BitXor(Box::new(from_expr_spec(*l, vars)), Box::new(from_expr_spec(*r, vars))),
        _ => SymV::Unknown,
    }
}

impl SymbolicValue {
    /// The symbolic value of an expression in a state (see `from_expr_spec`).
    pub fn from_expr(expr: &Expr, state: &SymbolicState) -> (r: SymbolicValue)
        ensures
            r@ == from_expr_spec(expr@, state@.vars),
        decreases expr,
    {
        match expr {
            Expr::Integer(n) => SymbolicValue::Concrete(*n),
            Expr::Float(f) => SymbolicValue::ConcreteFloat(*f),
            Expr::Bool(b) => SymbolicValue::Concrete(if *b { 1 } else { 0 }),
            Expr::Identifier(name) => match state.get(name) {
                Some(v) => v.copy(),
                None => SymbolicValue::Symbolic(name.clone()),
            },
            Expr::PriorState(name) => {
                let mut s = String::new();
                push_char(&mut s, '@');
                s.append(name.as_str());
                SymbolicValue::Symbolic(s)
            }
            Expr::Add(l, r) => SymbolicValue::Add(Box::new(Self::from_expr(&**l, state)), Box::new(Self::from_expr(&**r, state))),
            Expr::Sub(l, r) => SymbolicValue::Sub(Box::new(Self::from_expr(&**l, state)), Box::new(Self::from_expr(&**r, state))),
            Expr::Mul(l, r) => SymbolicValue::Mul(Box::new(Self::from_expr(&**l, state)), Box::new(Self::from_expr(&**r, state))),
            Expr::BitAnd(l, r) => SymbolicValue::BitAnd(Box::new(Self::from_expr(&**l, state)), Box::new(Self::from_expr(&**r, state))),
            Expr::BitOr(l, r) => SymbolicValue::BitOr(Box::new(Self::from_expr(&**l, state)), Box::new(Self::from_expr(&**r, state))),
            Expr::BitXor(l, r) => SymbolicValue::BitXor(Box::new(Self::from_expr(&**l, state)), Box::new(Self::from_expr(&**r, state))),
            _ => SymbolicValue::Unknown,
        }
    }
}

/// The starting values: each variable the precondition reads stands for
/// itself.
pub open spec fn initial_vars(pre: ExprV) -> Map<Seq<char>, SymV> {
    Map::new(|k: Seq<char>| read_vars_expr(pre).contains(k), |k: Seq<char>| SymV::Symbolic(k))
}

/// The values with each of the first `n` parameters standing for itself.
pub open spec fn with_params(vars: Map<Seq<char>, SymV>, ps: Seq<(String, Type)>, n: int) -> Map<Seq<char>, SymV>
    decreases n,
{
    if n <= 0 || n > ps.len() {
        vars
    } else {
        with_params(vars, ps, n - 1).insert(ps[n - 1].0@, SymV::Symbolic(ps[n - 1].0@))
    }
}

fn init_state_from_precondition(pre: &Expr) -> (s: SymbolicState)
    ensures
        s@.vars == initial_vars(pre@),
        s@.constraints == Seq::<(ExprV, bool)>::empty(),
{
    let mut names: Vec<String> = Vec::new();
    assert(name_set(names@) =~= Set::<Seq<char>>::empty());
    add_read_vars(pre, &mut names);
    let mut s = SymbolicState::new();
    let mut i: usize = 0;
    assert(s@.vars =~= Map::new(|k: Seq<char>| name_set(names@.subrange(0, 0)).contains(k), |k: Seq<char>| SymV::Symbolic(k)));
    while i < names.len()
        invariant
            i <= names@.len(),
            name_set(names@) == read_vars_expr(pre@),
            s@.constraints == Seq::<(ExprV, bool)>::empty(),
            s@.vars == Map::new(|k: Seq<char>| name_set(names@.subrange(0, i as int)).contains(k), |k: Seq<char>| SymV::Symbolic(k)),
        decreases names@.len() - i,
    {
        let n = names[i].clone();
        let v = SymbolicValue::Symbolic(names[i].clone());
        s.with_assignment(&n, v);
        assert(names@.subrange(0, i + 1).map_values(|x: String| x@) =~= names@.subrange(0, i as int).map_values(|x: String| x@).push(n@));
        assert(names@.subrange(0, i + 1) =~= names@.subrange(0, i as int).push(names@[i as int]));
        proof { lemma_name_set_push(names@.subrange(0, i as int), names@[i as int]); }
        assert(s@.vars =~= Map::new(|k: Seq<char>| name_set(names@.subrange(0, i + 1)).contains(k), |k: Seq<char>| SymV::Symbolic(k)));
        i = i + 1;
    }
    assert(names@.subrange(0, names@.len() as int) =~= names@);
    assert(s@.vars =~= initial_vars(pre@));
    s
}

fn add_params(s: &mut SymbolicState, ps: &Vec<(String, Type)>)
    ensures
        final(s)@ == (EState { vars: with_params(old(s)@.vars, ps@, ps@.len() as int), ..old(s)@ }),
{
    let ghost start = s@;
    let mut i: usize = 0;
    while i < ps.len()
        invariant
            i <= ps@.len(),
            s@ == (EState { vars: with_params(start.vars, ps@, i as int), ..start }),
        decreases ps@.len() - i,
    {
        let n = ps[i].0.clone();
        let v = SymbolicValue::Symbolic(ps[i].0.clone());
        s.with_assignment(&n, v);
        i = i + 1;
    }
}

/// The variable an assignment target sets: `x`, `&x`, `x[i]` or `&x[i]`.
pub open spec fn assign_target(lhs: ExprV) -> Option<Seq<char>> {
    match lhs {
        ExprV::Identifier(n) => Some(n),
        ExprV::OwnedRef(n) => Some(n),
        ExprV::ListIndex(inner, _) => match *inner {
            ExprV::Identifier(n) => Some(n),
            ExprV::OwnedRef(n) => Some(n),
            _ => None,
        },
        _ => None,
    }
}

/// The end states of the paths through `body` from statement `i` on: an
/// assignment or `let` with a value sets a variable; a guard splits into
/// its body under the condition and, under its negation, the statement
/// list without its first statement; `term` and `escape` end a path; a
/// list that ends without them gives no path.
pub open spec fn paths_from(body: Seq<Statement>, i: int, st: EState) -> Seq<EState>
    decreases body, body.len() - i,
{
    if i < 0 || i >= body.len() {
        seq![]
    } else {
        match body[i] {
            Statement::Assignment { lhs, expr, .. } => paths_from(body, i + 1, match assign_target(lhs@) {
                Some(n) => assigned(st, n, from_expr_spec(expr@, st.vars)),
                None => st,
            }),
            Statement::Let { name, expr: Some(e), .. } => paths_from(body, i + 1, assigned(st, name@, from_expr_spec(e@, st.vars))),
            Statement::Guarded { condition, statements } => {
                proof {
                    assert(decreases_to!(body => body[i]));
                }
                paths_from(statements@, 0, constrained(st, condition@, false))
                    + paths_from(body.subrange(1, body.len() as int), 0, constrained(st, condition@, true))
            },
            Statement::Term(_) => seq![st],
            Statement::Escape(_) => seq![st],
            _ => paths_from(body, i + 1, st),
        }
    }
}

pub open spec fn state_views(v: Seq<SymbolicState>) -> Seq<EState> {
    v.map_values(|s: SymbolicState| s@)
}

fn enumerate_paths_recursive(body: &[Statement], state: SymbolicState, paths: &mut Vec<SymbolicState>)
    ensures
        state_views(final(paths)@) == state_views(old(paths)@) + paths_from(body@, 0, state@),
    decreases body@,
{
    let ghost start = state_views(paths@);
    let ghost b = body@;
    let mut current = state;
    let mut i: usize = 0;
    while i < body.len()
        invariant
            i <= body@.len(),
            b == body@,
            state_views(paths@) == start,
            start == state_views(old(paths)@),
            paths_from(b, 0, state@) == paths_from(b, i as int, current@),
        decreases body@.len() - i,
    {
        match &body[i] {
            Statement::Assignment { lhs, expr, .. } => {
                let value = SymbolicValue::from_expr(expr, &current);
                proof { reveal_with_fuel(crate::compiler::ast::expr_view, 2); }
                match lhs {
                    Expr::Identifier(n) | Expr::OwnedRef(n) => current.with_assignment(n, value),
                    Expr::ListIndex(inner, _) => match &**inner {
                        Expr::Identifier(n) | Expr::OwnedRef(n) => current.with_assignment(n, value),
                        _ => {}
                    },
                    _ => {}
                }
            }
            Statement::Let { name, expr: Some(e), .. } => {
                let value = SymbolicValue::from_expr(e, &current);
                current.with_assignment(name, value);
            }
            Statement::Guarded { condition, statements } => {
                let true_state = current.copy().with_constraint(condition.copy(), false);
                let false_state = current.with_constraint(condition.copy(), true);
                proof {
                    assert(decreases_to!(body@ => body@[i as int]));
                }
                enumerate_paths_recursive(statements.as_slice(), true_state, paths);
                let rest = &body[1..body.len()];
                assert(rest@ =~= b.subrange(1, b.len() as int));
                enumerate_paths_recursive(rest, false_state, paths);
                return;
            }
            Statement::Term(_) | Statement::Escape(_) => {
                let ghost before = state_views(paths@);
                paths.push(current);
                assert(state_views(paths@) =~= before.push(current@));
                return;
            }
            _ => {}
        }
        i = i + 1;
    }
}

/// The end states of the paths through a body (see `paths_from`).
fn enumerate_paths(body: &Vec<Statement>, state: SymbolicState) -> (r: Vec<SymbolicState>)
    ensures
        state_views(r@) == paths_from(body@, 0, state@),
{
    let mut paths: Vec<SymbolicState> = Vec::new();
    assert(state_views(paths@) =~= Seq::<EState>::empty());
    enumerate_paths_recursive(body.as_slice(), state, &mut paths);
    paths
}


proof fn lemma_name_set_push(v: Seq<String>, x: String)
    ensures
        name_set(v.push(x)) == name_set(v).insert(x@),
{
    let a = v.push(x).map_values(|s: String| s@);
    let b = v.map_values(|s: String| s@);
    assert(a =~= b.push(x@));
    assert forall|y: Seq<char>| #[trigger] name_set(v.push(x)).contains(y) <==> name_set(v).insert(x@).contains(y) by {
        if b.contains(y) {
            let k = choose|k: int| 0 <= k < b.len() && b[k] == y;
            assert(a[k] == y);
        }
        if a.contains(y) {
            let k = choose|k: int| 0 <= k < a.len() && a[k] == y;
            if k < b.len() {
                assert(b[k] == y);
            }
        }
        if y == x@ {
            assert(a[b.len() as int] == y);
        }
    }
    assert(name_set(v.push(x)) =~= name_set(v).insert(x@));
}

// ---------------------------------------------------------------------------
// Truth, numbers and text of contract expressions

/// A double's bit pattern is not ±0: the double compares unequal to zero.
pub open spec fn float_nonzero(bits: u64) -> bool {
    bits & 0x7fff_ffff_ffff_ffffu64 != 0
}

/// The text written for a float literal: the first text the table gives for
/// its bit pattern, or `<float>` where it gives none.
pub open spec fn float_text(ft: Seq<(u64, Seq<char>)>, bits: u64) -> Seq<char>
    decreases ft.len(),
{
    if ft.len() == 0 {
        "<float>"@
    } else if ft[0].0 == bits {
        ft[0].1
    } else {
        float_text(ft.subrange(1, ft.len() as int), bits)
    }
}

/// How a contract expression is written in findings: literals, names and
/// `@` names, binary operators between spaces, `!` and `-` in front, calls
/// with their arguments; `<expr>` for anything else.
pub open spec fn expr_text(e: ExprV, ft: Seq<(u64, Seq<char>)>) -> Seq<char>
    decreases e,
{
    match e {
        ExprV::Integer(n) => decimal_signed(n as int),
        ExprV::Float(f) => float_text(ft, f),
        ExprV::String(s) => seq!['"'] + s + seq!['"'],
        ExprV::Bool(b) => if b { "true"@ } else { "false"@ },
        ExprV::Identifier(n) => n,
        ExprV::PriorState(n) => seq!['@'] + n,
        ExprV::Add(l, r) => expr_text(*l, ft) + " + "@ + expr_text(*r, ft),
        ExprV::Sub(l, r) => expr_text(*l, ft) + " - "@ + expr_text(*r, ft),
        ExprV::Mul(l, r) => expr_text(*l, ft) + " * "@ + expr_text(*r, ft),
        ExprV::Div(l, r) => expr_text(*l, ft) + " / "@ + expr_text(*r, ft),
        ExprV::Eq(l, r) => expr_text(*l, ft) + " == "@ + expr_text(*r, ft),
        ExprV::Ne(l, r) => expr_text(*l, ft) + " != "@ + expr_text(*r, ft),
        ExprV::Lt(l, r) => expr_text(*l, ft) + " < "@ + expr_text(*r, ft),
        ExprV::Le(l, r) => expr_text(*l, ft) + " <= "@ + expr_text(*r, ft),
        ExprV::Gt(l, r) => expr_text(*l, ft) + " > "@ + expr_text(*r, ft),
        ExprV::Ge(l, r) => expr_text(*l, ft) + " >= "@ + expr_text(*r, ft),
        ExprV::And(l, r) => expr_text(*l, ft) + " && "@ + expr_text(*r, ft),
        ExprV::Or(l, r) => expr_text(*l, ft) + " || "@ + expr_text(*r, ft),
        ExprV::Not(x) => seq!['!'] + expr_text(*x, ft),
        ExprV::Neg(x) => seq!['-'] + expr_text(*x, ft),
        ExprV::Call(name, args) => name + seq!['('] + args_text(args, args.len() as int, ft) + seq![')'],
        _ => "<expr>"@,
    }
}

/// The first `n` arguments written and separated by `, `.
pub open spec fn args_text(s: Seq<ExprV>, n: int, ft: Seq<(u64, Seq<char>)>) -> Seq<char>
    decreases s, n,
{
    if n <= 0 || n > s.len() {
        seq![]
    } else if n == 1 {
        expr_text(s[0], ft)
    } else {
        args_text(s, n - 1, ft) + ", "@ + expr_text(s[n - 1], ft)
    }
}

/// The integer value of an expression, where it has one: integer literals,
/// variables with a concrete value, and `+ - *` of such (wrapping around on
/// overflow, as an optimized build of the compiler computes).
pub open spec fn eval_num(e: ExprV, vars: Map<Seq<char>, SymV>) -> Option<i64>
    decreases e,
{
    match e {
        ExprV::Integer(n) => Some(n),
        ExprV::Identifier(n) => if vars.contains_key(n) {
            match vars[n] {
                SymV::Concrete(k) => Some(k),
                _ => None,
            }
        } else {
            None
        },
        ExprV::Add(l, r) => match (eval_num(*l, vars), eval_num(*r, vars)) {
            (Some(a), Some(b)) => Some(a.wrapping_add(b)),
            _ => None,
        },
        ExprV::Sub(l, r) => match (eval_num(*l, vars), eval_num(*r, vars)) {
            (Some(a), Some(b)) => Some(a.wrapping_sub(b)),
            _ => None,
        },
        ExprV::Mul(l, r) => match (eval_num(*l, vars), eval_num(*r, vars)) {
            (Some(a), Some(b)) => Some(a.wrapping_mul(b)),
            _ => None,
        },
        _ => None,
    }
}

/// `l == r` in a state: equal numbers where both have one, else equal texts.
pub open spec fn eq_eval(l: ExprV, r: ExprV, st: EState, ft: Seq<(u64, Seq<char>)>) -> bool {
    match (eval_num(l, st.vars), eval_num(r, st.vars)) {
        (Some(a), Some(b)) => a == b,
        _ => expr_text(l, ft) == expr_text(r, ft),
    }
}

/// A comparison of two expressions, true where either has no number; `op`
/// is 0 for `<`, 1 for `<=`, 2 for `>`, 3 for `>=`.
pub open spec fn compare_eval(l: ExprV, r: ExprV, st: EState, op: int) -> bool {
    match (eval_num(l, st.vars), eval_num(r, st.vars)) {
        (Some(a), Some(b)) => if op == 0 { a < b } else if op == 1 { a <= b } else if op == 2 { a > b } else { a >= b },
        _ => true,
    }
}

/// Whether a condition holds in a state, as far as the executor can tell:
/// anything it cannot decide counts as holding.
pub open spec fn truthy(e: ExprV, st: EState, ft: Seq<(u64, Seq<char>)>) -> bool
    decreases e,
{
    match e {
        ExprV::Bool(b) => b,
        ExprV::Identifier(n) => if st.vars.contains_key(n) {
            match st.vars[n] {
                SymV::Concrete(k) => k != 0,
                SymV::ConcreteFloat(f) => float_nonzero(f),
                _ => true,
            }
        } else {
            true
        },
        ExprV::And(l, r) => truthy(*l, st, ft) && truthy(*r, st, ft),
        ExprV::Or(l, r) => truthy(*l, st, ft) || truthy(*r, st, ft),
        ExprV::Not(x) => !truthy(*x, st, ft),
        ExprV::Eq(l, r) => eq_eval(*l, *r, st, ft),
        ExprV::Ne(l, r) => !eq_eval(*l, *r, st, ft),
        ExprV::Lt(l, r) => compare_eval(*l, *r, st, 0),
        ExprV::Le(l, r) => compare_eval(*l, *r, st, 1),
        ExprV::Gt(l, r) => compare_eval(*l, *r, st, 2),
        ExprV::Ge(l, r) => compare_eval(*l, *r, st, 3),
        _ => true,
    }
}

/// A variable the path has set to the number `k` satisfies `x > m` exactly
/// when `k > m` (strictly), `x >= m` exactly when `k >= m`, `x < m` exactly
/// when `k < m` and `x <= m` exactly when `k <= m`: setting `x` to 5 does not
/// establish `x > 5`.
pub proof fn law_comparison_with_constant(x: Seq<char>, k: i64, m: i64, st: EState, ft: Seq<(u64, Seq<char>)>)
    requires
        st.vars.contains_key(x),
        st.vars[x] == SymV::Concrete(k),
    ensures
        truthy(ExprV::Gt(Box::new(ExprV::Identifier(x)), Box::new(ExprV::Integer(m))), st, ft) <==> k > m,
        truthy(ExprV::Ge(Box::new(ExprV::Identifier(x)), Box::new(ExprV::Integer(m))), st, ft) <==> k >= m,
        truthy(ExprV::Lt(Box::new(ExprV::Identifier(x)), Box::new(ExprV::Integer(m))), st, ft) <==> k < m,
        truthy(ExprV::Le(Box::new(ExprV::Identifier(x)), Box::new(ExprV::Integer(m))), st, ft) <==> k <= m,
{
}

/// Between two expressions that both have numbers, the comparisons are
/// those of the numbers: `l > r` is `r < l` and the negation of `l <= r`,
/// `l >= r` is `r <= l` and the negation of `l < r`; nothing is strictly
/// greater or smaller than itself, and everything is at least and at most
/// itself.
pub proof fn law_comparisons_order(l: ExprV, r: ExprV, st: EState, ft: Seq<(u64, Seq<char>)>)
    requires
        eval_num(l, st.vars) is Some,
        eval_num(r, st.vars) is Some,
    ensures
        ({
            let (lb, rb) = (Box::new(l), Box::new(r));
            &&& truthy(ExprV::Gt(lb, rb), st, ft) == truthy(ExprV::Lt(rb, lb), st, ft)
            &&& truthy(ExprV::Gt(lb, rb), st, ft) == !truthy(ExprV::Le(lb, rb), st, ft)
            &&& truthy(ExprV::Ge(lb, rb), st, ft) == truthy(ExprV::Le(rb, lb), st, ft)
            &&& truthy(ExprV::Ge(lb, rb), st, ft) == !truthy(ExprV::Lt(lb, rb), st, ft)
            &&& truthy(ExprV::Gt(lb, rb), st, ft) ==> eval_num(l, st.vars)->0 > eval_num(r, st.vars)->0
            &&& truthy(ExprV::Lt(lb, rb), st, ft) ==> eval_num(l, st.vars)->0 < eval_num(r, st.vars)->0
        }),
        !truthy(ExprV::Gt(Box::new(l), Box::new(l)), st, ft),
        !truthy(ExprV::Lt(Box::new(l), Box::new(l)), st, ft),
        truthy(ExprV::Ge(Box::new(l), Box::new(l)), st, ft),
        truthy(ExprV::Le(Box::new(l), Box::new(l)), st, ft),
{
}

/// An expression mentions a prior value `@x` (under arithmetic,
/// comparisons, `&&`, `||` and `!`).
pub open spec fn contains_prior(e: ExprV) -> bool
    decreases e,
{
    match e {
        ExprV::PriorState(_) => true,
        ExprV::Add(l, r) => contains_prior(*l) || contains_prior(*r),
        ExprV::Sub(l, r) => contains_prior(*l) || contains_prior(*r),
        ExprV::Mul(l, r) => contains_prior(*l) || contains_prior(*r),
        ExprV::Div(l, r) => contains_prior(*l) || contains_prior(*r),
        ExprV::Eq(l, r) => contains_prior(*l) || contains_prior(*r),
        ExprV::Ne(l, r) => contains_prior(*l) || contains_prior(*r),
        ExprV::Lt(l, r) => contains_prior(*l) || contains_prior(*r),
        ExprV::Le(l, r) => contains_prior(*l) || contains_prior(*r),
        ExprV::Gt(l, r) => contains_prior(*l) || contains_prior(*r),
        ExprV::Ge(l, r) => contains_prior(*l) || contains_prior(*r),
        ExprV::And(l, r) => contains_prior(*l) || contains_prior(*r),
        ExprV::Or(l, r) => contains_prior(*l) || contains_prior(*r),
        ExprV::Not(x) => contains_prior(*x),
        _ => false,
    }
}

/// Whether a path establishes the postcondition: vacuously where the
/// precondition fails; not where a negated guard of the path holds; where
/// the postcondition speaks of prior values, only an equation without them
/// is evaluated; otherwise the postcondition must hold.
pub open spec fn implies_spec(pre: ExprV, st: EState, post: ExprV, ft: Seq<(u64, Seq<char>)>) -> bool {
    if !truthy(pre, st, ft) {
        true
    } else if exists|k: int| 0 <= k < st.constraints.len() && st.constraints[k].1 && #[trigger] truthy(st.constraints[k].0, st, ft) {
        false
    } else if contains_prior(post) {
        match post {
            ExprV::Eq(l, r) => if contains_prior(*l) || contains_prior(*r) { true } else { truthy(post, st, ft) },
            _ => true,
        }
    } else {
        truthy(post, st, ft)
    }
}

/// The lines listing the conditions a path has taken.
pub open spec fn constraint_lines(cs: Seq<(ExprV, bool)>, ft: Seq<(u64, Seq<char>)>) -> Seq<Seq<char>> {
    Seq::new(cs.len(), |i: int| "   "@ + decimal((i + 1) as nat) + ". "@ + expr_text(cs[i].0, ft))
}

/// The finding for path `k` on which the postcondition is not established.
pub open spec fn p008(context: Seq<char>, k: nat, pre: ExprV, post: ExprV, st: EState, ft: Seq<(u64, Seq<char>)>) -> ProofErrorV {
    finding("P008"@, "contract verification failed"@, false,
        context + ": post-condition not satisfied on path "@ + decimal(k),
        seq!["1. Pre-condition: "@ + expr_text(pre, ft)]
            + (if st.constraints.len() > 0 { seq!["2. Path constraints:"@] + constraint_lines(st.constraints, ft) } else { seq![] })
            + seq!["3. Post-condition: "@ + expr_text(post, ft)],
        seq!["ensure the transaction/definition can reach a satisfying post-condition from the pre-condition"@])
}

/// The findings over the first `n` paths.
pub open spec fn implication_findings(pre: ExprV, post: ExprV, paths: Seq<EState>, context: Seq<char>,
    ft: Seq<(u64, Seq<char>)>, n: int) -> Seq<ProofErrorV>
    decreases n,
{
    if n <= 0 {
        seq![]
    } else {
        implication_findings(pre, post, paths, context, ft, n - 1) + if !implies_spec(pre, paths[n - 1], post, ft) {
            seq![p008(context, (n - 1) as nat, pre, post, paths[n - 1], ft)]
        } else {
            seq![]
        }
    }
}

/// The table of float texts as plain values.
pub open spec fn ft_view(v: Seq<(u64, String)>) -> Seq<(u64, Seq<char>)> {
    v.map_values(|p: (u64, String)| (p.0, p.1@))
}

fn float_text_exec(ft: &Vec<(u64, String)>, bits: u64) -> (s: String)
    ensures
        s@ == float_text(ft_view(ft@), bits),
{
    let ghost fv = ft_view(ft@);
    let mut i: usize = 0;
    assert(fv.subrange(0, fv.len() as int) =~= fv);
    while i < ft.len()
        invariant
            i <= ft@.len(),
            fv == ft_view(ft@),
            float_text(fv, bits) == float_text(fv.subrange(i as int, fv.len() as int), bits),
        decreases ft@.len() - i,
    {
        let ghost rest = fv.subrange(i as int, fv.len() as int);
        assert(rest.subrange(1, rest.len() as int) =~= fv.subrange(i + 1, fv.len() as int));
        if ft[i].0 == bits {
            return ft[i].1.clone();
        }
        i = i + 1;
    }
    owned("<float>")
}

fn join3(a: String, op: &str, b: String) -> (s: String)
    ensures
        s@ == a@ + op@ + b@,
{
    let mut s = a;
    s.append(op);
    s.append(b.as_str());
    s
}

/// How an expression is written in findings (see `expr_text`).
pub fn format_expr(expr: &Expr, ft: &Vec<(u64, String)>) -> (s: String)
    ensures
        s@ == expr_text(expr@, ft_view(ft@)),
    decreases expr,
{
    match expr {
        Expr::Integer(n) => {
            let mut s = String::new();
            push_decimal_signed(&mut s, *n);
            assert(s@ =~= decimal_signed(*n as int));
            s
        }
        Expr::Float(f) => float_text_exec(ft, *f),
        Expr::String(t) => {
            let mut s = String::new();
            push_char(&mut s, '"');
            s.append(t.as_str());
            push_char(&mut s, '"');
            assert(s@ =~= seq!['"'] + t@ + seq!['"']);
            s
        }
        Expr::Bool(b) => if *b { owned("true") } else { owned("false") },
        Expr::Identifier(n) => n.clone(),
        Expr::PriorState(n) => {
            let mut s = String::new();
            push_char(&mut s, '@');
            s.append(n.as_str());
            assert(s@ =~= seq!['@'] + n@);
            s
        }
        Expr::Add(l, r) => { let a = format_expr(&**l, ft); let b = format_expr(&**r, ft); join3(a, " + ", b) },
        Expr::Sub(l, r) => { let a = format_expr(&**l, ft); let b = format_expr(&**r, ft); join3(a, " - ", b) },
        Expr::Mul(l, r) => { let a = format_expr(&**l, ft); let b = format_expr(&**r, ft); join3(a, " * ", b) },
        Expr::Div(l, r) => { let a = format_expr(&**l, ft); let b = format_expr(&**r, ft); join3(a, " / ", b) },
        Expr::Eq(l, r) => { let a = format_expr(&**l, ft); let b = format_expr(&**r, ft); join3(a, " == ", b) },
        Expr::Ne(l, r) => { let a = format_expr(&**l, ft); let b = format_expr(&**r, ft); join3(a, " != ", b) },
        Expr::Lt(l, r) => { let a = format_expr(&**l, ft); let b = format_expr(&**r, ft); join3(a, " < ", b) },
        Expr::Le(l, r) => { let a = format_expr(&**l, ft); let b = format_expr(&**r, ft); join3(a, " <= ", b) },
        Expr::Gt(l, r) => { let a = format_expr(&**l, ft); let b = format_expr(&**r, ft); join3(a, " > ", b) },
        Expr::Ge(l, r) => { let a = format_expr(&**l, ft); let b = format_expr(&**r, ft); join3(a, " >= ", b) },
        Expr::And(l, r) => { let a = format_expr(&**l, ft); let b = format_expr(&**r, ft); join3(a, " && ", b) },
        Expr::Or(l, r) => { let a = format_expr(&**l, ft); let b = format_expr(&**r, ft); join3(a, " || ", b) },
        Expr::Not(x) => {
            let mut s = String::new();
            push_char(&mut s, '!');
            let t = format_expr(&**x, ft);
            s.append(t.as_str());
            assert(s@ =~= seq!['!'] + t@);
            s
        }
        Expr::Neg(x) => {
            let mut s = String::new();
            push_char(&mut s, '-');
            let t = format_expr(&**x, ft);
            s.append(t.as_str());
            assert(s@ =~= seq!['-'] + t@);
            s
        }
        Expr::Call(name, args) => {
            proof { assert(decreases_to!(*expr => (*expr)->Call_1)); }
            let mut s = name.clone();
            push_char(&mut s, '(');
            let a = args_text_exec(args, ft);
            s.append(a.as_str());
            push_char(&mut s, ')');
            proof { lemma_exprs_view(args@, args@.len() as int); }
            assert(s@ =~= name@ + seq!['('] + a@ + seq![')']);
            s
        }
        _ => owned("<expr>"),
    }
}

fn args_text_exec(args: &Vec<Expr>, ft: &Vec<(u64, String)>) -> (s: String)
    ensures
        s@ == args_text(exprs_view(args@, args@.len() as int), args@.len() as int, ft_view(ft@)),
    decreases args,
{
    let ghost n = args@.len() as int;
    let ghost ev = exprs_view(args@, n);
    proof { lemma_exprs_view(args@, n); }
    let mut s = String::new();
    let mut i: usize = 0;
    while i < args.len()
        invariant
            i <= args@.len(),
            n == args@.len(),
            ev == exprs_view(args@, n),
            ev.len() == n,
            forall|j: int| 0 <= j < n ==> #[trigger] ev[j] == expr_view(args@[j]),
            s@ == args_text(ev, i as int, ft_view(ft@)),
        decreases args@.len() - i,
    {
        proof { assert(decreases_to!(*args => args[i as int])); }
        let t = format_expr(&args[i], ft);
        if i > 0 {
            s.append(", ");
        }
        let ghost before = s@;
        s.append(t.as_str());
        assert(ev[i as int] == expr_view(args@[i as int]));
        i = i + 1;
    }
    s
}

/// The integer value of an expression in a state (see `eval_num`).
fn eval_numeric(expr: &Expr, state: &SymbolicState) -> (r: Option<i64>)
    ensures
        r == eval_num(expr@, state@.vars),
    decreases expr,
{
    match expr {
        Expr::Integer(n) => Some(*n),
        Expr::Identifier(name) => match state.get(name) {
            Some(SymbolicValue::Concrete(n)) => Some(*n),
            _ => None,
        },
        Expr::Add(l, r) => match eval_numeric(&**l, state) {
            Some(a) => match eval_numeric(&**r, state) {
                Some(b) => Some(a.wrapping_add(b)),
                None => None,
            },
            None => None,
        },
        Expr::Sub(l, r) => match eval_numeric(&**l, state) {
            Some(a) => match eval_numeric(&**r, state) {
                Some(b) => Some(a.wrapping_sub(b)),
                None => None,
            },
            None => None,
        },
        Expr::Mul(l, r) => match eval_numeric(&**l, state) {
            Some(a) => match eval_numeric(&**r, state) {
                Some(b) => Some(a.wrapping_mul(b)),
                None => None,
            },
            None => None,
        },
        _ => None,
    }
}

fn eval_eq(l: &Expr, r: &Expr, state: &SymbolicState, ft: &Vec<(u64, String)>) -> (b: bool)
    ensures
        b == eq_eval(l@, r@, state@, ft_view(ft@)),
{
    match (eval_numeric(l, state), eval_numeric(r, state)) {
        (Some(a), Some(b)) => a == b,
        _ => {
            let ls = chars_of(format_expr(l, ft).as_str());
            let rs = chars_of(format_expr(r, ft).as_str());
            chars_eq(ls.as_slice(), rs.as_slice())
        }
    }
}

fn eval_compare(l: &Expr, r: &Expr, state: &SymbolicState, op: u8) -> (b: bool)
    requires
        op <= 3,
    ensures
        b == compare_eval(l@, r@, state@, op as int),
{
    match (eval_numeric(l, state), eval_numeric(r, state)) {
        (Some(a), Some(b)) => if op == 0 { a < b } else if op == 1 { a <= b } else if op == 2 { a > b } else { a >= b },
        _ => true,
    }
}

/// Whether a condition holds in a state (see `truthy`).
fn is_truthy(expr: &Expr, state: &SymbolicState, ft: &Vec<(u64, String)>) -> (b: bool)
    ensures
        b == truthy(expr@, state@, ft_view(ft@)),
    decreases expr,
{
    match expr {
        Expr::Bool(b) => *b,
        Expr::Identifier(name) => match state.get(name) {
            Some(SymbolicValue::Concrete(n)) => *n != 0,
            Some(SymbolicValue::ConcreteFloat(f)) => *f & 0x7fff_ffff_ffff_ffffu64 != 0,
            _ => true,
        },
        Expr::And(l, r) => is_truthy(&**l, state, ft) && is_truthy(&**r, state, ft),
        Expr::Or(l, r) => is_truthy(&**l, state, ft) || is_truthy(&**r, state, ft),
        Expr::Not(x) => !is_truthy(&**x, state, ft),
        Expr::Eq(l, r) => eval_eq(&**l, &**r, state, ft),
        Expr::Ne(l, r) => !eval_eq(&**l, &**r, state, ft),
        Expr::Lt(l, r) => eval_compare(&**l, &**r, state, 0),
        Expr::Le(l, r) => eval_compare(&**l, &**r, state, 1),
        Expr::Gt(l, r) => eval_compare(&**l, &**r, state, 2),
        Expr::Ge(l, r) => eval_compare(&**l, &**r, state, 3),
        _ => true,
    }
}

fn contains_prior_state(expr: &Expr) -> (b: bool)
    ensures
        b == contains_prior(expr@),
    decreases expr,
{
    match expr {
        Expr::PriorState(_) => true,
        Expr::Add(l, r) | Expr::Sub(l, r) | Expr::Mul(l, r) | Expr::Div(l, r) | Expr::Eq(l, r) | Expr::Ne(l, r)
        | Expr::Lt(l, r) | Expr::Le(l, r) | Expr::Gt(l, r) | Expr::Ge(l, r) | Expr::And(l, r) | Expr::Or(l, r) => {
            contains_prior_state(&**l) || contains_prior_state(&**r)
        }
        Expr::Not(x) => contains_prior_state(&**x),
        _ => false,
    }
}

/// Whether a path establishes the postcondition (see `implies_spec`).
fn implies(pre: &Expr, state: &SymbolicState, post: &Expr, ft: &Vec<(u64, String)>) -> (b: bool)
    ensures
        b == implies_spec(pre@, state@, post@, ft_view(ft@)),
{
    if !is_truthy(pre, state, ft) {
        return true;
    }
    let mut k: usize = 0;
    while k < state.constraints.len()
        invariant
            k <= state.constraints@.len(),
            truthy(pre@, state@, ft_view(ft@)),
            forall|m: int| 0 <= m < k ==> !(state@.constraints[m].1 && #[trigger] truthy(state@.constraints[m].0, state@, ft_view(ft@))),
        decreases state.constraints@.len() - k,
    {
        let c = &state.constraints[k];
        assert(state@.constraints[k as int] == (c.condition@, c.is_negated));
        if c.is_negated {
            if is_truthy(&c.condition, state, ft) {
                assert(state@.constraints[k as int].1 && truthy(state@.constraints[k as int].0, state@, ft_view(ft@)));
                return false;
            }
        }
        k = k + 1;
    }
    if contains_prior_state(post) {
        match post {
            Expr::Eq(l, r) => {
                if contains_prior_state(&**l) || contains_prior_state(&**r) {
                    true
                } else {
                    is_truthy(post, state, ft)
                }
            }
            _ => true,
        }
    } else {
        is_truthy(post, state, ft)
    }
}


/// The span a lambda's finding points at: its own, or the empty span.
pub open spec fn span_or_dummy(s: Option<Span>) -> Span {
    match s {
        Some(x) => x,
        None => Span { start: 0, end: 0, line: 0, column: 0 },
    }
}

/// The finding for a lambda (a transaction or definition without a body,
/// `kind` says which) whose postcondition is a variable or literal that it
/// cannot prove from its precondition.
pub open spec fn lambda_finding(code: Seq<char>, kind: Seq<char>, name: Seq<char>, span: Option<Span>) -> ProofErrorV {
    ProofErrorV {
        explanation: "Lambda "@ + kind + " '"@ + name
            + "' has no body. Ensure the postcondition can be proven from the precondition alone."@,
        hints: seq!["Consider adding a body or simplifying the postcondition"@],
        span: Some(span_or_dummy(span)),
        ..bare_finding(code, "Lambda "@ + kind + " requires provable postcondition"@, false)
    }
}

/// A lambda needs a proof that the executor cannot give: its postcondition
/// is a literal or a variable, and both conditions read variables.
pub open spec fn lambda_unproven(pre: ExprV, post: ExprV) -> bool {
    (post is Bool || post is Identifier) && read_vars_expr(pre) != Set::<Seq<char>>::empty()
        && read_vars_expr(post) != Set::<Seq<char>>::empty()
}

/// The findings of a transaction: for a lambda, the finding above where it
/// applies; otherwise one finding per path of the body, started from the
/// precondition's variables and the parameters, that does not establish the
/// postcondition.
pub open spec fn txn_findings(t: Transaction, ft: Seq<(u64, Seq<char>)>) -> Seq<ProofErrorV> {
    let pre = t.contract.pre_condition@;
    let post = t.contract.post_condition@;
    if t.is_lambda {
        if lambda_unproven(pre, post) { seq![lambda_finding("P016"@, "transaction"@, t.name@, t.span)] } else { seq![] }
    } else {
        let st = EState { vars: with_params(initial_vars(pre), t.parameters@, t.parameters@.len() as int), constraints: seq![] };
        let paths = paths_from(t.body@, 0, st);
        implication_findings(pre, post, paths, "transaction '"@ + t.name@ + "'"@, ft, paths.len() as int)
    }
}

/// The findings of a definition, as for a transaction but without
/// parameters in the starting state.
pub open spec fn defn_findings(d: Definition, ft: Seq<(u64, Seq<char>)>) -> Seq<ProofErrorV> {
    let pre = d.contract.pre_condition@;
    let post = d.contract.post_condition@;
    if d.is_lambda {
        if lambda_unproven(pre, post) { seq![lambda_finding("P015"@, "definition"@, d.name@, d.contract.span)] } else { seq![] }
    } else {
        let st = EState { vars: initial_vars(pre), constraints: seq![] };
        let paths = paths_from(d.body@, 0, st);
        implication_findings(pre, post, paths, "definition '"@ + d.name@ + "'"@, ft, paths.len() as int)
    }
}

/// Runs transactions and definitions symbolically, gathering findings. It
/// writes float literals with the texts of its table.
pub struct SymbolicExecutor {
    errors: Vec<ProofError>,
    float_texts: Vec<(u64, String)>,
}

fn copy_errors(v: &Vec<ProofError>) -> (r: Vec<ProofError>)
    ensures
        proof_views(r@) == proof_views(v@),
{
    let mut r: Vec<ProofError> = Vec::new();
    let mut i: usize = 0;
    while i < v.len()
        invariant
            i <= v@.len(),
            proof_views(r@) == proof_views(v@.subrange(0, i as int)),
        decreases v@.len() - i,
    {
        let e = v[i].copy();
        let ghost before = r@;
        r.push(e);
        assert(proof_views(r@) =~= proof_views(before).push(e@));
        assert(proof_views(v@.subrange(0, i + 1)) =~= proof_views(v@.subrange(0, i as int)).push(v@[i as int]@));
        i = i + 1;
    }
    assert(v@.subrange(0, v@.len() as int) =~= v@);
    r
}

fn is_negatable(e: &Expr) -> (b: bool)
    ensures
        b == (e@ is Bool || e@ is Identifier),
{
    match e {
        Expr::Bool(_) | Expr::Identifier(_) => true,
        _ => false,
    }
}

fn reads_something(e: &Expr) -> (b: bool)
    ensures
        b == (read_vars_expr(e@) != Set::<Seq<char>>::empty()),
{
    let mut v: Vec<String> = Vec::new();
    assert(name_set(v@) =~= Set::<Seq<char>>::empty());
    add_read_vars(e, &mut v);
    assert(name_set(v@) =~= read_vars_expr(e@));
    if v.len() > 0 {
        assert(name_set(v@).contains(v@[0]@)) by {
            assert(v@.map_values(|s: String| s@)[0] == v@[0]@);
        }
        true
    } else {
        assert(name_set(v@) =~= Set::<Seq<char>>::empty());
        false
    }
}

fn lambda_error(code: &str, kind: &str, name: &String, span: Option<Span>) -> (e: ProofError)
    ensures
        e@ == lambda_finding(code@, kind@, name@, span),
{
    let mut title = owned("Lambda ");
    title.append(kind);
    title.append(" requires provable postcondition");
    let mut explanation = owned("Lambda ");
    explanation.append(kind);
    explanation.append(" '");
    explanation.append(name.as_str());
    explanation.append("' has no body. Ensure the postcondition can be proven from the precondition alone.");
    let sp = match span {
        Some(s) => s,
        None => Span::dummy(),
    };
    let e = ProofError::new(code, title.as_str())
        .with_explanation(explanation.as_str())
        .with_hint("Consider adding a body or simplifying the postcondition")
        .with_span(sp);
    assert(e@.hints =~= seq!["Consider adding a body or simplifying the postcondition"@]);
    e
}

impl SymbolicExecutor {
    pub closed spec fn findings(&self) -> Seq<ProofErrorV> {
        proof_views(self.errors@)
    }

    /// The table of float texts.
    pub closed spec fn floats(&self) -> Seq<(u64, Seq<char>)> {
        ft_view(self.float_texts@)
    }

    /// An executor with no findings and no float texts.
    pub fn new() -> (r: Self)
        ensures
            r.findings().len() == 0,
            r.floats().len() == 0,
    {
        SymbolicExecutor { errors: Vec::new(), float_texts: Vec::new() }
    }

    /// Adds the text of the float literal with bit pattern `bits`.
    pub fn with_float_text(self, bits: u64, text: String) -> (r: Self)
        ensures
            r.findings() == self.findings(),
            r.floats() == self.floats().push((bits, text@)),
    {
        let mut r = self;
        let ghost before = ft_view(r.float_texts@);
        r.float_texts.push((bits, text));
        assert(ft_view(r.float_texts@) =~= before.push((bits, text@)));
        r
    }

    fn verify_contract_implication(&mut self, pre: &Expr, post: &Expr, body: &Vec<Statement>, state: SymbolicState,
        context: String)
        ensures
            final(self).floats() == old(self).floats(),
            final(self).findings() == old(self).findings() + implication_findings(pre@, post@,
                paths_from(body@, 0, state@), context@, old(self).floats(), paths_from(body@, 0, state@).len() as int),
    {
        let ghost start = self.findings();
        let ghost ft = self.floats();
        let paths = enumerate_paths(body, state);
        let ghost pv = state_views(paths@);
        let mut k: usize = 0;
        while k < paths.len()
            invariant
                k <= paths@.len(),
                pv == state_views(paths@),
                ft == self.floats(),
                ft == ft_view(self.float_texts@),
                self.findings() == start + implication_findings(pre@, post@, pv, context@, ft, k as int),
            decreases paths@.len() - k,
        {
            let st = &paths[k];
            assert(pv[k as int] == st@);
            if !implies(pre, st, post, &self.float_texts) {
                let mut explanation = context.clone();
                explanation.append(": post-condition not satisfied on path ");
                push_decimal(&mut explanation, k as u64);
                let mut chain: Vec<String> = Vec::new();
                let mut s1 = owned("1. Pre-condition: ");
                let pt = format_expr(pre, &self.float_texts);
                s1.append(pt.as_str());
                chain.push(s1);
                let ghost c1 = strs(chain@);
                assert(c1 =~= seq!["1. Pre-condition: "@ + expr_text(pre@, ft)]);
                if st.constraints.len() > 0 {
                    chain.push(owned("2. Path constraints:"));
                    let ghost c2 = strs(chain@);
                    assert(c2 =~= c1 + seq!["2. Path constraints:"@]);
                    let mut m: usize = 0;
                    while m < st.constraints.len()
                        invariant
                            m <= st.constraints@.len(),
                            ft == ft_view(self.float_texts@),
                            strs(chain@) == c2 + constraint_lines(st@.constraints, ft).subrange(0, m as int),
                        decreases st.constraints@.len() - m,
                    {
                        let mut line = owned("   ");
                        push_decimal(&mut line, (m + 1) as u64);
                        line.append(". ");
                        let ct = format_expr(&st.constraints[m].condition, &self.float_texts);
                        line.append(ct.as_str());
                        let ghost before = strs(chain@);
                        chain.push(line);
                        assert(st@.constraints[m as int].0 == st.constraints@[m as int].condition@);
                        assert(strs(chain@) =~= before.push(line@));
                        assert(constraint_lines(st@.constraints, ft).subrange(0, m + 1)
                            =~= constraint_lines(st@.constraints, ft).subrange(0, m as int).push(line@));
                        m = m + 1;
                    }
                    assert(constraint_lines(st@.constraints, ft).subrange(0, st@.constraints.len() as int)
                        =~= constraint_lines(st@.constraints, ft));
                }
                let ghost c3 = strs(chain@);
                let mut s3 = owned("3. Post-condition: ");
                let qt = format_expr(post, &self.float_texts);
                s3.append(qt.as_str());
                chain.push(s3);
                assert(strs(chain@) =~= c3.push(s3@));
                assert(st@.constraints.len() == st.constraints@.len());
                assert(strs(chain@) =~= seq!["1. Pre-condition: "@ + expr_text(pre@, ft)]
                    + (if st@.constraints.len() > 0 { seq!["2. Path constraints:"@] + constraint_lines(st@.constraints, ft) } else { seq![] })
                    + seq!["3. Post-condition: "@ + expr_text(post@, ft)]);
                let mut hints: Vec<String> = Vec::new();
                let h = owned("ensure the transaction/definition can reach a satisfying post-condition from the pre-condition");
                hints.push(h);
                assert(strs(hints@) =~= seq![h@]);
                assert(explanation@ =~= context@ + ": post-condition not satisfied on path "@ + decimal(k as nat));
                let e = finding_exec("P008", "contract verification failed", false, explanation, chain, hints);
                assert(e@ == p008(context@, k as nat, pre@, post@, pv[k as int], ft));
                let ghost before = self.findings();
                self.errors.push(e);
                assert(self.findings() =~= before.push(e@));
            }
            assert(self.findings() =~= start + implication_findings(pre@, post@, pv, context@, ft, k + 1));
            k = k + 1;
        }
    }

    /// Checks a transaction's contract (see `txn_findings`); answers all
    /// the findings gathered so far.
    pub fn verify_transaction(&mut self, txn: &Transaction) -> (r: Vec<ProofError>)
        ensures
            final(self).floats() == old(self).floats(),
            final(self).findings() == old(self).findings() + txn_findings(*txn, old(self).floats()),
            proof_views(r@) == final(self).findings(),
    {
        let ghost start = self.findings();
        let pre = &txn.contract.pre_condition;
        let post = &txn.contract.post_condition;
        if txn.is_lambda {
            let mut state = init_state_from_precondition(pre);
            add_params(&mut state, &txn.parameters);
            let empty: Vec<Statement> = Vec::new();
            let mut context = owned("lambda transaction '");
            context.append(txn.name.as_str());
            context.append("'");
            self.verify_contract_implication(pre, post, &empty, state, context);
            if is_negatable(post) && reads_something(pre) && reads_something(post) {
                let e = lambda_error("P016", "transaction", &txn.name, txn.span);
                let ghost before = self.findings();
                self.errors.push(e);
                assert(self.findings() =~= before.push(e@));
            }
            assert(self.findings() =~= start + txn_findings(*txn, self.floats()));
        } else {
            let mut state = init_state_from_precondition(pre);
            add_params(&mut state, &txn.parameters);
            let mut context = owned("transaction '");
            context.append(txn.name.as_str());
            context.append("'");
            self.verify_contract_implication(pre, post, &txn.body, state, context);
        }
        copy_errors(&self.errors)
    }

    /// Checks a definition's contract (see `defn_findings`); answers all
    /// the findings gathered so far.
    pub fn verify_definition(&mut self, defn: &Definition) -> (r: Vec<ProofError>)
        ensures
            final(self).floats() == old(self).floats(),
            final(self).findings() == old(self).findings() + defn_findings(*defn, old(self).floats()),
            proof_views(r@) == final(self).findings(),
    {
        let ghost start = self.findings();
        let pre = &defn.contract.pre_condition;
        let post = &defn.contract.post_condition;
        if defn.is_lambda {
            let state = init_state_from_precondition(pre);
            let empty: Vec<Statement> = Vec::new();
            let mut context = owned("lambda definition '");
            context.append(defn.name.as_str());
            context.append("'");
            self.verify_contract_implication(pre, post, &empty, state, context);
            if is_negatable(post) && reads_something(pre) && reads_something(post) {
                let e = lambda_error("P015", "definition", &defn.name, defn.contract.span);
                let ghost before = self.findings();
                self.errors.push(e);
                assert(self.findings() =~= before.push(e@));
            }
            assert(self.findings() =~= start + defn_findings(*defn, self.floats()));
        } else {
            let state = init_state_from_precondition(pre);
            let mut context = owned("definition '");
            context.append(defn.name.as_str());
            context.append("'");
            self.verify_contract_implication(pre, post, &defn.body, state, context);
        }
        copy_errors(&self.errors)
    }
}


/// The contract findings of one item.
pub open spec fn item_contract_findings(item: TopLevel, ft: Seq<(u64, Seq<char>)>) -> Seq<ProofErrorV> {
    match item {
        TopLevel::Transaction(t) => txn_findings(t, ft),
        TopLevel::Definition(d) => defn_findings(d, ft),
        _ => seq![],
    }
}

/// What one executor has gathered after the first `n` items.
pub open spec fn executor_findings(items: Seq<TopLevel>, n: int, ft: Seq<(u64, Seq<char>)>) -> Seq<ProofErrorV>
    decreases n,
{
    if n <= 0 {
        seq![]
    } else {
        executor_findings(items, n - 1, ft) + item_contract_findings(items[n - 1], ft)
    }
}

/// What `verify_contracts` adds over the first `n` items: after each
/// transaction and definition, everything the executor has gathered so far.
pub open spec fn contracts_findings(items: Seq<TopLevel>, n: int, ft: Seq<(u64, Seq<char>)>) -> Seq<ProofErrorV>
    decreases n,
{
    if n <= 0 {
        seq![]
    } else {
        contracts_findings(items, n - 1, ft) + if items[n - 1] is Transaction || items[n - 1] is Definition {
            executor_findings(items, n, ft)
        } else {
            seq![]
        }
    }
}

fn append_errors(dst: &mut Vec<ProofError>, src: Vec<ProofError>)
    ensures
        proof_views(final(dst)@) == proof_views(old(dst)@) + proof_views(src@),
{
    let ghost start = proof_views(dst@);
    let mut i: usize = 0;
    while i < src.len()
        invariant
            i <= src@.len(),
            proof_views(dst@) == start + proof_views(src@).subrange(0, i as int),
        decreases src@.len() - i,
    {
        let e = src[i].copy();
        let ghost before = proof_views(dst@);
        dst.push(e);
        assert(proof_views(dst@) =~= before.push(e@));
        assert(proof_views(src@).subrange(0, i + 1) =~= proof_views(src@).subrange(0, i as int).push(src@[i as int]@));
        i = i + 1;
    }
    assert(proof_views(src@).subrange(0, src@.len() as int) =~= proof_views(src@));
}

impl ProofEngine {
    /// Checks the contract of each transaction and definition with one
    /// symbolic executor, whose float texts are `float_texts`; after each,
    /// adds every finding the executor has gathered so far.
    pub fn verify_contracts(&mut self, program: &Program, float_texts: &Vec<(u64, String)>)
        ensures
            final(self).findings() == old(self).findings()
                + contracts_findings(program.items@, program.items@.len() as int, ft_view(float_texts@)),
    {
        let ghost ft = ft_view(float_texts@);
        let mut sym = SymbolicExecutor::new();
        let mut j: usize = 0;
        while j < float_texts.len()
            invariant
                j <= float_texts@.len(),
                sym.findings().len() == 0,
                sym.floats() == ft.subrange(0, j as int),
                ft == ft_view(float_texts@),
            decreases float_texts@.len() - j,
        {
            sym = sym.with_float_text(float_texts[j].0, float_texts[j].1.clone());
            assert(ft.subrange(0, j + 1) =~= ft.subrange(0, j as int).push((float_texts@[j as int].0, float_texts@[j as int].1@)));
            j = j + 1;
        }
        assert(ft.subrange(0, ft.len() as int) =~= ft);
        let items = &program.items;
        let ghost start = self.findings();
        let mut i: usize = 0;
        assert(sym.findings() =~= executor_findings(items@, 0, ft));
        assert(self.findings() =~= start + contracts_findings(items@, 0, ft));
        while i < items.len()
            invariant
                i <= items@.len(),
                items@ == program.items@,
                sym.floats() == ft,
                sym.findings() == executor_findings(items@, i as int, ft),
                self.findings() == start + contracts_findings(items@, i as int, ft),
            decreases items@.len() - i,
        {
            let ghost before = self.findings();
            match &items[i] {
                TopLevel::Transaction(t) => {
                    let errs = sym.verify_transaction(t);
                    append_errors(&mut self.errors, errs);
                }
                TopLevel::Definition(d) => {
                    let errs = sym.verify_definition(d);
                    append_errors(&mut self.errors, errs);
                }
                _ => {
                    assert(self.findings() =~= before + Seq::<ProofErrorV>::empty());
                }
            }
            assert(sym.findings() =~= executor_findings(items@, i + 1, ft));
            assert(self.findings() =~= start + contracts_findings(items@, i + 1, ft));
            i = i + 1;
        }
    }
}


// ---------------------------------------------------------------------------
// Whole programs

/// The definition a `-> true` signature speaks of: its source, or else the
/// definition of its own name.
pub open spec fn assertion_source(sig: Signature) -> Seq<char> {
    match sig.source {
        Some(s) => s@,
        None => sig.name@,
    }
}

/// What the `-> true` check finds for the first `n` items: for each such
/// signature whose definition exists (the last of that name), the finding
/// of `verify_true_assertion`.
pub open spec fn assertion_findings(items: Seq<TopLevel>, n: int) -> Seq<ProofErrorV>
    decreases n,
{
    if n <= 0 {
        seq![]
    } else {
        assertion_findings(items, n - 1) + match items[n - 1] {
            TopLevel::Signature(sig) => if sig.result_type is TrueAssertion {
                match last_definition(items, assertion_source(sig), items.len() as int) {
                    Some(d) => true_assertion_findings(sig.name@, d),
                    None => seq![],
                }
            } else {
                seq![]
            },
            _ => seq![],
        }
    }
}

/// All that `verify_program` finds, in the order the checks run.
pub open spec fn program_proof_findings(items: Seq<TopLevel>, ft: Seq<(u64, Seq<char>)>) -> Seq<ProofErrorV> {
    let n = items.len() as int;
    exclusion_findings(async_txns(items, n), async_txns(items, n).len() as int)
        + program_findings(items, n, 2)
        + assertion_findings(items, n)
        + program_findings(items, n, 1)
        + program_findings(items, n, 0)
        + projection_findings(items, n)
        + contracts_findings(items, n, ft)
}

impl ProofEngine {
    /// Checks each `-> true` signature against its definition (see
    /// `verify_true_assertion`), in program order. The separate
    /// assertion-verification pass (findings `C001`) lives in a module that
    /// is not part of this library and is not run here.
    pub fn check_true_assertions(&mut self, program: &Program)
        ensures
            final(self).findings() == old(self).findings() + assertion_findings(program.items@, program.items@.len() as int),
    {
        let items = &program.items;
        let ghost start = self.findings();
        let mut i: usize = 0;
        assert(self.findings() =~= start + assertion_findings(items@, 0));
        while i < items.len()
            invariant
                i <= items@.len(),
                items@ == program.items@,
                self.findings() == start + assertion_findings(items@, i as int),
            decreases items@.len() - i,
        {
            let ghost before = self.findings();
            match &items[i] {
                TopLevel::Signature(sig) => {
                    match &sig.result_type {
                        ResultType::TrueAssertion => {
                            let src: &String = match &sig.source {
                                Some(s) => s,
                                None => &sig.name,
                            };
                            match find_definition(items, src) {
                                Some(d) => {
                                    self.verify_true_assertion(sig.name.as_str(), d);
                                }
                                None => {
                                    assert(self.findings() =~= before + Seq::<ProofErrorV>::empty());
                                }
                            }
                        }
                        _ => {
                            assert(self.findings() =~= before + Seq::<ProofErrorV>::empty());
                        }
                    }
                }
                _ => {
                    assert(self.findings() =~= before + Seq::<ProofErrorV>::empty());
                }
            }
            assert(self.findings() =~= start + assertion_findings(items@, i + 1));
            i = i + 1;
        }
    }

    /// Runs every check on the program, in order: mutual exclusion, total
    /// paths, `-> true` assertions, postcondition contradictions, trivial
    /// contracts, sig projections, foreign-call handling and the symbolic
    /// contract check; answers all findings so far.
    pub fn verify_program(&mut self, program: &Program, float_texts: &Vec<(u64, String)>) -> (r: Vec<ProofError>)
        ensures
            final(self).findings() == old(self).findings()
                + program_proof_findings(program.items@, ft_view(float_texts@)),
            proof_views(r@) == final(self).findings(),
    {
        let ghost start = self.findings();
        let ghost items = program.items@;
        let ghost n = items.len() as int;
        self.check_mutual_exclusion(program);
        self.check_total_path(program);
        self.check_true_assertions(program);
        self.check_postcondition_contradictions(program);
        self.check_trivial_contracts(program);
        self.check_sig_projections(program);
        self.check_ffi_error_handling(program);
        self.verify_contracts(program, float_texts);
        assert(self.findings() =~= start + program_proof_findings(items, ft_view(float_texts@)));
        self.errors()
    }
}

// ---------------------------------------------------------------------------
// Trivial-contract findings in the whole output

/// A finding about a trivial contract: code P009 or P010.
pub open spec fn is_trivial_code(e: ProofErrorV) -> bool {
    e.code == "P009"@ || e.code == "P010"@
}

/// The trivial-contract findings of `s`, in order.
pub open spec fn trivial_part(s: Seq<ProofErrorV>) -> Seq<ProofErrorV>
    decreases s.len(),
{
    if s.len() == 0 {
        seq![]
    } else if is_trivial_code(s.last()) {
        trivial_part(s.drop_last()).push(s.last())
    } else {
        trivial_part(s.drop_last())
    }
}

pub open spec fn no_trivial(s: Seq<ProofErrorV>) -> bool {
    forall|i: int| 0 <= i < s.len() ==> !is_trivial_code(#[trigger] s[i])
}

proof fn lemma_codes()
    ensures
        "P001"@ != "P009"@ && "P001"@ != "P010"@,
        "P003"@ != "P009"@ && "P003"@ != "P010"@,
        "P005"@ != "P009"@ && "P005"@ != "P010"@,
        "P006"@ != "P009"@ && "P006"@ != "P010"@,
        "P008"@ != "P009"@ && "P008"@ != "P010"@,
        "P015"@ != "P009"@ && "P015"@ != "P010"@,
        "P016"@ != "P009"@ && "P016"@ != "P010"@,
        "B001"@ != "P009"@ && "B001"@ != "P010"@,
{
    reveal_strlit("P001");
    reveal_strlit("P003");
    reveal_strlit("P005");
    reveal_strlit("P006");
    reveal_strlit("P008");
    reveal_strlit("P009");
    reveal_strlit("P010");
    reveal_strlit("P015");
    reveal_strlit("P016");
    reveal_strlit("B001");
    assert("P001"@[3] != "P009"@[3]);
    assert("P001"@[2] != "P010"@[2]);
    assert("P003"@[3] != "P009"@[3]);
    assert("P003"@[2] != "P010"@[2]);
    assert("P005"@[3] != "P009"@[3]);
    assert("P005"@[2] != "P010"@[2]);
    assert("P006"@[3] != "P009"@[3]);
    assert("P006"@[2] != "P010"@[2]);
    assert("P008"@[3] != "P009"@[3]);
    assert("P008"@[2] != "P010"@[2]);
    assert("P015"@[2] != "P009"@[2]);
    assert("P015"@[3] != "P010"@[3]);
    assert("P016"@[2] != "P009"@[2]);
    assert("P016"@[3] != "P010"@[3]);
    assert("B001"@[0] != "P009"@[0]);
    assert("B001"@[0] != "P010"@[0]);
}

proof fn lemma_trivial_part_add(a: Seq<ProofErrorV>, b: Seq<ProofErrorV>)
    ensures
        trivial_part(a + b) == trivial_part(a) + trivial_part(b),
    decreases b.len(),
{
    if b.len() == 0 {
        assert(a + b =~= a);
        assert(trivial_part(a) + trivial_part(b) =~= trivial_part(a));
    } else {
        assert((a + b).drop_last() =~= a + b.drop_last());
        assert((a + b).last() == b.last());
        lemma_trivial_part_add(a, b.drop_last());
        if is_trivial_code(b.last()) {
            assert(trivial_part(a) + trivial_part(b.drop_last()).push(b.last())
                =~= (trivial_part(a) + trivial_part(b.drop_last())).push(b.last()));
        }
    }
}

proof fn lemma_trivial_part_none(s: Seq<ProofErrorV>)
    requires
        no_trivial(s),
    ensures
        trivial_part(s) == Seq::<ProofErrorV>::empty(),
    decreases s.len(),
{
    if s.len() > 0 {
        assert(!is_trivial_code(s[s.len() - 1]));
        lemma_trivial_part_none(s.drop_last());
    }
}

proof fn lemma_trivial_part_all(s: Seq<ProofErrorV>)
    requires
        forall|i: int| 0 <= i < s.len() ==> is_trivial_code(#[trigger] s[i]),
    ensures
        trivial_part(s) == s,
    decreases s.len(),
{
    if s.len() > 0 {
        assert(is_trivial_code(s[s.len() - 1]));
        lemma_trivial_part_all(s.drop_last());
        assert(s.drop_last().push(s.last()) =~= s);
    }
}

proof fn lemma_no_trivial_add(a: Seq<ProofErrorV>, b: Seq<ProofErrorV>)
    requires
        no_trivial(a),
        no_trivial(b),
    ensures
        no_trivial(a + b),
{
    assert forall|i: int| 0 <= i < (a + b).len() implies !is_trivial_code(#[trigger] (a + b)[i]) by {
        if i < a.len() {
            assert((a + b)[i] == a[i]);
        } else {
            assert((a + b)[i] == b[i - a.len()]);
        }
    }
}

proof fn lemma_exclusion_no_trivial(ts: Seq<Transaction>, k: int)
    ensures
        no_trivial(exclusion_findings(ts, k)),
    decreases k,
{
    lemma_codes();
    if k > 0 {
        lemma_exclusion_no_trivial(ts, k - 1);
        lemma_row_no_trivial(ts, k - 1, ts.len() as int);
        lemma_no_trivial_add(exclusion_findings(ts, k - 1), row_findings(ts, k - 1, ts.len() as int));
    }
}

proof fn lemma_row_no_trivial(ts: Seq<Transaction>, i: int, m: int)
    ensures
        no_trivial(row_findings(ts, i, m)),
    decreases m - i,
{
    lemma_codes();
    if m > i + 1 {
        lemma_row_no_trivial(ts, i, m - 1);
        let p = pair_findings(ts[i], ts[m - 1]);
        assert(no_trivial(p)) by {
            if preconditions_overlap(ts[i], ts[m - 1]) {
                assert forall|j: int| 0 <= j < p.len() implies !is_trivial_code(#[trigger] p[j]) by {
                    assert(p[j].code == "P001"@);
                }
            } else {
                assert(p =~= Seq::<ProofErrorV>::empty());
            }
        }
        lemma_no_trivial_add(row_findings(ts, i, m - 1), p);
    } else {
        assert(row_findings(ts, i, m) =~= Seq::<ProofErrorV>::empty());
    }
}

proof fn lemma_program_findings_no_trivial(items: Seq<TopLevel>, n: int, which: int)
    requires
        which == 1 || which == 2,
    ensures
        no_trivial(program_findings(items, n, which)),
    decreases n,
{
    lemma_codes();
    if n > 0 {
        lemma_program_findings_no_trivial(items, n - 1, which);
        let f = item_findings(items[n - 1], which);
        assert(no_trivial(f)) by {
            assert forall|j: int| 0 <= j < f.len() implies !is_trivial_code(#[trigger] f[j]) by {
                if which == 1 {
                    assert(f[j].code == "P003"@);
                } else {
                    assert(f[j].code == "P005"@);
                }
            }
        }
        lemma_no_trivial_add(program_findings(items, n - 1, which), f);
    }
}

proof fn lemma_program_findings_trivial(items: Seq<TopLevel>, n: int)
    ensures
        forall|i: int| 0 <= i < program_findings(items, n, 0).len()
            ==> is_trivial_code(#[trigger] program_findings(items, n, 0)[i]),
    decreases n,
{
    if n > 0 {
        lemma_program_findings_trivial(items, n - 1);
        let a = program_findings(items, n - 1, 0);
        let f = item_findings(items[n - 1], 0);
        assert forall|i: int| 0 <= i < (a + f).len() implies is_trivial_code(#[trigger] (a + f)[i]) by {
            if i < a.len() {
                assert((a + f)[i] == a[i]);
            } else {
                assert((a + f)[i] == f[i - a.len()]);
            }
        }
    }
}

proof fn lemma_assertion_no_trivial(items: Seq<TopLevel>, n: int)
    ensures
        no_trivial(assertion_findings(items, n)),
    decreases n,
{
    lemma_codes();
    if n > 0 {
        lemma_assertion_no_trivial(items, n - 1);
        let f = match items[n - 1] {
            TopLevel::Signature(sig) => if sig.result_type is TrueAssertion {
                match last_definition(items, assertion_source(sig), items.len() as int) {
                    Some(d) => true_assertion_findings(sig.name@, d),
                    None => seq![],
                }
            } else {
                seq![]
            },
            _ => seq![],
        };
        assert(no_trivial(f)) by {
            assert forall|j: int| 0 <= j < f.len() implies !is_trivial_code(#[trigger] f[j]) by {
                assert(f[j].code == "P006"@);
            }
        }
        lemma_no_trivial_add(assertion_findings(items, n - 1), f);
    }
}

proof fn lemma_projection_no_trivial(items: Seq<TopLevel>, n: int)
    ensures
        no_trivial(projection_findings(items, n)),
    decreases n,
{
    lemma_codes();
    if n > 0 {
        lemma_projection_no_trivial(items, n - 1);
        let f = match items[n - 1] {
            TopLevel::Signature(sig) => sig_findings(items, sig),
            _ => seq![],
        };
        assert(no_trivial(f)) by {
            assert forall|j: int| 0 <= j < f.len() implies !is_trivial_code(#[trigger] f[j]) by {
                assert(f[j].code == "B001"@);
            }
        }
        lemma_no_trivial_add(projection_findings(items, n - 1), f);
    }
}

proof fn lemma_implication_no_trivial(pre: ExprV, post: ExprV, paths: Seq<EState>, context: Seq<char>,
    ft: Seq<(u64, Seq<char>)>, n: int)
    ensures
        no_trivial(implication_findings(pre, post, paths, context, ft, n)),
    decreases n,
{
    lemma_codes();
    if n > 0 {
        lemma_implication_no_trivial(pre, post, paths, context, ft, n - 1);
        let f: Seq<ProofErrorV> = if !implies_spec(pre, paths[n - 1], post, ft) {
            seq![p008(context, (n - 1) as nat, pre, post, paths[n - 1], ft)]
        } else {
            seq![]
        };
        assert(no_trivial(f)) by {
            assert forall|j: int| 0 <= j < f.len() implies !is_trivial_code(#[trigger] f[j]) by {
                assert(f[j].code == "P008"@);
            }
        }
        lemma_no_trivial_add(implication_findings(pre, post, paths, context, ft, n - 1), f);
    }
}

proof fn lemma_item_contract_no_trivial(item: TopLevel, ft: Seq<(u64, Seq<char>)>)
    ensures
        no_trivial(item_contract_findings(item, ft)),
{
    lemma_codes();
    match item {
        TopLevel::Transaction(t) => {
            if !t.is_lambda {
                let st = EState { vars: with_params(initial_vars(t.contract.pre_condition@), t.parameters@, t.parameters@.len() as int), constraints: seq![] };
                let paths = paths_from(t.body@, 0, st);
                lemma_implication_no_trivial(t.contract.pre_condition@, t.contract.post_condition@, paths,
                    "transaction '"@ + t.name@ + "'"@, ft, paths.len() as int);
            }
        },
        TopLevel::Definition(d) => {
            if !d.is_lambda {
                let st = EState { vars: initial_vars(d.contract.pre_condition@), constraints: seq![] };
                let paths = paths_from(d.body@, 0, st);
                lemma_implication_no_trivial(d.contract.pre_condition@, d.contract.post_condition@, paths,
                    "definition '"@ + d.name@ + "'"@, ft, paths.len() as int);
            }
        },
        _ => {},
    }
}

proof fn lemma_executor_no_trivial(items: Seq<TopLevel>, n: int, ft: Seq<(u64, Seq<char>)>)
    ensures
        no_trivial(executor_findings(items, n, ft)),
    decreases n,
{
    if n > 0 {
        lemma_executor_no_trivial(items, n - 1, ft);
        lemma_item_contract_no_trivial(items[n - 1], ft);
        lemma_no_trivial_add(executor_findings(items, n - 1, ft), item_contract_findings(items[n - 1], ft));
    }
}

proof fn lemma_contracts_no_trivial(items: Seq<TopLevel>, n: int, ft: Seq<(u64, Seq<char>)>)
    ensures
        no_trivial(contracts_findings(items, n, ft)),
    decreases n,
{
    if n > 0 {
        lemma_contracts_no_trivial(items, n - 1, ft);
        lemma_executor_no_trivial(items, n, ft);
        let f: Seq<ProofErrorV> = if items[n - 1] is Transaction || items[n - 1] is Definition {
            executor_findings(items, n, ft)
        } else {
            seq![]
        };
        lemma_no_trivial_add(contracts_findings(items, n - 1, ft), f);
    }
}

/// Of everything `verify_program` finds, the trivial-contract findings
/// (codes P009 and P010) are exactly those of the per-item check, in program
/// order: for each transaction or definition, two errors where both its
/// conditions are `[true]`, one warning where only one is, and none
/// otherwise (see `law_trivial_contracts`). No other check gives these codes.
pub proof fn law_program_trivial_contracts(items: Seq<TopLevel>, ft: Seq<(u64, Seq<char>)>)
    ensures
        trivial_part(program_proof_findings(items, ft)) == program_findings(items, items.len() as int, 0),
{
    let n = items.len() as int;
    let a = exclusion_findings(async_txns(items, n), async_txns(items, n).len() as int);
    let b = program_findings(items, n, 2);
    let c = assertion_findings(items, n);
    let d = program_findings(items, n, 1);
    let e = program_findings(items, n, 0);
    let f = projection_findings(items, n);
    let g = contracts_findings(items, n, ft);
    lemma_exclusion_no_trivial(async_txns(items, n), async_txns(items, n).len() as int);
    lemma_program_findings_no_trivial(items, n, 2);
    lemma_assertion_no_trivial(items, n);
    lemma_program_findings_no_trivial(items, n, 1);
    lemma_program_findings_trivial(items, n);
    lemma_projection_no_trivial(items, n);
    lemma_contracts_no_trivial(items, n, ft);
    lemma_no_trivial_add(a, b);
    lemma_no_trivial_add(a + b, c);
    lemma_no_trivial_add(a + b + c, d);
    lemma_no_trivial_add(f, g);
    lemma_trivial_part_add(a + b + c + d, e);
    lemma_trivial_part_add(a + b + c + d + e, f);
    lemma_trivial_part_add(a + b + c + d + e + f, g);
    lemma_trivial_part_none(a + b + c + d);
    lemma_trivial_part_none(f);
    lemma_trivial_part_none(g);
    lemma_trivial_part_all(e);
    assert(program_proof_findings(items, ft) == a + b + c + d + e + f + g);
    assert(trivial_part(program_proof_findings(items, ft)) =~= e);
}
} // verus!
