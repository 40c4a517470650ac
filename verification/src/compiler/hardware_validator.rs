//! Checks that a program makes sense on hardware: every variable is written
//! by some transaction or trigger (else synthesis makes it a constant),
//! every transaction can be triggered, and every variable is read.

use vstd::prelude::*;
use crate::text::{owned, chars_of, chars_eq, hex_literal, hex_padded};
use crate::table::{keys_of, key_index, find_key, lemma_key_index};
use crate::compiler::ast::{
    Program, TopLevel, Statement, Expr, ExprV, HardwareConfig, IoMapping, deps, name_set, no_dup_names, add_name,
};
use crate::compiler::errors::{Diagnostic, DiagnosticV, Severity};

verus! {

// ---------------------------------------------------------------------------
// What a program writes, sets and reads

/// The variable an assignment target names: a name, an owned reference, or
/// the list an index goes into.
pub open spec fn target_name(e: ExprV) -> Option<Seq<char>>
    decreases e,
{
    match e {
        ExprV::Identifier(n) => Some(n),
        ExprV::OwnedRef(n) => Some(n),
        ExprV::ListIndex(l, _) => target_name(*l),
        _ => None,
    }
}

pub open spec fn opt_set(o: Option<Seq<char>>) -> Set<Seq<char>> {
    match o {
        Some(n) => set![n],
        None => Set::empty(),
    }
}

/// The variables a statement assigns to, in guarded blocks too.
pub open spec fn stmt_writes(s: Statement) -> Set<Seq<char>>
    decreases s,
{
    match s {
        Statement::Assignment { lhs, .. } => opt_set(target_name(lhs@)),
        Statement::Guarded { statements, .. } => stmts_writes(statements@, statements@.len() as int),
        _ => Set::empty(),
    }
}

/// The variables the first `n` statements assign to.
pub open spec fn stmts_writes(ss: Seq<Statement>, n: int) -> Set<Seq<char>>
    decreases ss, n,
{
    if n <= 0 || n > ss.len() {
        Set::empty()
    } else {
        stmts_writes(ss, n - 1) + stmt_writes(ss[n - 1])
    }
}

/// The variables the transactions among the first `n` items assign to.
pub open spec fn program_writes(items: Seq<TopLevel>, n: int) -> Set<Seq<char>>
    decreases n,
{
    if n <= 0 {
        Set::empty()
    } else {
        program_writes(items, n - 1) + match items[n - 1] {
            TopLevel::Transaction(t) => stmts_writes(t.body@, t.body@.len() as int),
            _ => Set::empty(),
        }
    }
}

/// The names of the triggers among the first `n` items.
pub open spec fn trigger_names(items: Seq<TopLevel>, n: int) -> Set<Seq<char>>
    decreases n,
{
    if n <= 0 {
        Set::empty()
    } else {
        trigger_names(items, n - 1) + match items[n - 1] {
            TopLevel::Trigger(t) => set![t.name@],
            _ => Set::empty(),
        }
    }
}

pub open spec fn opt_deps(o: Option<Expr>) -> Set<Seq<char>> {
    match o {
        Some(e) => deps(e@),
        None => Set::empty(),
    }
}

/// The variables the first `n` expressions of a `term` read.
pub open spec fn term_reads(es: Seq<Option<Expr>>, n: int) -> Set<Seq<char>>
    decreases n,
{
    if n <= 0 || n > es.len() {
        Set::empty()
    } else {
        term_reads(es, n - 1) + opt_deps(es[n - 1])
    }
}

/// The variables a statement reads.
pub open spec fn stmt_reads(s: Statement) -> Set<Seq<char>>
    decreases s,
{
    match s {
        Statement::Assignment { expr, .. } => deps(expr@),
        Statement::Guarded { condition, statements } => deps(condition@) + stmts_reads(statements@, statements@.len() as int),
        Statement::Term(es) => term_reads(es@, es@.len() as int),
        Statement::Escape(Some(e)) => deps(e@),
        Statement::Expression(e) => deps(e@),
        _ => Set::empty(),
    }
}

/// The variables the first `n` statements read.
pub open spec fn stmts_reads(ss: Seq<Statement>, n: int) -> Set<Seq<char>>
    decreases ss, n,
{
    if n <= 0 || n > ss.len() {
        Set::empty()
    } else {
        stmts_reads(ss, n - 1) + stmt_reads(ss[n - 1])
    }
}

/// The variables the transactions (contracts and bodies) and definitions
/// (bodies) among the first `n` items read.
pub open spec fn program_reads(items: Seq<TopLevel>, n: int) -> Set<Seq<char>>
    decreases n,
{
    if n <= 0 {
        Set::empty()
    } else {
        program_reads(items, n - 1) + match items[n - 1] {
            TopLevel::Transaction(t) => deps(t.contract.pre_condition@) + deps(t.contract.post_condition@)
                + stmts_reads(t.body@, t.body@.len() as int),
            TopLevel::Definition(d) => stmts_reads(d.body@, d.body@.len() as int),
            _ => Set::empty(),
        }
    }
}

fn target_name_exec(e: &Expr) -> (r: Option<&String>)
    ensures
        match (r, target_name(e@)) {
            (Some(a), Some(b)) => a@ == b,
            (None, None) => true,
            _ => false,
        },
    decreases e,
{
    match e {
        Expr::Identifier(n) => Some(n),
        Expr::OwnedRef(n) => Some(n),
        Expr::ListIndex(l, _) => target_name_exec(l),
        _ => None,
    }
}

fn collect_writes(statements: &Vec<Statement>, acc: &mut Vec<String>)
    requires
        no_dup_names(old(acc)@),
    ensures
        no_dup_names(final(acc)@),
        name_set(final(acc)@) == name_set(old(acc)@) + stmts_writes(statements@, statements@.len() as int),
    decreases statements,
{
    let ghost start = name_set(acc@);
    let mut i: usize = 0;
    assert(name_set(acc@) =~= start + stmts_writes(statements@, 0));
    while i < statements.len()
        invariant
            i <= statements@.len(),
            no_dup_names(acc@),
            name_set(acc@) == start + stmts_writes(statements@, i as int),
        decreases statements@.len() - i,
    {
        let ghost before = name_set(acc@);
        match &statements[i] {
            Statement::Assignment { lhs, .. } => {
                match target_name_exec(lhs) {
                    Some(n) => add_name(acc, n),
                    None => {}
                }
            }
            Statement::Guarded { statements: inner, .. } => {
                proof { assert(decreases_to!(*statements => statements@[i as int])); }
                collect_writes(inner, acc);
            }
            _ => {}
        }
        assert(stmts_writes(statements@, i + 1) == stmts_writes(statements@, i as int) + stmt_writes(statements@[i as int]));
        assert(name_set(acc@) =~= before + stmt_writes(statements@[i as int]));
        assert(name_set(acc@) =~= start + stmts_writes(statements@, i + 1));
        i = i + 1;
    }
}

fn add_names(acc: &mut Vec<String>, names: &Vec<String>)
    requires
        no_dup_names(old(acc)@),
    ensures
        no_dup_names(final(acc)@),
        name_set(final(acc)@) == name_set(old(acc)@) + name_set(names@),
{
    let ghost start = name_set(acc@);
    let mut i: usize = 0;
    assert(name_set(names@.subrange(0, 0)) =~= Set::<Seq<char>>::empty());
    assert(name_set(acc@) =~= start + name_set(names@.subrange(0, 0)));
    while i < names.len()
        invariant
            i <= names@.len(),
            no_dup_names(acc@),
            name_set(acc@) == start + name_set(names@.subrange(0, i as int)),
        decreases names@.len() - i,
    {
        add_name(acc, &names[i]);
        proof {
            let a = names@.subrange(0, i as int).map_values(|s: String| s@);
            let b = names@.subrange(0, i + 1).map_values(|s: String| s@);
            assert(b =~= a.push(names@[i as int]@));
            assert forall|x: Seq<char>| #![auto] b.contains(x) <==> (a.contains(x) || x == names@[i as int]@) by {
                vstd::seq_lib::lemma_seq_contains_after_push(a, names@[i as int]@, x);
            }
            assert(name_set(names@.subrange(0, i + 1)) =~= name_set(names@.subrange(0, i as int)).insert(names@[i as int]@));
            assert(name_set(acc@) =~= start + name_set(names@.subrange(0, i + 1)));
        }
        i = i + 1;
    }
    assert(names@.subrange(0, names@.len() as int) =~= names@);
}

fn add_deps(acc: &mut Vec<String>, e: &Expr)
    requires
        no_dup_names(old(acc)@),
    ensures
        no_dup_names(final(acc)@),
        name_set(final(acc)@) == name_set(old(acc)@) + deps(e@),
{
    let d = e.extract_dependencies();
    add_names(acc, &d);
}

fn collect_reads(statements: &Vec<Statement>, acc: &mut Vec<String>)
    requires
        no_dup_names(old(acc)@),
    ensures
        no_dup_names(final(acc)@),
        name_set(final(acc)@) == name_set(old(acc)@) + stmts_reads(statements@, statements@.len() as int),
    decreases statements,
{
    let ghost start = name_set(acc@);
    let mut i: usize = 0;
    assert(name_set(acc@) =~= start + stmts_reads(statements@, 0));
    while i < statements.len()
        invariant
            i <= statements@.len(),
            no_dup_names(acc@),
            name_set(acc@) == start + stmts_reads(statements@, i as int),
        decreases statements@.len() - i,
    {
        let ghost before = name_set(acc@);
        match &statements[i] {
            Statement::Assignment { expr, .. } => add_deps(acc, expr),
            Statement::Guarded { condition, statements: inner } => {
                add_deps(acc, condition);
                proof { assert(decreases_to!(*statements => statements@[i as int])); }
                collect_reads(inner, acc);
            }
            Statement::Term(es) => {
                let ghost b0 = name_set(acc@);
                let mut k: usize = 0;
                assert(name_set(acc@) =~= b0 + term_reads(es@, 0));
                while k < es.len()
                    invariant
                        k <= es@.len(),
                        no_dup_names(acc@),
                        name_set(acc@) == b0 + term_reads(es@, k as int),
                    decreases es@.len() - k,
                {
                    match &es[k] {
                        Some(e) => add_deps(acc, e),
                        None => {}
                    }
                    assert(name_set(acc@) =~= b0 + term_reads(es@, k + 1));
                    k = k + 1;
                }
            }
            Statement::Escape(Some(e)) => add_deps(acc, e),
            Statement::Expression(e) => add_deps(acc, e),
            _ => {}
        }
        assert(stmts_reads(statements@, i + 1) == stmts_reads(statements@, i as int) + stmt_reads(statements@[i as int]));
        assert(name_set(acc@) =~= before + stmt_reads(statements@[i as int]));
        assert(name_set(acc@) =~= start + stmts_reads(statements@, i + 1));
        i = i + 1;
    }
}

pub(crate) fn contains_name(v: &Vec<String>, n: &str) -> (r: bool)
    ensures
        r == name_set(v@).contains(n@),
{
    let want = chars_of(n);
    let mut i: usize = 0;
    while i < v.len()
        invariant
            i <= v@.len(),
            want@ == n@,
            forall|j: int| 0 <= j < i ==> v@[j]@ != n@,
        decreases v@.len() - i,
    {
        let c = chars_of(v[i].as_str());
        if chars_eq(c.as_slice(), want.as_slice()) {
            assert(v@.map_values(|s: String| s@)[i as int] == n@);
            return true;
        }
        i = i + 1;
    }
    proof {
        let m = v@.map_values(|s: String| s@);
        assert forall|j: int| 0 <= j < m.len() implies #[trigger] m[j] != n@ by {}
        assert(!m.contains(n@));
    }
    false
}

// ---------------------------------------------------------------------------
// Board pins

/// The four ways an address can be written in a board configuration:
/// eight upper-case digits, eight lower-case digits, and unpadded in upper
/// and lower case.
pub open spec fn address_forms(a: u64) -> Seq<Seq<char>> {
    seq![
        seq!['0', 'x'] + hex_padded(a as nat, true, 8),
        seq!['0', 'x'] + hex_padded(a as nat, false, 8),
        seq!['0', 'x'] + hex_padded(a as nat, true, 0),
        seq!['0', 'x'] + hex_padded(a as nat, false, 0),
    ]
}

/// The I/O pin of a table at the first form of `a` it has.
pub open spec fn io_entry(io: Seq<(String, IoMapping)>, a: u64) -> Option<IoMapping> {
    let f = address_forms(a);
    if key_index(keys_of(io), f[0]) is Some {
        Some(io[key_index(keys_of(io), f[0])->0].1)
    } else if key_index(keys_of(io), f[1]) is Some {
        Some(io[key_index(keys_of(io), f[1])->0].1)
    } else if key_index(keys_of(io), f[2]) is Some {
        Some(io[key_index(keys_of(io), f[2])->0].1)
    } else if key_index(keys_of(io), f[3]) is Some {
        Some(io[key_index(keys_of(io), f[3])->0].1)
    } else {
        None
    }
}

/// The address is an output pin of the configuration.
pub open spec fn is_output_pin(cfg: HardwareConfig, a: u64) -> bool {
    match cfg.io {
        Some(io) => match io_entry(io@, a) {
            Some(m) => m.direction matches Some(d) && d@ == "output"@,
            None => false,
        },
        None => false,
    }
}

/// The configuration has a memory region at one of the forms of `a`.
pub open spec fn has_memory(cfg: HardwareConfig, a: u64) -> bool {
    exists|k: int| 0 <= k < 4 && #[trigger] keys_of(cfg.memory@).contains(address_forms(a)[k])
}

fn address_texts(a: u64) -> (r: Vec<String>)
    ensures
        r@.len() == 4,
        forall|k: int| 0 <= k < 4 ==> #[trigger] r@[k]@ == address_forms(a)[k],
{
    let mut v: Vec<String> = Vec::new();
    v.push(hex_literal(a, true, 8));
    v.push(hex_literal(a, false, 8));
    v.push(hex_literal(a, true, 0));
    v.push(hex_literal(a, false, 0));
    v
}

fn io_lookup<'a>(io: &'a Vec<(String, IoMapping)>, a: u64) -> (r: Option<&'a IoMapping>)
    ensures
        match (r, io_entry(io@, a)) {
            (Some(x), Some(y)) => *x == y,
            (None, None) => true,
            _ => false,
        },
{
    let forms = address_texts(a);
    let mut k: usize = 0;
    while k < 4
        invariant
            k <= 4,
            forms@.len() == 4,
            forall|q: int| 0 <= q < 4 ==> #[trigger] forms@[q]@ == address_forms(a)[q],
            forall|q: int| 0 <= q < k ==> key_index(keys_of(io@), #[trigger] address_forms(a)[q]) is None,
        decreases 4 - k,
    {
        match find_key(io, forms[k].as_str()) {
            Some(i) => {
                assert(forms@[k as int]@ == address_forms(a)[k as int]);
                return Some(&io[i].1);
            }
            None => {}
        }
        k = k + 1;
    }
    None
}

fn output_pin(cfg: &HardwareConfig, a: u64) -> (r: bool)
    ensures
        r == is_output_pin(*cfg, a),
{
    match &cfg.io {
        Some(io) => match io_lookup(io, a) {
            Some(m) => match &m.direction {
                Some(d) => {
                    let c = chars_of(d.as_str());
                    crate::text::eq_str(c.as_slice(), "output")
                }
                None => false,
            },
            None => false,
        },
        None => false,
    }
}

fn memory_at(cfg: &HardwareConfig, a: u64) -> (r: bool)
    ensures
        r == has_memory(*cfg, a),
{
    let forms = address_texts(a);
    let mut k: usize = 0;
    while k < 4
        invariant
            k <= 4,
            forms@.len() == 4,
            forall|q: int| 0 <= q < 4 ==> #[trigger] forms@[q]@ == address_forms(a)[q],
            forall|q: int| 0 <= q < k ==> !keys_of(cfg.memory@).contains(#[trigger] address_forms(a)[q]),
        decreases 4 - k,
    {
        let found = find_key(&cfg.memory, forms[k].as_str());
        proof { lemma_key_index(keys_of(cfg.memory@), forms@[k as int]@); }
        if found.is_some() {
            assert(keys_of(cfg.memory@)[found->0 as int] == address_forms(a)[k as int]);
            assert(keys_of(cfg.memory@).contains(address_forms(a)[k as int]));
            return true;
        }
        proof {
            if keys_of(cfg.memory@).contains(address_forms(a)[k as int]) {
                let j = choose|j: int| 0 <= j < keys_of(cfg.memory@).len() && keys_of(cfg.memory@)[j] == address_forms(a)[k as int];
                assert(keys_of(cfg.memory@)[j] == forms@[k as int]@);
            }
        }
        k = k + 1;
    }
    false
}

// ---------------------------------------------------------------------------
// Diagnostics

pub open spec fn severity_for(is_ebv: bool) -> Severity {
    if is_ebv { Severity::Error } else { Severity::Warning }
}

/// A diagnostic with code, severity, title, span, one explanation and the
/// given hints.
pub open spec fn diag(code: Seq<char>, sev: Severity, title: Seq<char>, span: Option<crate::compiler::errors::Span>,
    explanation: Seq<char>, hints: Seq<Seq<char>>) -> DiagnosticV {
    DiagnosticV {
        code,
        severity: sev,
        title,
        span,
        source_snippet: None,
        explanation: seq![explanation],
        proof_chain: seq![],
        examples: seq![],
        hints,
        notes: seq![],
    }
}

pub open spec fn diag_views(v: Seq<Diagnostic>) -> Seq<DiagnosticV> {
    v.map_values(|d: Diagnostic| d@)
}

/// The variable that is never written: no initial value, no transaction
/// writes it, no trigger sets it; output-only pins are left out.
pub open spec fn orphan_diag(items: Seq<TopLevel>, cfg: Option<HardwareConfig>, item: TopLevel, is_ebv: bool) -> Option<DiagnosticV> {
    match item {
        TopLevel::StateDecl(d) => {
            let pin_only = match (cfg, d.address) {
                (Some(c), Some(a)) => is_output_pin(c, a) && !has_memory(c, a),
                _ => false,
            };
            if !pin_only && d.expr is None && !program_writes(items, items.len() as int).contains(d.name@)
                && !trigger_names(items, items.len() as int).contains(d.name@) {
                Some(diag("EBV001"@, severity_for(is_ebv), "Variable '"@ + d.name@ + "' is never written"@, d.span,
                    "This variable will be optimized to constant 0 by synthesis tools because it is never updated by any transaction or trigger."@,
                    seq!["Add a transaction that writes to '"@ + d.name@ + "', or remove the declaration."@]))
            } else {
                None
            }
        },
        _ => None,
    }
}

/// The transaction that can never fire: its precondition is not `true`
/// and reads only variables that nothing writes or sets.
pub open spec fn untriggerable_diag(items: Seq<TopLevel>, item: TopLevel, is_ebv: bool) -> Option<DiagnosticV> {
    match item {
        TopLevel::Transaction(t) => {
            let pre = t.contract.pre_condition@;
            let d = deps(pre);
            let live = program_writes(items, items.len() as int) + trigger_names(items, items.len() as int);
            if pre == ExprV::Bool(true) || d.is_empty() || exists|x: Seq<char>| d.contains(x) && live.contains(x) {
                None
            } else {
                Some(diag("EBV002"@, severity_for(is_ebv), "Transaction '"@ + t.name@ + "' can never be triggered"@, t.span,
                    "Transaction '"@ + t.name@ + "' has a precondition that depends on variables that are never updated."@,
                    seq!["Add a trigger (trg) or another transaction that updates the variables used in this precondition."@]))
            }
        },
        _ => None,
    }
}

/// The variable that is never read; output pins are left out.
pub open spec fn unused_diag(items: Seq<TopLevel>, cfg: Option<HardwareConfig>, item: TopLevel) -> Option<DiagnosticV> {
    match item {
        TopLevel::StateDecl(d) => {
            let pin = match (cfg, d.address) {
                (Some(c), Some(a)) => is_output_pin(c, a),
                _ => false,
            };
            if !pin && !program_reads(items, items.len() as int).contains(d.name@) {
                Some(diag("EBV003"@, Severity::Warning, "Variable '"@ + d.name@ + "' is never used"@, d.span,
                    "This variable is declared but its value is never read in any transaction or computation."@, seq![]))
            } else {
                None
            }
        },
        _ => None,
    }
}

/// The never-written diagnostics of the first `n` items, in order.
pub open spec fn orphan_diags(items: Seq<TopLevel>, cfg: Option<HardwareConfig>, is_ebv: bool, n: int) -> Seq<DiagnosticV>
    decreases n,
{
    if n <= 0 {
        seq![]
    } else {
        let rest = orphan_diags(items, cfg, is_ebv, n - 1);
        match orphan_diag(items, cfg, items[n - 1], is_ebv) {
            Some(d) => rest.push(d),
            None => rest,
        }
    }
}

/// The never-fires diagnostics of the first `n` items, in order.
pub open spec fn untriggerable_diags(items: Seq<TopLevel>, is_ebv: bool, n: int) -> Seq<DiagnosticV>
    decreases n,
{
    if n <= 0 {
        seq![]
    } else {
        let rest = untriggerable_diags(items, is_ebv, n - 1);
        match untriggerable_diag(items, items[n - 1], is_ebv) {
            Some(d) => rest.push(d),
            None => rest,
        }
    }
}

/// The never-read diagnostics of the first `n` items, in order.
pub open spec fn unused_diags(items: Seq<TopLevel>, cfg: Option<HardwareConfig>, n: int) -> Seq<DiagnosticV>
    decreases n,
{
    if n <= 0 {
        seq![]
    } else {
        let rest = unused_diags(items, cfg, n - 1);
        match unused_diag(items, cfg, items[n - 1]) {
            Some(d) => rest.push(d),
            None => rest,
        }
    }
}

/// All the diagnostics of a program: never-written variables, then
/// transactions that can never fire, then never-read variables.
pub open spec fn hardware_diags(items: Seq<TopLevel>, cfg: Option<HardwareConfig>, is_ebv: bool) -> Seq<DiagnosticV> {
    orphan_diags(items, cfg, is_ebv, items.len() as int)
        + untriggerable_diags(items, is_ebv, items.len() as int)
        + unused_diags(items, cfg, items.len() as int)
}

pub open spec fn opt_cfg(c: Option<&HardwareConfig>) -> Option<HardwareConfig> {
    match c {
        Some(x) => Some(*x),
        None => None,
    }
}

/// Validates a program for hardware synthesis.
pub struct HardwareValidator;

impl HardwareValidator {
    /// The diagnostics of a program for synthesis: variables never
    /// written (errors for `.ebv` programs, else warnings), transactions
    /// that can never fire (likewise), and variables never read
    /// (warnings). Output pins of the configuration need not be written or
    /// read.
    pub fn validate(program: &Program, hw_config: Option<&HardwareConfig>, target: &str, is_ebv: bool) -> (r: Vec<Diagnostic>)
        ensures
            diag_views(r@) == hardware_diags(program.items@, opt_cfg(hw_config), is_ebv),
    {
        let writes = Self::written_names(program);
        let triggers = Self::settable_names(program);
        let reads = Self::read_names(program);
        let mut out = Self::check_orphan_variables(program, hw_config, &writes, &triggers, is_ebv);
        let mut b = Self::check_untriggerable_transactions(program, &writes, &triggers, is_ebv);
        let mut c = Self::check_unused_variables(program, hw_config, &reads);
        let ghost a0 = diag_views(out@);
        let ghost b0 = diag_views(b@);
        let ghost c0 = diag_views(c@);
        out.append(&mut b);
        assert(diag_views(out@) =~= a0 + b0);
        out.append(&mut c);
        assert(diag_views(out@) =~= a0 + b0 + c0);
        out
    }

    fn check_orphan_variables(program: &Program, hw_config: Option<&HardwareConfig>, writes: &Vec<String>,
        triggers: &Vec<String>, is_ebv: bool) -> (r: Vec<Diagnostic>)
        requires
            name_set(writes@) == program_writes(program.items@, program.items@.len() as int),
            name_set(triggers@) == trigger_names(program.items@, program.items@.len() as int),
        ensures
            diag_views(r@) == orphan_diags(program.items@, opt_cfg(hw_config), is_ebv, program.items@.len() as int),
    {
        let items = &program.items;
        let mut out: Vec<Diagnostic> = Vec::new();
        let mut i: usize = 0;
        assert(diag_views(out@) =~= orphan_diags(items@, opt_cfg(hw_config), is_ebv, 0));
        while i < items.len()
            invariant
                i <= items@.len(),
                items@ == program.items@,
                name_set(writes@) == program_writes(items@, items@.len() as int),
                name_set(triggers@) == trigger_names(items@, items@.len() as int),
                diag_views(out@) == orphan_diags(items@, opt_cfg(hw_config), is_ebv, i as int),
            decreases items@.len() - i,
        {
            match &items[i] {
                TopLevel::StateDecl(decl) => {
                    let pin_only = match (hw_config, decl.address) {
                        (Some(cfg), Some(a)) => output_pin(cfg, a) && !memory_at(cfg, a),
                        _ => false,
                    };
                    if !pin_only && decl.expr.is_none() && !contains_name(writes, decl.name.as_str())
                        && !contains_name(triggers, decl.name.as_str()) {
                        let severity = if is_ebv { Severity::Error } else { Severity::Warning };
                        let mut title = owned("Variable '");
                        title.append(decl.name.as_str());
                        title.append("' is never written");
                        let mut d = Diagnostic::new("EBV001", severity, title.as_str());
                        match decl.span {
                            Some(sp) => { d = d.with_span(sp); }
                            None => {}
                        }
                        d = d.with_explanation("This variable will be optimized to constant 0 by synthesis tools because it is never updated by any transaction or trigger.");
                        let mut hint = owned("Add a transaction that writes to '");
                        hint.append(decl.name.as_str());
                        hint.append("', or remove the declaration.");
                        d = d.with_hint(hint.as_str());
                        let ghost before = out@;
                        out.push(d);
                        assert(diag_views(out@) =~= diag_views(before).push(d@));
                    }
                }
                _ => {}
            }
            i = i + 1;
        }
        out
    }

    fn check_untriggerable_transactions(program: &Program, writes: &Vec<String>, triggers: &Vec<String>,
        is_ebv: bool) -> (r: Vec<Diagnostic>)
        requires
            name_set(writes@) == program_writes(program.items@, program.items@.len() as int),
            name_set(triggers@) == trigger_names(program.items@, program.items@.len() as int),
        ensures
            diag_views(r@) == untriggerable_diags(program.items@, is_ebv, program.items@.len() as int),
    {
        let items = &program.items;
        let mut out: Vec<Diagnostic> = Vec::new();
        let mut i: usize = 0;
        assert(diag_views(out@) =~= untriggerable_diags(items@, is_ebv, 0));
        while i < items.len()
            invariant
                i <= items@.len(),
                items@ == program.items@,
                name_set(writes@) == program_writes(items@, items@.len() as int),
                name_set(triggers@) == trigger_names(items@, items@.len() as int),
                diag_views(out@) == untriggerable_diags(items@, is_ebv, i as int),
            decreases items@.len() - i,
        {
            match &items[i] {
                TopLevel::Transaction(txn) => {
                    let always = match &txn.contract.pre_condition {
                        Expr::Bool(b) => *b,
                        _ => false,
                    };
                    if !always {
                        let dv = txn.contract.pre_condition.extract_dependencies();
                        let ghost live = program_writes(items@, items@.len() as int) + trigger_names(items@, items@.len() as int);
                        let ghost ds = deps(txn.contract.pre_condition@);
                        let mut can = dv.len() == 0;
                        proof {
                            if dv@.len() > 0 {
                                assert(dv@.map_values(|s: String| s@)[0] == dv@[0]@);
                                assert(ds.contains(dv@[0]@));
                            } else {
                                assert(dv@.map_values(|s: String| s@) =~= Seq::<Seq<char>>::empty());
                                assert(ds =~= Set::<Seq<char>>::empty());
                            }
                        }
                        let mut k: usize = 0;
                        while k < dv.len() && !can
                            invariant
                                k <= dv@.len(),
                                name_set(dv@) == ds,
                                name_set(writes@) + name_set(triggers@) == live,
                                can == (dv@.len() == 0 || exists|j: int| 0 <= j < k && live.contains(#[trigger] dv@[j]@)),
                            decreases dv@.len() - k,
                        {
                            if contains_name(writes, dv[k].as_str()) || contains_name(triggers, dv[k].as_str()) {
                                can = true;
                            }
                            k = k + 1;
                        }
                        proof {
                            let m = dv@.map_values(|s: String| s@);
                            if can && dv@.len() > 0 {
                                let j = choose|j: int| 0 <= j < k && live.contains(#[trigger] dv@[j]@);
                                assert(m[j] == dv@[j]@);
                                assert(ds.contains(dv@[j]@));
                            }
                            if !can {
                                assert forall|x: Seq<char>| ds.contains(x) implies !live.contains(x) by {
                                    let j = choose|j: int| 0 <= j < m.len() && m[j] == x;
                                    assert(m[j] == dv@[j]@);
                                }
                            }
                            assert(ds.is_empty() <==> dv@.len() == 0);
                        }
                        if !can {
                            let severity = if is_ebv { Severity::Error } else { Severity::Warning };
                            let mut title = owned("Transaction '");
                            title.append(txn.name.as_str());
                            title.append("' can never be triggered");
                            let mut d = Diagnostic::new("EBV002", severity, title.as_str());
                            match txn.span {
                                Some(sp) => { d = d.with_span(sp); }
                                None => {}
                            }
                            let mut ex = owned("Transaction '");
                            ex.append(txn.name.as_str());
                            ex.append("' has a precondition that depends on variables that are never updated.");
                            d = d.with_explanation(ex.as_str());
                            d = d.with_hint("Add a trigger (trg) or another transaction that updates the variables used in this precondition.");
                            let ghost before = out@;
                            out.push(d);
                            assert(diag_views(out@) =~= diag_views(before).push(d@));
                        }
                    }
                }
                _ => {}
            }
            i = i + 1;
        }
        out
    }

    fn check_unused_variables(program: &Program, hw_config: Option<&HardwareConfig>, reads: &Vec<String>) -> (r: Vec<Diagnostic>)
        requires
            name_set(reads@) == program_reads(program.items@, program.items@.len() as int),
        ensures
            diag_views(r@) == unused_diags(program.items@, opt_cfg(hw_config), program.items@.len() as int),
    {
        let items = &program.items;
        let mut out: Vec<Diagnostic> = Vec::new();
        let mut i: usize = 0;
        assert(diag_views(out@) =~= unused_diags(items@, opt_cfg(hw_config), 0));
        while i < items.len()
            invariant
                i <= items@.len(),
                items@ == program.items@,
                name_set(reads@) == program_reads(items@, items@.len() as int),
                diag_views(out@) == unused_diags(items@, opt_cfg(hw_config), i as int),
            decreases items@.len() - i,
        {
            match &items[i] {
                TopLevel::StateDecl(decl) => {
                    let pin = match (hw_config, decl.address) {
                        (Some(cfg), Some(a)) => output_pin(cfg, a),
                        _ => false,
                    };
                    if !pin && !contains_name(reads, decl.name.as_str()) {
                        let mut title = owned("Variable '");
                        title.append(decl.name.as_str());
                        title.append("' is never used");
                        let mut d = Diagnostic::new("EBV003", Severity::Warning, title.as_str());
                        match decl.span {
                            Some(sp) => { d = d.with_span(sp); }
                            None => {}
                        }
                        d = d.with_explanation("This variable is declared but its value is never read in any transaction or computation.");
                        let ghost before = out@;
                        out.push(d);
                        assert(diag_views(out@) =~= diag_views(before).push(d@));
                    }
                }
                _ => {}
            }
            i = i + 1;
        }
        out
    }

    /// The variables that any transaction writes.
    fn written_names(program: &Program) -> (r: Vec<String>)
        ensures
            name_set(r@) == program_writes(program.items@, program.items@.len() as int),
    {
        let items = &program.items;
        let mut acc: Vec<String> = Vec::new();
        let mut i: usize = 0;
        assert(name_set(acc@) =~= Set::<Seq<char>>::empty());
        while i < items.len()
            invariant
                i <= items@.len(),
                items@ == program.items@,
                no_dup_names(acc@),
                name_set(acc@) == program_writes(items@, i as int),
            decreases items@.len() - i,
        {
            match &items[i] {
                TopLevel::Transaction(t) => collect_writes(&t.body, &mut acc),
                _ => {}
            }
            assert(name_set(acc@) =~= program_writes(items@, i + 1));
            i = i + 1;
        }
        acc
    }

    /// The names of the triggers.
    fn settable_names(program: &Program) -> (r: Vec<String>)
        ensures
            name_set(r@) == trigger_names(program.items@, program.items@.len() as int),
    {
        let items = &program.items;
        let mut acc: Vec<String> = Vec::new();
        let mut i: usize = 0;
        assert(name_set(acc@) =~= Set::<Seq<char>>::empty());
        while i < items.len()
            invariant
                i <= items@.len(),
                items@ == program.items@,
                no_dup_names(acc@),
                name_set(acc@) == trigger_names(items@, i as int),
            decreases items@.len() - i,
        {
            match &items[i] {
                TopLevel::Trigger(t) => add_name(&mut acc, &t.name),
                _ => {}
            }
            assert(name_set(acc@) =~= trigger_names(items@, i + 1));
            i = i + 1;
        }
        acc
    }

    /// The variables that any transaction or definition reads.
    fn read_names(program: &Program) -> (r: Vec<String>)
        ensures
            name_set(r@) == program_reads(program.items@, program.items@.len() as int),
    {
        let items = &program.items;
        let mut acc: Vec<String> = Vec::new();
        let mut i: usize = 0;
        assert(name_set(acc@) =~= Set::<Seq<char>>::empty());
        while i < items.len()
            invariant
                i <= items@.len(),
                items@ == program.items@,
                no_dup_names(acc@),
                name_set(acc@) == program_reads(items@, i as int),
            decreases items@.len() - i,
        {
            match &items[i] {
                TopLevel::Transaction(t) => {
                    add_deps(&mut acc, &t.contract.pre_condition);
                    add_deps(&mut acc, &t.contract.post_condition);
                    collect_reads(&t.body, &mut acc);
                }
                TopLevel::Definition(d) => collect_reads(&d.body, &mut acc),
                _ => {}
            }
            assert(name_set(acc@) =~= program_reads(items@, i + 1));
            i = i + 1;
        }
        acc
    }
}

} // verus!
