use brief::compiler::ast::{
    Contract, Definition, Expr, ForeignSignature, ForeignTarget, OutputType, Program, ResultType, Signature, Statement,
    TopLevel, Type,
};
use brief::compiler::proof_engine::{find_ffi_calls_in_body, format_expr, ProofEngine, SymbolicExecutor};
use brief::compiler::ast::Transaction;
use brief::compiler::sig_casting::{is_valid_projection, verify_sig_projection};
use brief::compiler::symbolic::{
    enumerate_paths, satisfies_postcondition, simplify_binary, symbolic_equals, symbolic_less_than, SymbolicState,
    SymbolicValue,
};

fn same_opt(a: Option<SymbolicValue>, b: Option<SymbolicValue>) -> bool {
    match (a, b) {
        (Some(x), Some(y)) => x.same(&y),
        (None, None) => true,
        _ => false,
    }
}

fn eq(l: Expr, r: Expr) -> Expr {
    Expr::Eq(Box::new(l), Box::new(r))
}

fn x() -> Expr {
    Expr::Identifier("x".to_string())
}

#[test]
fn test_literal_creation() {
    let val = SymbolicValue::int_literal(5);
    assert!(val.same(&SymbolicValue::Literal(5, "int".to_string())));
}

#[test]
fn test_literal_addition() {
    let left = SymbolicValue::int_literal(3);
    let right = SymbolicValue::int_literal(2);
    let result = simplify_binary("+", &left, &right);
    assert!(same_opt(result, Some(SymbolicValue::int_literal(5))));
}

#[test]
fn test_literal_multiplication() {
    let left = SymbolicValue::int_literal(3);
    let right = SymbolicValue::int_literal(4);
    let result = simplify_binary("*", &left, &right);
    assert!(same_opt(result, Some(SymbolicValue::int_literal(12))));
}

#[test]
fn test_identity_addition_zero() {
    let left = SymbolicValue::int_literal(0);
    let right = SymbolicValue::int_literal(5);
    let result = simplify_binary("+", &left, &right);
    assert!(same_opt(result, Some(SymbolicValue::int_literal(5))));
}

#[test]
fn test_absorption_multiplication_zero() {
    let left = SymbolicValue::int_literal(0);
    let right = SymbolicValue::int_literal(999);
    let result = simplify_binary("*", &left, &right);
    assert!(same_opt(result, Some(SymbolicValue::int_literal(0))));
}

#[test]
fn test_symbolic_equals_literals() {
    let left = SymbolicValue::int_literal(5);
    let right = SymbolicValue::int_literal(5);
    assert!(symbolic_equals(&left, &right));
    let right_diff = SymbolicValue::int_literal(3);
    assert!(!symbolic_equals(&left, &right_diff));
}

#[test]
fn test_symbolic_less_than_literals() {
    let left = SymbolicValue::int_literal(3);
    let right = SymbolicValue::int_literal(5);
    assert!(symbolic_less_than(&left, &right));
    let reverse = SymbolicValue::int_literal(5);
    let base = SymbolicValue::int_literal(3);
    assert!(!symbolic_less_than(&reverse, &base));
}

#[test]
fn test_state_assign_literal() {
    let mut state = SymbolicState::empty();
    state.assign("x", &Expr::Integer(5));
    let val = state.get_value("x");
    assert!(same_opt(val, Some(SymbolicValue::int_literal(5))));
}

#[test]
fn test_satisfies_postcondition_literal_equality() {
    let mut state = SymbolicState::empty();
    state.assign("x", &Expr::Integer(5));
    assert!(satisfies_postcondition(&eq(x(), Expr::Integer(5)), &state));
}

#[test]
fn test_satisfies_postcondition_literal_inequality() {
    let mut state = SymbolicState::empty();
    state.assign("x", &Expr::Integer(5));
    assert!(!satisfies_postcondition(&eq(x(), Expr::Integer(3)), &state));
}

#[test]
fn test_satisfies_postcondition_conjunction() {
    let mut state = SymbolicState::empty();
    state.assign("x", &Expr::Integer(5));
    state.assign("y", &Expr::Integer(10));
    let postcond = Expr::And(
        Box::new(eq(x(), Expr::Integer(5))),
        Box::new(eq(Expr::Identifier("y".to_string()), Expr::Integer(10))),
    );
    assert!(satisfies_postcondition(&postcond, &state));
}

#[test]
fn test_satisfies_postcondition_disjunction() {
    let mut state = SymbolicState::empty();
    state.assign("x", &Expr::Integer(5));
    let postcond = Expr::Or(Box::new(eq(x(), Expr::Integer(5))), Box::new(eq(x(), Expr::Integer(3))));
    assert!(satisfies_postcondition(&postcond, &state));
}

#[test]
fn division_rounds_toward_zero() {
    let r = simplify_binary("/", &SymbolicValue::int_literal(-7), &SymbolicValue::int_literal(2));
    assert!(same_opt(r, Some(SymbolicValue::int_literal(-3))));
    let z = simplify_binary("/", &SymbolicValue::int_literal(7), &SymbolicValue::int_literal(0));
    assert!(z.is_none());
}

#[test]
fn assignments_see_earlier_values() {
    let mut state = SymbolicState::empty();
    state.assign("x", &Expr::Integer(2));
    state.assign("y", &Expr::Add(Box::new(x()), Box::new(Expr::Integer(3))));
    assert!(same_opt(state.get_value("y"), Some(SymbolicValue::int_literal(5))));
    let unknown = Expr::Add(Box::new(Expr::Identifier("z".to_string())), Box::new(Expr::Integer(0)));
    state.assign("w", &unknown);
    assert!(same_opt(state.get_value("w"), Some(SymbolicValue::Identifier("z".to_string()))));
}

#[test]
fn guards_split_paths() {
    let body = vec![
        Statement::Assignment { lhs: x(), expr: Expr::Integer(1), timeout: None },
        Statement::Guarded {
            condition: eq(x(), Expr::Integer(1)),
            statements: vec![Statement::Assignment { lhs: x(), expr: Expr::Integer(2), timeout: None }],
        },
        Statement::Term(vec![]),
    ];
    let paths = enumerate_paths(&body);
    assert_eq!(paths.len(), 2);
    assert!(same_opt(paths[0].get_value("x"), Some(SymbolicValue::int_literal(2))));
    assert!(same_opt(paths[1].get_value("x"), Some(SymbolicValue::int_literal(1))));
    assert_eq!(paths[0].path_constraints.len(), 1);
    assert!(matches!(paths[1].path_constraints[0], Expr::Not(_)));
}

#[test]
fn test_valid_single_projection() {
    let defn_output = OutputType::Single(Type::Bool);
    assert!(is_valid_projection(&[Type::Bool], &defn_output));
}

#[test]
fn test_valid_union_projection() {
    let defn_output = OutputType::Union(vec![Type::Bool, Type::String]);
    assert!(is_valid_projection(&[Type::Bool], &defn_output));
}

#[test]
fn test_valid_tuple_projection() {
    let defn_output = OutputType::Tuple(vec![Type::Bool, Type::String, Type::Int]);
    assert!(is_valid_projection(&[Type::Bool, Type::String], &defn_output));
}

#[test]
fn test_invalid_projection_not_in_defn() {
    let defn_output = OutputType::Union(vec![Type::Bool, Type::String]);
    assert!(!is_valid_projection(&[Type::Int], &defn_output));
}

#[test]
fn test_invalid_tuple_projection_out_of_order() {
    let defn_output = OutputType::Tuple(vec![Type::Bool, Type::String, Type::Int]);
    let result = is_valid_projection(&[Type::String, Type::Bool], &defn_output);
    assert!(result);
}

fn defn(outputs: Vec<Type>, output_type: Option<OutputType>) -> Definition {
    Definition {
        name: "d".to_string(),
        type_params: vec![],
        parameters: vec![],
        outputs,
        output_type,
        output_names: vec![],
        contract: Contract::new(Expr::Bool(true), Expr::Bool(true)),
        body: vec![],
        is_lambda: false,
    }
}

fn sig(types: Vec<Type>) -> Signature {
    Signature {
        name: "s".to_string(),
        input_types: vec![],
        result_type: ResultType::Projection(types),
        source: Some("d".to_string()),
        alias: None,
        bound_defn: None,
    }
}

#[test]
fn projections_are_checked_against_outputs() {
    assert!(verify_sig_projection(&sig(vec![Type::Int]), &defn(vec![Type::Int], None)).is_ok());
    assert_eq!(
        verify_sig_projection(&sig(vec![Type::Int, Type::Bool]), &defn(vec![Type::Int], None)).unwrap_err(),
        "Sig 's' requests 2 types, but defn 'd' produces 1"
    );
    assert_eq!(
        verify_sig_projection(&sig(vec![Type::Bool]), &defn(vec![Type::Int], None)).unwrap_err(),
        "Sig 's' requests Bool but defn 'd' produces Int"
    );
    assert_eq!(
        verify_sig_projection(&sig(vec![Type::Int]), &defn(vec![], Some(OutputType::Union(vec![Type::Bool, Type::String])))).unwrap_err(),
        "Sig 's' requests type Int not producible by defn 'd'\nDefn produces: [Bool, String]"
    );
}

fn prog(items: Vec<TopLevel>) -> Program {
    Program { items, comments: vec![], reactor_speed: None }
}

#[test]
fn sig_projection_findings_name_the_types() {
    let p = prog(vec![
        TopLevel::Definition(defn(vec![], Some(OutputType::Union(vec![Type::Bool, Type::String])))),
        TopLevel::Signature(sig(vec![Type::Int])),
        TopLevel::Signature(sig(vec![Type::Bool])),
    ]);
    let mut pe = ProofEngine::new();
    pe.check_sig_projections(&p);
    let errs = pe.errors();
    assert_eq!(errs.len(), 1);
    assert_eq!(errs[0].code, "B001");
    assert_eq!(
        errs[0].explanation,
        "Sig 's': Sig 's' requests type Int not producible by defn 'd'\nDefn produces: [Bool, String]"
    );
    assert_eq!(
        errs[0].proof_chain,
        vec![
            "1. Signature 's' projects from definition 'd'".to_string(),
            "2. Requested types: [Int]".to_string(),
            "3. Available types from definition: [Bool, String]".to_string(),
        ]
    );
    assert_eq!(errs[0].hints, vec!["ensure all requested types are produced by the definition".to_string()]);
}

#[test]
fn sig_projection_uses_the_last_definition_of_a_name() {
    let p = prog(vec![
        TopLevel::Definition(defn(vec![Type::Bool], None)),
        TopLevel::Definition(defn(vec![Type::Int], None)),
        TopLevel::Signature(sig(vec![Type::Int])),
    ]);
    let mut pe = ProofEngine::new();
    pe.check_sig_projections(&p);
    assert!(pe.errors().is_empty());
    let mut unsourced = sig(vec![Type::Int]);
    unsourced.source = Some("missing".to_string());
    let mut pe = ProofEngine::new();
    pe.check_sig_projections(&prog(vec![TopLevel::Signature(unsourced)]));
    assert!(pe.errors().is_empty());
}

fn call(name: &str) -> Expr {
    Expr::Call(name.to_string(), vec![Expr::Call("inner".to_string(), vec![])])
}

#[test]
fn foreign_calls_are_found_in_bodies() {
    let body = vec![
        Statement::Let { name: "a".to_string(), ty: None, expr: Some(Expr::Add(Box::new(call("f")), Box::new(call("g")))), address: None, bit_range: None, is_override: false },
        Statement::Guarded { condition: call("f"), statements: vec![Statement::Expression(Expr::Not(Box::new(call("f"))))] },
        Statement::Assignment { lhs: Expr::OwnedRef("x".to_string()), expr: call("inner"), timeout: None },
    ];
    let names = vec!["f".to_string(), "inner".to_string()];
    let calls = find_ffi_calls_in_body(&body, &names);
    let got: Vec<&str> = calls.iter().map(|(n, c)| { assert_eq!(c, "frgn call"); n.as_str() }).collect();
    assert_eq!(got, vec!["f", "f", "inner"]);
}

#[test]
fn foreign_error_handling_adds_no_finding() {
    let signature = ForeignSignature {
        name: "f".to_string(), location: "std::io::println".to_string(), wasm_impl: None, wasm_setup: None,
        inputs: vec![], success_output: vec![], result_type: ResultType::VoidType, error_type_name: "E".to_string(),
        error_fields: vec![], input_layout: None, output_layout: None, precondition: None, postcondition: None,
        buffer_mode: None, ffi_kind: None, span: None,
    };
    let mut d = defn(vec![], None);
    d.body = vec![Statement::Expression(call("f"))];
    let p = prog(vec![
        TopLevel::ForeignBinding { name: "f".to_string(), toml_path: "f.toml".to_string(), signature, target: ForeignTarget::Native, span: None },
        TopLevel::Definition(d),
    ]);
    let mut pe = ProofEngine::new();
    pe.check_ffi_error_handling(&p);
    assert!(pe.errors().is_empty());
}

fn term(vals: Vec<Option<Expr>>) -> Statement {
    Statement::Term(vals)
}

#[test]
fn true_assertions_report_the_first_false_path() {
    let mut d = defn(vec![Type::Bool], None);
    d.body = vec![
        term(vec![Some(Expr::Bool(true)), Some(x())]),
        Statement::Guarded {
            condition: x(),
            statements: vec![term(vec![Some(Expr::Integer(1)), Some(Expr::Bool(true)), Some(Expr::Bool(false))])],
        },
        term(vec![Some(Expr::Bool(false))]),
    ];
    let mut pe = ProofEngine::new();
    pe.verify_true_assertion("always", &d);
    let errs = pe.errors();
    assert_eq!(errs.len(), 1);
    assert_eq!(errs[0].code, "P006");
    assert_eq!(errs[0].explanation, "signature 'always' declares '-> true' but exit path 1 returns false");
    assert_eq!(errs[0].proof_chain[2], "3. Bool output slot 1 returns false");
    assert_eq!(errs[0].examples, vec!["when this path executes, the contract is violated".to_string()]);
    let mut ok = defn(vec![Type::Bool], None);
    ok.body = vec![term(vec![Some(Expr::Bool(true))]), term(vec![None])];
    let mut pe = ProofEngine::new();
    pe.verify_true_assertion("always", &ok);
    assert!(pe.errors().is_empty());
}

fn b(e: Expr) -> Box<Expr> {
    Box::new(e)
}

fn id(n: &str) -> Expr {
    Expr::Identifier(n.to_string())
}

fn set(n: &str, v: Expr) -> Statement {
    Statement::Assignment { lhs: Expr::OwnedRef(n.to_string()), expr: v, timeout: None }
}

fn transaction(name: &str, pre: Expr, post: Expr, body: Vec<Statement>) -> Transaction {
    Transaction {
        is_async: false,
        is_reactive: false,
        name: name.to_string(),
        parameters: vec![],
        contract: Contract::new(pre, post),
        body,
        reactor_speed: None,
        span: None,
        is_lambda: false,
        dependencies: vec![],
    }
}

#[test]
fn symbolic_executor_accepts_an_increment() {
    let post = Expr::Eq(b(id("count")), b(Expr::Add(b(Expr::PriorState("count".to_string())), b(Expr::Integer(1)))));
    let t = transaction(
        "inc",
        Expr::Ge(b(id("count")), b(Expr::Integer(0))),
        post,
        vec![set("count", Expr::Add(b(id("count")), b(Expr::Integer(1)))), Statement::Term(vec![])],
    );
    let mut ex = SymbolicExecutor::new();
    assert!(ex.verify_transaction(&t).is_empty());
}

#[test]
fn symbolic_executor_reports_a_wrong_value() {
    let t = transaction("t", Expr::Bool(true), Expr::Eq(b(id("x")), b(Expr::Integer(5))), vec![set("x", Expr::Integer(3)), Statement::Term(vec![])]);
    let mut ex = SymbolicExecutor::new();
    let errs = ex.verify_transaction(&t);
    assert_eq!(errs.len(), 1);
    assert_eq!(errs[0].code, "P008");
    assert_eq!(errs[0].explanation, "transaction 't': post-condition not satisfied on path 0");
    assert_eq!(errs[0].proof_chain, vec!["1. Pre-condition: true".to_string(), "3. Post-condition: x == 5".to_string()]);
}

#[test]
fn symbolic_executor_follows_both_sides_of_a_guard() {
    let body = vec![
        Statement::Guarded { condition: id("flag"), statements: vec![set("x", Expr::Integer(5)), Statement::Term(vec![])] },
        set("x", Expr::Integer(1)),
        Statement::Term(vec![]),
    ];
    let t = transaction("g", Expr::Bool(true), Expr::Eq(b(id("x")), b(Expr::Integer(5))), body);
    let mut ex = SymbolicExecutor::new();
    let errs = ex.verify_transaction(&t);
    assert_eq!(errs.len(), 1);
    assert_eq!(errs[0].explanation, "transaction 'g': post-condition not satisfied on path 1");
    assert_eq!(
        errs[0].proof_chain,
        vec![
            "1. Pre-condition: true".to_string(),
            "2. Path constraints:".to_string(),
            "   1. flag".to_string(),
            "3. Post-condition: x == 5".to_string(),
        ]
    );
}

#[test]
fn symbolic_executor_wraps_arithmetic() {
    let big = Expr::Add(b(Expr::Integer(i64::MAX)), b(Expr::Integer(1)));
    let t = transaction("w", Expr::Bool(true), Expr::Eq(b(big), b(Expr::Integer(i64::MIN))), vec![Statement::Term(vec![])]);
    let mut ex = SymbolicExecutor::new();
    assert!(ex.verify_transaction(&t).is_empty());
}

#[test]
fn symbolic_executor_lambda_definition_needs_a_proof() {
    let mut d = defn(vec![Type::Bool], None);
    d.name = "check".to_string();
    d.is_lambda = true;
    d.contract = Contract::new(Expr::Gt(b(id("a")), b(Expr::Integer(0))), id("ok"));
    let mut ex = SymbolicExecutor::new();
    let errs = ex.verify_definition(&d);
    assert_eq!(errs.len(), 1);
    assert_eq!(errs[0].code, "P015");
    assert_eq!(errs[0].title, "Lambda definition requires provable postcondition");
    assert_eq!(
        errs[0].explanation,
        "Lambda definition 'check' has no body. Ensure the postcondition can be proven from the precondition alone."
    );
    assert_eq!(errs[0].hints, vec!["Consider adding a body or simplifying the postcondition".to_string()]);
    assert!(errs[0].span.is_some());
    d.contract = Contract::new(Expr::Gt(b(id("a")), b(Expr::Integer(0))), Expr::Bool(true));
    let mut ex = SymbolicExecutor::new();
    assert!(ex.verify_definition(&d).is_empty());
}

#[test]
fn verify_contracts_repeats_what_the_executor_has_gathered() {
    let bad = transaction("t", Expr::Bool(true), Expr::Eq(b(id("x")), b(Expr::Integer(5))), vec![set("x", Expr::Integer(3)), Statement::Term(vec![])]);
    let good = defn(vec![], None);
    let p = prog(vec![TopLevel::Transaction(bad), TopLevel::Definition(good)]);
    let mut pe = ProofEngine::new();
    pe.verify_contracts(&p, &vec![]);
    let codes: Vec<String> = pe.errors().iter().map(|e| e.code.clone()).collect();
    assert_eq!(codes, vec!["P008".to_string(), "P008".to_string()]);
}

#[test]
fn float_literals_are_written_with_their_texts() {
    let bits = 1.5f64.to_bits();
    let e = Expr::Eq(b(id("x")), b(Expr::Float(bits)));
    assert_eq!(format_expr(&e, &vec![(bits, "1.5".to_string())]), "x == 1.5");
    assert_eq!(format_expr(&e, &vec![]), "x == <float>");
    let call = Expr::Call("f".to_string(), vec![Expr::Integer(-2), Expr::String("s".to_string()), Expr::Neg(b(id("y")))]);
    assert_eq!(format_expr(&call, &vec![]), "f(-2, \"s\", -y)");
    assert_eq!(format_expr(&Expr::ListLen(b(id("l"))), &vec![]), "<expr>");
}
