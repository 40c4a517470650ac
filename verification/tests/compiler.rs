use brief::compiler::analysis::address_space::{AddressSpace, AddressSpaceAnalyzer};
use brief::compiler::analysis::cross_reference::{CrossRefErrorType, CrossReferenceValidator};
use brief::compiler::analysis::dataflow::{DataflowAnalyzer, DataflowError, ProtocolError, TransactionProtocolVerifier};
use brief::compiler::analysis::entry_point::{EntryPointAnalyzer, EntryPointError};
use brief::compiler::ast::{
    Contract, Definition, Expr, HardwareConfig, InterfaceConfig, IoMapping, MemoryMapping, Program, ProjectConfig, StateDecl,
    Statement, TargetConfig, TopLevel, Transaction, TriggerDeclaration, Type,
};
use brief::compiler::errors::Severity;
use brief::compiler::ffi::error::FfiError;
use brief::compiler::ffi::registry::{resolve_location_to_impl, FunctionRegistry};
use brief::compiler::ffi::types::{brief_type_to_ffi, ffi_type_to_brief, FfiType};
use brief::compiler::hardware::{HardwareLib, HardwareLibError};
use brief::compiler::hardware_validator::HardwareValidator;
use brief::compiler::proof_engine::{ProofEngine, ProofError};
use brief::compiler::wrapper::js::{
    analyze_javascript, analyze_typescript, js_func_to_frgn_sig, js_type_to_brief, parse_ts_arrow_function,
    parse_ts_function, parse_ts_method, parse_ts_parameters,
};
use brief::compiler::wrapper::python::{analyze_python_source, parse_py_async_function, parse_py_function, py_type_to_brief, py_type_to_brief_checked};

// ---------------------------------------------------------------------------
// Helpers that build programs by hand

fn mapping(ty: &str, bits: usize) -> MemoryMapping {
    MemoryMapping { size: 1, mem_type: ty.to_string(), element_bits: bits }
}

fn config(memory: Vec<(&str, MemoryMapping)>, io: Option<Vec<(&str, IoMapping)>>) -> HardwareConfig {
    HardwareConfig {
        project: ProjectConfig { name: "p".to_string(), version: "0.1.0".to_string() },
        target: TargetConfig { fpga: "xc".to_string(), clock_hz: 100_000_000 },
        interface: InterfaceConfig { name: "axi".to_string(), address_width: None, data_width: None },
        memory: memory.into_iter().map(|(k, m)| (k.to_string(), m)).collect(),
        io: io.map(|v| v.into_iter().map(|(k, m)| (k.to_string(), m)).collect()),
    }
}

fn state(name: &str, address: Option<u64>, init: Option<Expr>) -> TopLevel {
    TopLevel::StateDecl(StateDecl {
        name: name.to_string(),
        ty: Type::Int,
        expr: init,
        address,
        bit_range: None,
        is_override: false,
        os_mode: false,
        span: None,
    })
}

fn ident(n: &str) -> Expr {
    Expr::Identifier(n.to_string())
}

fn assign(name: &str, value: Expr) -> Statement {
    Statement::Assignment { lhs: ident(name), expr: value, timeout: None }
}

fn txn(name: &str, pre: Expr, post: Expr, body: Vec<Statement>, is_async: bool, is_reactive: bool) -> TopLevel {
    TopLevel::Transaction(Transaction {
        is_async,
        is_reactive,
        name: name.to_string(),
        parameters: vec![],
        contract: Contract::new(pre, post),
        body,
        reactor_speed: None,
        span: None,
        is_lambda: false,
        dependencies: vec![],
    })
}

fn program(items: Vec<TopLevel>) -> Program {
    Program { items, comments: vec![], reactor_speed: None }
}

// ---------------------------------------------------------------------------
// Foreign function interface

#[test]
fn test_ffi_error_display() {
    let err = FfiError::FileNotFound("test.toml".to_string());
    assert!(err.to_string().contains("not found"));
}

#[test]
fn test_registry_basics() {
    let registry = FunctionRegistry::new();
    assert!(!registry.contains("test"));
}

#[test]
fn test_location_resolution() {
    assert!(resolve_location_to_impl("std::f64::sqrt").is_some());
    assert!(resolve_location_to_impl("std::io::println").is_some());
    assert!(resolve_location_to_impl("unknown::function").is_none());
}

#[test]
fn test_brief_type_to_ffi_basic() {
    assert!(matches!(brief_type_to_ffi(&Type::String).unwrap(), FfiType::String));
    assert!(matches!(brief_type_to_ffi(&Type::Int).unwrap(), FfiType::Int));
    assert!(matches!(brief_type_to_ffi(&Type::Float).unwrap(), FfiType::Float));
    assert!(matches!(brief_type_to_ffi(&Type::Bool).unwrap(), FfiType::Bool));
    assert!(matches!(brief_type_to_ffi(&Type::Void).unwrap(), FfiType::Void));
}

#[test]
fn test_ffi_type_roundtrip() {
    let ffi = FfiType::String;
    let brief = ffi_type_to_brief(&ffi);
    assert!(matches!(brief, Type::String));
}

#[test]
fn test_ffi_type_display() {
    assert_eq!(FfiType::String.to_string(), "String");
    assert_eq!(FfiType::Int.to_string(), "Int");
    assert_eq!(FfiType::Array(Box::new(FfiType::String)).to_string(), "[String]");
}

// ---------------------------------------------------------------------------
// Python

#[test]
fn test_py_type_to_brief() {
    assert_eq!(py_type_to_brief("int"), "Int");
    assert_eq!(py_type_to_brief("str"), "String");
    assert_eq!(py_type_to_brief("list"), "List<Value>");
    assert_eq!(py_type_to_brief("None"), "Void");
    assert_eq!(py_type_to_brief("Optional[str]"), "String");
    assert_eq!(py_type_to_brief("Union[int, str]"), "Int");
}

#[test]
fn test_parse_py_function() {
    let result = parse_py_function("def add(a: int, b: int) -> int: pass", false);
    assert!(result.is_some());
    let func = result.unwrap();
    assert_eq!(func.name, "add");
    assert_eq!(func.return_type, "Int");
    assert_eq!(func.parameters.len(), 2);
}

#[test]
fn test_parse_py_function_with_defaults() {
    let result = parse_py_function("def greet(name: str, greeting: str = 'Hello') -> str: pass", false);
    assert!(result.is_some());
    let func = result.unwrap();
    assert_eq!(func.parameters.len(), 2);
}

#[test]
fn test_parse_py_function_varargs() {
    let result = parse_py_function("def sum(*args: int) -> int: pass", false);
    assert!(result.is_some());
    let func = result.unwrap();
    assert!(func.is_variadic);
}

#[test]
fn py_parameters_keep_names_and_types() {
    let func = parse_py_function("def f(x, y: float = 1.0, **kw) -> None:", false).unwrap();
    assert_eq!(
        func.parameters,
        vec![
            ("x".to_string(), "Int".to_string()),
            ("y".to_string(), "Float".to_string()),
            ("kw".to_string(), "Data".to_string()),
        ]
    );
    assert_eq!(func.return_type, "Void");
    assert!(func.is_variadic);
}

#[test]
fn py_decorated_and_async_definitions() {
    let func = parse_py_function("@staticmethod def double(n: int) -> int:", false).unwrap();
    assert_eq!(func.name, "double");
    let a = parse_py_async_function("async def fetch(url: str) -> bytes:", false).unwrap();
    assert_eq!(a.name, "async_fetch");
    assert_eq!(a.return_type, "Data");
    assert_eq!(a.comments, vec!["async".to_string()]);
    assert!(parse_py_function("x = 1", false).is_none());
}

#[test]
fn py_source_lists_functions_in_order() {
    let src = "# helpers\n\ndef a() -> int:\n    return 1\nasync def b(x: str):\n    pass\n";
    let fs = analyze_python_source(src);
    let names: Vec<&str> = fs.iter().map(|f| f.name.as_str()).collect();
    assert_eq!(names, vec!["a", "async_b"]);
}

#[test]
fn py_unknown_annotations_stand_for_themselves() {
    assert_eq!(py_type_to_brief("  MyClass "), "MyClass");
    assert_eq!(py_type_to_brief("KeyError"), "Error");
    assert_eq!(py_type_to_brief("Dict[str, int]"), "Data");
}

// ---------------------------------------------------------------------------
// JavaScript and TypeScript

#[test]
fn test_js_type_to_brief() {
    assert_eq!(js_type_to_brief("string"), "String");
    assert_eq!(js_type_to_brief("number"), "Int");
    assert_eq!(js_type_to_brief("boolean"), "Bool");
    assert_eq!(js_type_to_brief("string | null"), "String");
    assert_eq!(js_type_to_brief("Array<string>"), "List<Value>");
    assert_eq!(js_type_to_brief("Promise<number>"), "Void");
}

#[test]
fn test_parse_ts_function() {
    let result = parse_ts_function("function add(a: number, b: number): number");
    assert!(result.is_some());
    let func = result.unwrap();
    assert_eq!(func.name, "add");
    assert_eq!(func.return_type, "Int");
    assert_eq!(func.parameters.len(), 2);
}

#[test]
fn test_parse_ts_arrow() {
    let result = parse_ts_arrow_function("(a: string, b: number) => boolean");
    assert!(result.is_some());
    let func = result.unwrap();
    assert_eq!(func.return_type, "Bool");
}

#[test]
fn ts_arrow_named_by_parameter_count() {
    let func = parse_ts_arrow_function("(a: string, b: number) => boolean").unwrap();
    assert_eq!(func.name, "arrow_2");
}

#[test]
fn ts_parameters_handle_optional_rest_and_generics() {
    // Only a `?` that ends the whole parameter is dropped.
    let ps = parse_ts_parameters("a?: string, ...rest: number[], m: Map<string, number>, b?");
    assert_eq!(
        ps,
        vec![
            ("a?".to_string(), "String".to_string()),
            ("rest".to_string(), "Int".to_string()),
            ("m".to_string(), "Data".to_string()),
            ("b".to_string(), "Int".to_string()),
        ]
    );
}

#[test]
fn ts_interface_method_and_exports() {
    let m = parse_ts_method("getName(id: number): string;").unwrap();
    assert_eq!(m.name, "getName");
    assert_eq!(m.return_type, "String");
    assert!(parse_ts_method("x: (a) => void").is_none());
    let e = parse_ts_function("export declare function size(): number;").unwrap();
    assert_eq!(e.name, "size");
    assert_eq!(e.return_type, "Int");
}

#[test]
fn ts_source_skips_comments() {
    let src = "// util\nexport function f(x: number): void;\n/* block */\nfoo(): boolean;\n";
    let fs = analyze_typescript(src).unwrap();
    let names: Vec<&str> = fs.iter().map(|f| f.name.as_str()).collect();
    assert_eq!(names, vec!["f", "foo"]);
}

#[test]
fn js_arrow_functions_take_jsdoc_comments() {
    let src = "const add = (a, b = 2) => a + b;\n";
    let fs = analyze_javascript(src).unwrap();
    assert_eq!(fs.len(), 1);
    assert_eq!(fs[0].name, "add ");
    assert_eq!(fs[0].parameters.len(), 2);
    assert_eq!(fs[0].return_type, "Void");
}

#[test]
fn js_frgn_sig_lists_parameters() {
    let func = parse_ts_function("function add(a: number, b: number): number").unwrap();
    assert_eq!(js_func_to_frgn_sig(&func), "frgn sig add: a: Int, b: Int -> Int;");
}

// ---------------------------------------------------------------------------
// Address spaces and cross references

#[test]
fn test_address_classification() {
    assert!(matches!(
        AddressSpaceAnalyzer::classify_address(0x40A80000, &mapping("bram", 16)),
        AddressSpace::FpgaInternal
    ));
    assert!(matches!(
        AddressSpaceAnalyzer::classify_address(0x8000A000, &mapping("flipflop", 8)),
        AddressSpace::Mmio(0x8000A000)
    ));
    assert!(matches!(
        AddressSpaceAnalyzer::classify_address(0x10000000, &mapping("ddr4", 32)),
        AddressSpace::Ddr4
    ));
}

#[test]
fn address_texts_are_read_as_hexadecimal() {
    assert_eq!(AddressSpaceAnalyzer::parse_address("0x40A80000"), 0x40A80000);
    assert_eq!(AddressSpaceAnalyzer::parse_address("0X1f"), 0x1f);
    assert_eq!(AddressSpaceAnalyzer::parse_address("0x0xFF"), 0xFF);
    assert_eq!(AddressSpaceAnalyzer::parse_address("zz"), 0);
    assert_eq!(AddressSpaceAnalyzer::parse_address("0x1ffffffffffffffff"), 0);
}

#[test]
fn analyzer_classifies_configured_addresses_only() {
    let cfg = config(vec![("0x40A80000", mapping("bram", 16)), ("0x4000A000", mapping("ff", 8))], None);
    let a = AddressSpaceAnalyzer::new(Some(&cfg));
    assert_eq!(a.classify("0x40A80000"), AddressSpace::FpgaInternal);
    assert_eq!(a.classify("0x4000A000"), AddressSpace::Mmio(0x4000A000));
    assert_eq!(a.classify("0x00000000"), AddressSpace::Unknown);
    assert!(!a.is_cpu_accessible("0x40A80000"));
    assert!(a.is_cpu_accessible("0x12345678"));
    assert!(a.is_fpga_internal("0x40A80000"));
    let none = AddressSpaceAnalyzer::new(None);
    assert_eq!(none.classify("0x40A80000"), AddressSpace::Unknown);
}

#[test]
fn writes_to_fpga_memory_are_reported() {
    let cfg = config(vec![("0x40A80000", mapping("bram", 16))], None);
    let a = AddressSpaceAnalyzer::new(Some(&cfg));
    let p = program(vec![
        state("buf", Some(0x40A80000), None),
        txn("fill", Expr::Bool(true), Expr::Bool(true), vec![assign("buf", Expr::Integer(1)), assign("buf", Expr::Integer(2))], false, false),
    ]);
    let errs = a.validate_program(&p);
    assert_eq!(errs.len(), 2);
    assert_eq!(errs[0].variable, "buf");
    assert_eq!(errs[0].address, "0x40A80000");
    assert!(errs[0].to_string().starts_with("Address violation for 'buf' at 0x40A80000: Variable 'buf'"));
}

#[test]
fn test_address_validation() {
    let cfg = config(vec![("0x40000000", mapping("bram", 16))], None);
    let v = CrossReferenceValidator::new(&cfg);
    let p = program(vec![
        state("ok", Some(0x40000000), None),
        state("missing", Some(0x50000000), None),
        TopLevel::Trigger(TriggerDeclaration {
            name: "btn".to_string(),
            ty: Type::Bool,
            address: 0x60000000,
            bit_range: None,
            stages: vec![],
            condition: None,
            span: None,
        }),
    ]);
    let errs = v.validate(&p);
    assert_eq!(errs.len(), 2);
    assert_eq!(errs[0].error_type, CrossRefErrorType::AddressNotInHardwareConfig);
    assert_eq!(errs[0].to_string(), "Variable 'missing' uses address 0x50000000 which is not defined in hardware.toml");
    assert_eq!(errs[1].error_type, CrossRefErrorType::TriggerAddressNotInHardwareConfig);
}

#[test]
fn lower_case_configuration_addresses_match() {
    let cfg = config(vec![("0x4000a000", mapping("ff", 8))], None);
    let v = CrossReferenceValidator::new(&cfg);
    let p = program(vec![state("r", Some(0x4000A000), None)]);
    assert!(v.validate(&p).is_empty());
}

#[test]
fn shared_addresses_without_bit_ranges_overlap() {
    let cfg = config(vec![], None);
    let v = CrossReferenceValidator::new(&cfg);
    let p = program(vec![state("a", Some(16), None), state("b", Some(16), None), state("c", Some(32), None)]);
    let errs = v.check_address_consistency(&p);
    assert_eq!(errs.len(), 1);
    assert_eq!(errs[0].variable, "a, b");
    assert_eq!(errs[0].address, "0x00000010");
    assert_eq!(errs[0].error_type, CrossRefErrorType::ImplicitOverlap);
}

// ---------------------------------------------------------------------------
// Entry points and data flow

#[test]
fn test_find_entry_point() {
    let p = program(vec![
        state("x", None, Some(Expr::Integer(0))),
        txn("idle", Expr::Ge(Box::new(ident("x")), Box::new(Expr::Integer(0))), Expr::Bool(true), vec![], false, true),
    ]);
    let e = EntryPointAnalyzer::find_entry_point(&p).unwrap();
    assert_eq!(e.transaction_name, "idle");
    assert!(!e.is_async);
    assert_eq!(e.parallel_async, 0);
}

#[test]
fn two_synchronous_starters_are_ambiguous() {
    let p = program(vec![
        txn("a", Expr::Bool(true), Expr::Bool(true), vec![], false, false),
        txn("b", Expr::Bool(true), Expr::Bool(true), vec![], false, false),
    ]);
    let err = EntryPointAnalyzer::find_entry_point(&p).unwrap_err();
    assert_eq!(
        err.to_string(),
        "Multiple transactions can fire from initial state: a, b. Specify which is the entry point or make some async."
    );
}

#[test]
fn no_starter_is_an_error_and_async_starters_are_counted() {
    let p = program(vec![txn("a", Expr::Bool(false), Expr::Bool(true), vec![], false, false)]);
    assert!(matches!(EntryPointAnalyzer::find_entry_point(&p), Err(EntryPointError::NoEntryPoint)));
    let q = program(vec![
        txn("a", Expr::Bool(true), Expr::Bool(true), vec![], true, false),
        txn("b", Expr::Bool(true), Expr::Bool(true), vec![], true, false),
        txn("c", Expr::Bool(true), Expr::Bool(true), vec![], true, false),
    ]);
    let e = EntryPointAnalyzer::find_entry_point(&q).unwrap();
    assert_eq!(e.transaction_name, "a");
    assert_eq!(e.parallel_async, 2);
    assert!(e.is_async);
}

#[test]
fn constants_fold_in_the_initial_state() {
    let p = program(vec![state("flag", None, Some(Expr::Bool(true)))]);
    let e = Expr::Add(Box::new(ident("flag")), Box::new(Expr::Mul(Box::new(Expr::Integer(3)), Box::new(Expr::Integer(4)))));
    assert_eq!(EntryPointAnalyzer::evaluate_to_constant(&e, &p), 13);
    assert_eq!(EntryPointAnalyzer::get_initial_value("flag", &p), Some(true));
    assert_eq!(EntryPointAnalyzer::get_initial_value("other", &p), None);
}

#[test]
fn test_dataflow_analysis() {
    let p = program(vec![txn("a", Expr::Bool(true), Expr::Bool(true), vec![], false, false)]);
    assert!(TransactionProtocolVerifier::verify(&p).is_empty());
    let e = ProtocolError::PreconditionNotMet {
        transaction: "t".to_string(),
        required: "ctl=1".to_string(),
        missing: "ctl".to_string(),
    };
    assert_eq!(e.to_string(), "Transaction 't' requires ctl=1 but ctl was not set");
}

// ---------------------------------------------------------------------------
// Hardware library and validation

#[test]
fn test_default_values() {
    let lib = HardwareLib { targets: Vec::new(), interfaces: Vec::new() };
    assert!(lib.get_memory_pragma("nonexistent", "bram").is_none());
    assert!(lib.get_interface("nonexistent").is_none());
}

#[test]
fn hardware_lib_error_messages() {
    assert_eq!(HardwareLibError::NotFound("x".to_string()).to_string(), "Not found: x");
    assert_eq!(HardwareLibError::IoError("e".to_string()).to_string(), "IO error: e");
}

#[test]
fn never_written_and_never_read_variables_are_reported() {
    let p = program(vec![
        state("orphan", None, None),
        state("counter", None, Some(Expr::Integer(0))),
        txn("tick", Expr::Bool(true), Expr::Bool(true), vec![assign("counter", Expr::Add(Box::new(ident("counter")), Box::new(Expr::Integer(1))))], false, false),
    ]);
    let ds = HardwareValidator::validate(&p, None, "kv260", true);
    let codes: Vec<&str> = ds.iter().map(|d| d.code.as_str()).collect();
    assert_eq!(codes, vec!["EBV001", "EBV003"]);
    assert_eq!(ds[0].title, "Variable 'orphan' is never written");
    assert!(matches!(ds[0].severity, Severity::Error));
    assert!(matches!(ds[1].severity, Severity::Warning));
}

#[test]
fn output_pins_need_not_be_written_or_read() {
    let cfg = config(vec![], Some(vec![("0x40000000", IoMapping { pin: "L1".to_string(), direction: Some("output".to_string()) })]));
    let p = program(vec![state("led", Some(0x40000000), None)]);
    assert!(HardwareValidator::validate(&p, Some(&cfg), "kv260", false).is_empty());
}

#[test]
fn untriggerable_transactions_are_reported() {
    let p = program(vec![
        state("go", None, Some(Expr::Bool(false))),
        txn("run", ident("go"), Expr::Bool(true), vec![], false, false),
    ]);
    let ds = HardwareValidator::validate(&p, None, "kv260", false);
    assert!(ds.iter().any(|d| d.code == "EBV002" && d.title == "Transaction 'run' can never be triggered"));
}

// ---------------------------------------------------------------------------
// Proof engine

#[test]
fn proof_error_builders_append() {
    let e = ProofError::new_warning("P009", "trivial precondition").with_proof_step("1").with_hint("h").with_example("x");
    assert!(e.is_warning);
    assert_eq!(e.proof_chain, vec!["1".to_string()]);
    assert_eq!(e.hints, vec!["h".to_string()]);
    assert_eq!(e.examples, vec!["x".to_string()]);
    assert!(!ProofError::new("P001", "t").is_warning);
}

#[test]
fn trivial_contracts_are_errors_together_and_warnings_alone() {
    let p = program(vec![
        txn("both", Expr::Bool(true), Expr::Bool(true), vec![], false, false),
        txn("pre", Expr::Bool(true), ident("x"), vec![], false, false),
        txn("none", ident("x"), ident("y"), vec![], false, false),
    ]);
    let mut pe = ProofEngine::new();
    pe.check_trivial_contracts(&p);
    let errs = pe.errors();
    let found: Vec<(&str, bool)> = errs.iter().map(|e| (e.code.as_str(), e.is_warning)).collect();
    assert_eq!(found, vec![("P009", false), ("P010", false), ("P009", true)]);
    assert_eq!(errs[0].explanation, "transaction 'both' has precondition '[true]' which is always satisfied");
}

#[test]
fn self_equal_postconditions_and_unsettled_reactors() {
    let post = Expr::Eq(Box::new(ident("n")), Box::new(Expr::PriorState("n".to_string())));
    let p = program(vec![txn("noop", ident("n"), post, vec![], false, true)]);
    let mut pe = ProofEngine::new();
    pe.check_postcondition_contradictions(&p);
    pe.check_total_path(&p);
    let codes: Vec<String> = pe.errors().iter().map(|e| e.code.clone()).collect();
    assert_eq!(codes, vec!["P003".to_string(), "P005".to_string()]);
}

fn bx(e: Expr) -> Box<Expr> {
    Box::new(e)
}

fn owned_assign(name: &str, value: Expr) -> Statement {
    Statement::Assignment { lhs: Expr::OwnedRef(name.to_string()), expr: value, timeout: None }
}

fn text(s: &str) -> Expr {
    Expr::String(s.to_string())
}

fn count_program(pre: Expr, post: Expr) -> Program {
    let body = vec![
        owned_assign("count", Expr::Add(bx(ident("count")), bx(Expr::Integer(1)))),
        Statement::Term(vec![]),
    ];
    program(vec![state("count", None, Some(Expr::Integer(0))), txn("increment", pre, post, body, false, false)])
}

fn increment_post() -> Expr {
    Expr::Eq(bx(ident("count")), bx(Expr::Add(bx(Expr::PriorState("count".to_string())), bx(Expr::Integer(1)))))
}

fn engine_codes(p: &Program) -> Vec<(String, bool)> {
    let mut pe = ProofEngine::new();
    let errs = pe.verify_program(p, &vec![]);
    errs.iter().map(|e| (e.code.clone(), e.is_warning)).collect()
}

#[test]
fn test_mutual_exclusion_detects_conflict() {
    let pre = Expr::And(bx(ident("ready")), bx(Expr::Not(bx(ident("busy")))));
    let post = Expr::Eq(bx(ident("busy")), bx(Expr::Bool(true)));
    let body = |v: &str| {
        vec![owned_assign("data", text(v)), owned_assign("busy", Expr::Bool(false)), Statement::Term(vec![])]
    };
    let p = program(vec![
        state("data", None, Some(text(""))),
        state("busy", None, Some(Expr::Bool(false))),
        txn("write_a", pre.copy(), post.copy(), body("A"), true, true),
        txn("write_b", pre, post, body("B"), true, true),
    ]);
    let errors = engine_codes(&p);
    assert!(errors.iter().any(|(c, _)| c == "P001"), "Expected P001 ownership conflict error, got: {:?}", errors);
}

#[test]
fn test_mutual_exclusion_no_conflict_different_vars() {
    let inc = |v: &str| {
        let post = Expr::Eq(bx(ident(v)), bx(Expr::Add(bx(Expr::PriorState(v.to_string())), bx(Expr::Integer(1)))));
        let body = vec![owned_assign(v, Expr::Add(bx(ident(v)), bx(Expr::Integer(1)))), Statement::Term(vec![])];
        txn(&format!("inc_{}", v), Expr::Bool(true), post, body, true, true)
    };
    let p = program(vec![state("a", None, Some(Expr::Integer(0))), state("b", None, Some(Expr::Integer(0))), inc("a"), inc("b")]);
    let errors = engine_codes(&p);
    assert!(
        !errors.iter().any(|(c, _)| c == "P001"),
        "Should NOT have ownership conflict for different variables, got: {:?}",
        errors
    );
}

#[test]
fn test_mutual_exclusion_no_conflict_non_async() {
    let write = |name: &str, v: &str| {
        txn(name, Expr::Bool(true), Expr::Bool(true), vec![owned_assign("data", text(v)), Statement::Term(vec![])], false, false)
    };
    let p = program(vec![state("data", None, Some(text(""))), write("write_a", "A"), write("write_b", "B")]);
    let errors = engine_codes(&p);
    assert!(
        !errors.iter().any(|(c, _)| c == "P001"),
        "Should NOT have ownership conflict for non-async txns, got: {:?}",
        errors
    );
}

#[test]
fn mutual_exclusion_reports_each_conflicting_access() {
    let pre = ident("ready");
    let w = |name: &str, reads: &str| {
        let body = vec![
            owned_assign("data", ident(reads)),
            owned_assign("data", ident(reads)),
            Statement::Term(vec![]),
        ];
        txn(name, pre.copy(), Expr::Bool(true), body, true, true)
    };
    let p = program(vec![w("one", "data"), w("two", "other")]);
    let mut pe = ProofEngine::new();
    pe.check_mutual_exclusion(&p);
    let errs = pe.errors();
    let chains: Vec<String> = errs.iter().map(|e| e.proof_chain[2].clone()).collect();
    assert_eq!(chains, vec!["3. two writes while one writes".to_string(), "3. one reads while two writes".to_string()]);
    assert_eq!(errs[0].explanation, "transactions 'one' and 'two' have conflicting access to 'data'");
    assert_eq!(errs[0].proof_chain[0], "1. 'one' is async reactive (can run concurrently)");
    assert_eq!(errs[0].hints, vec!["make pre-conditions mutually exclusive".to_string()]);
    // without a shared precondition variable there is no finding
    let q = program(vec![
        txn("one", ident("a"), Expr::Bool(true), vec![owned_assign("data", Expr::Integer(1))], true, true),
        txn("two", ident("b"), Expr::Bool(true), vec![owned_assign("data", Expr::Integer(2))], true, true),
    ]);
    let mut pe = ProofEngine::new();
    pe.check_mutual_exclusion(&q);
    assert!(pe.errors().is_empty());
}

#[test]
fn test_trivial_precondition_with_non_trivial_post_warning() {
    let errors = engine_codes(&count_program(Expr::Bool(true), increment_post()));
    let has_trivial_pre_warning = errors.iter().any(|(c, w)| c == "P009" && *w);
    let has_trivial_pre_error = errors.iter().any(|(c, w)| c == "P009" && !*w);
    assert!(
        has_trivial_pre_warning && !has_trivial_pre_error,
        "Expected P009 warning (not error) when post is non-trivial, got: {:?}",
        errors
    );
}

#[test]
fn test_trivial_postcondition_with_non_trivial_pre_warning() {
    let pre = Expr::Ge(bx(ident("count")), bx(Expr::Integer(0)));
    let errors = engine_codes(&count_program(pre, Expr::Bool(true)));
    let has_trivial_post_warning = errors.iter().any(|(c, w)| c == "P010" && *w);
    let has_trivial_post_error = errors.iter().any(|(c, w)| c == "P010" && !*w);
    assert!(
        has_trivial_post_warning && !has_trivial_post_error,
        "Expected P010 warning (not error) when pre is non-trivial, got: {:?}",
        errors
    );
}

#[test]
fn test_trivial_contracts_both_true() {
    let errors = engine_codes(&count_program(Expr::Bool(true), Expr::Bool(true)));
    let has_trivial_pre = errors.iter().any(|(c, _)| c == "P009");
    let has_trivial_post = errors.iter().any(|(c, _)| c == "P010");
    assert!(has_trivial_pre && has_trivial_post, "Expected both P009 and P010 errors, got: {:?}", errors);
}

#[test]
fn test_non_trivial_contracts_no_error() {
    let pre = Expr::Ge(bx(ident("count")), bx(Expr::Integer(0)));
    let errors = engine_codes(&count_program(pre, increment_post()));
    let has_trivial_pre = errors.iter().any(|(c, _)| c == "P009");
    let has_trivial_post = errors.iter().any(|(c, _)| c == "P010");
    assert!(!has_trivial_pre && !has_trivial_post, "Should NOT have trivial contract errors, got: {:?}", errors);
}

#[test]
fn test_trivial_contracts_in_definition() {
    let double = Definition {
        name: "double".to_string(),
        type_params: vec![],
        parameters: vec![("x".to_string(), Type::Int)],
        outputs: vec![Type::Int],
        output_type: None,
        output_names: vec![],
        contract: Contract::new(Expr::Bool(true), Expr::Bool(true)),
        body: vec![Statement::Term(vec![Some(Expr::Mul(bx(ident("x")), bx(Expr::Integer(2))))])],
        is_lambda: false,
    };
    let errors = engine_codes(&program(vec![TopLevel::Definition(double)]));
    let has_trivial_pre = errors.iter().any(|(c, _)| c == "P009");
    let has_trivial_post = errors.iter().any(|(c, _)| c == "P010");
    assert!(has_trivial_pre && has_trivial_post, "Expected both P009 and P010 errors for definition, got: {:?}", errors);
}

#[test]
fn dataflow_reports_computations_without_weight_loads() {
    let mac = txn("mac", ident("go"), Expr::Bool(true), vec![assign("acc", Expr::Integer(0)), Statement::Term(vec![])], false, false);
    let idle = txn("idle", ident("go"), Expr::Bool(true), vec![Statement::Term(vec![])], false, false);
    let with_let = txn(
        "scratch",
        ident("go"),
        Expr::Bool(true),
        vec![Statement::Let { name: "x".to_string(), ty: None, expr: None, address: None, bit_range: None, is_override: false }],
        false,
        false,
    );
    let p = program(vec![mac, idle, with_let]);
    let errs = DataflowAnalyzer::new(&p).analyze();
    let names: Vec<String> = errs
        .iter()
        .map(|e| match e {
            DataflowError::MissingWeightLoad { computation_txn, load_txn } => {
                assert!(load_txn.is_none());
                computation_txn.clone()
            }
            _ => panic!("unexpected error"),
        })
        .collect();
    // a `let` prints its `address` field, which mentions "add"
    assert_eq!(names, vec!["mac".to_string(), "scratch".to_string()]);

    let load = txn("load", ident("go"), Expr::Bool(true), vec![assign("weight_buffer", Expr::Integer(1))], false, false);
    let mac2 = txn("mac", ident("go"), Expr::Bool(true), vec![assign("acc", Expr::Integer(0))], false, false);
    let q = program(vec![load, mac2]);
    assert!(DataflowAnalyzer::new(&q).analyze().is_empty());
}

#[test]
fn py_type_checked_refuses_unclosed_generics() {
    assert_eq!(py_type_to_brief_checked("Optional[int]"), Some("Int".to_string()));
    assert_eq!(py_type_to_brief_checked("Union[str, int]"), Some("String".to_string()));
    assert_eq!(py_type_to_brief_checked("List[int]"), Some("List<Value>".to_string()));
    assert_eq!(py_type_to_brief_checked("Optional[int"), None);
    assert_eq!(py_type_to_brief_checked("Union[int"), None);
}

#[test]
fn verify_program_on_empty_program_finds_nothing() {
    let p = program(vec![]);
    let mut pe = ProofEngine::new();
    assert!(pe.verify_program(&p, &vec![]).is_empty());
}
