use brief::compiler::ffi::registry::FunctionRegistry;
use brief::compiler::ffi::toml_data::{decode_toml, parse_toml, syscall_entries, TomlData};

const BINDINGS: &str = r#"
[[syscalls]]
name = "write"
[syscalls.syscall_num]
x86_64 = 1
aarch64 = 64
riscv = "n/a"

[[syscalls]]
name = "exit"
syscall_num = { x86_64 = 60 }

[[syscalls]]
syscall_num = { x86_64 = 99 }

[[syscalls]]
name = "nop"
"#;

#[test]
fn toml_round_trip() {
    let toks = parse_toml("a = 1\nb = [\"x\", 2.5]\n[c]\nd = true").unwrap();
    match decode_toml(&toks).unwrap() {
        TomlData::Table(es) => {
            assert_eq!(es.len(), 3);
            assert_eq!(es[0].0, "a");
            assert!(matches!(es[0].1, TomlData::Int(1)));
            match &es[1].1 {
                TomlData::Array(xs) => {
                    assert_eq!(xs.len(), 2);
                    assert!(matches!(&xs[0], TomlData::Str(s) if s == "x"));
                    assert!(matches!(xs[1], TomlData::Other));
                }
                _ => panic!("expected an array"),
            }
            assert!(matches!(&es[2].1, TomlData::Table(t) if t.len() == 1));
        }
        _ => panic!("expected a table"),
    }
    assert!(parse_toml("[[").is_err());
}

#[test]
fn syscall_entries_of_bindings() {
    let doc = decode_toml(&parse_toml(BINDINGS).unwrap()).unwrap();
    let es = syscall_entries(&doc);
    assert_eq!(es.len(), 3);
    assert_eq!(es[0].0, "write");
    assert_eq!(es[0].1, vec![("aarch64".to_string(), 64), ("x86_64".to_string(), 1)]);
    assert_eq!(es[1].0, "exit");
    assert_eq!(es[1].1, vec![("x86_64".to_string(), 60)]);
    assert_eq!(es[2].0, "nop");
    assert!(es[2].1.is_empty());
    assert!(syscall_entries(&decode_toml(&parse_toml("x = 1").unwrap()).unwrap()).is_empty());
}

#[test]
fn load_syscalls_from_text() {
    let mut r = FunctionRegistry::new();
    r.load_syscalls_text(BINDINGS).unwrap();
    assert_eq!(r.get_syscall_number("write", "x86_64"), Some(1));
    assert_eq!(r.get_syscall_number("write", "aarch64"), Some(64));
    assert_eq!(r.get_syscall_number("write", "riscv"), None);
    assert_eq!(r.get_syscall_number("exit", "x86_64"), Some(60));
    assert_eq!(r.get_syscall_number("nop", "x86_64"), None);
    r.load_syscalls_text("[[syscalls]]\nname = \"exit\"\nsyscall_num = { x86_64 = 231 }").unwrap();
    assert_eq!(r.get_syscall_number("exit", "x86_64"), Some(231));
    assert_eq!(r.get_syscall_number("write", "x86_64"), Some(1));
    assert!(r.load_syscalls_text("[[syscalls").is_err());
    assert_eq!(r.get_syscall_number("exit", "x86_64"), Some(231));
}
