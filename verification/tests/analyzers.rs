use brief::compiler::wrapper::js::analyze_js_content;
use brief::compiler::wrapper::python::analyze_python_content;

#[test]
fn js_content_by_extension() {
    let ts = analyze_js_content("ts", "export function add(a: number, b: number): number;").unwrap();
    assert_eq!(ts.len(), 1);
    assert_eq!(ts[0].name, "add");
    let js = analyze_js_content("js", "// note\n/* block\n */").unwrap();
    assert_eq!(js.len(), 0);
    assert_eq!(analyze_js_content("mjs", "").unwrap().len(), 0);
    assert_eq!(analyze_js_content("txt", "function f() {}").unwrap_err(), "Unsupported JavaScript file type: txt");
}

#[test]
fn python_content_by_extension() {
    let py = analyze_python_content("py", "def add(a: int, b: int) -> int: pass").unwrap();
    assert_eq!(py.len(), 1);
    assert_eq!(py[0].name, "add");
    let pyi = analyze_python_content("pyi", "# stub\ndef f(x: str) -> str: ...").unwrap();
    assert_eq!(pyi.len(), 1);
    assert_eq!(analyze_python_content("rb", "").unwrap_err(), "Unsupported Python file type: rb");
}
