use brief::compiler::resolver::{Import, ImportSource, ResolveError, Resolver};
use brief::paths::PathFacts;

fn file(path: &str) -> PathFacts {
    PathFacts {
        path: path.to_string(),
        exists: true,
        is_dir: false,
        has_cargo_toml: false,
        has_extension: true,
        extension_is_bv: true,
        contains_bv_file: false,
    }
}

#[test]
fn root_module_resolves_once_through_dot_search_path() {
    let mut r = Resolver::new().with_manifest("/p/brief.toml".to_string());
    let facts = vec![file("/p/./util.bv"), file("/p/util.bv")];
    let x = r.resolve(&Import::new("util".to_string(), vec!["f".to_string()]), None, &facts).unwrap();
    assert_eq!(x.path, "/p/./util.bv");
    assert!(x.source == ImportSource::Discovered);
    let y = r.get_resolved("util").unwrap();
    assert_eq!(y.path, x.path);
    assert!(r.get_resolved("other").is_none());
}

#[test]
fn distinct_places_are_multiple_candidates() {
    let mut r = Resolver::new().with_manifest("/p/brief.toml".to_string());
    let facts = vec![file("/p/lib/util.bv"), file("/p/util.bv")];
    match r.resolve(&Import::new("util".to_string(), vec![]), None, &facts) {
        Err(ResolveError::MultipleCandidates(n, ps)) => {
            assert_eq!(n, "util");
            assert_eq!(ps, vec!["/p/lib/util.bv".to_string(), "/p/util.bv".to_string()]);
        }
        _ => panic!("expected several candidates"),
    }
}

#[test]
fn manifest_answer_is_kept() {
    let mut r = Resolver::new().with_manifest("/p/brief.toml".to_string());
    let x = r.resolve(&Import::new("auth".to_string(), vec!["login".to_string()]), Some("lib/auth.bv".to_string()), &vec![]).unwrap();
    assert!(x.source == ImportSource::Manifest);
    let y = r.get_resolved("auth").unwrap();
    assert_eq!(y.name, x.name);
    assert_eq!(y.path, x.path);
    assert!(y.source == ImportSource::Manifest);
    assert!(r.get_resolved("other").is_none());
}
