use brief::msh::parser::{format_proposition, parse, parse_line, MshError, ProofFailure, Proposition};
use brief::msh::tether::{TetherEngine, TetherResult};

#[test]
fn test_parse_exists_on() {
    let prop = parse("Imp_Core exists_on Tile_0.").unwrap();
    assert_eq!(prop, Proposition::ExistsOn { module: "Imp_Core".to_string(), tile: "Tile_0".to_string() });
}

#[test]
fn test_parse_absent() {
    let prop = parse("Imp_Core absent.").unwrap();
    assert_eq!(prop, Proposition::Absent { module: "Imp_Core".to_string() });
}

#[test]
fn test_parse_is_active() {
    let prop = parse("Tile_0 is_active.").unwrap();
    assert_eq!(prop, Proposition::IsActive { tile: "Tile_0".to_string() });
}

#[test]
fn test_parse_contains() {
    let prop = parse("Storage contains Imp_Core.").unwrap();
    assert_eq!(prop, Proposition::Contains { container: "Storage".to_string(), item: "Imp_Core".to_string() });
}

#[test]
fn test_parse_discovery() {
    let prop = parse("Tile_0 ?").unwrap();
    assert_eq!(prop, Proposition::Custom { subject: "Tile_0".to_string(), predicate: "?".to_string(), object: None });
}

#[test]
fn test_format_proposition() {
    let prop = Proposition::ExistsOn { module: "GPU".to_string(), tile: "Tile_0".to_string() };
    assert_eq!(format_proposition(&prop), "GPU exists_on Tile_0.");
}

#[test]
fn formatted_propositions_parse_back() {
    let props = vec![
        Proposition::ExistsOn { module: "GPU".to_string(), tile: "Tile_1".to_string() },
        Proposition::Absent { module: "GPU".to_string() },
        Proposition::IsActive { tile: "Tile_1".to_string() },
        Proposition::Contains { container: "Storage".to_string(), item: "GPU".to_string() },
    ];
    for p in props {
        assert_eq!(parse(&format_proposition(&p)).unwrap(), p);
    }
}

#[test]
fn blank_lines_are_empty_input() {
    assert!(matches!(parse_line("   "), Err(MshError::EmptyInput)));
}

#[test]
fn proof_failures_collect_reasons_and_suggestions() {
    let mut f = ProofFailure::cannot_satisfy("GPU exists_on Tile_9.");
    f.add_reason(2, "no such tile");
    f.add_suggestion("use Tile_0");
    assert_eq!(f.proposition, "GPU exists_on Tile_9.");
    assert_eq!(f.reasons.len(), 1);
    assert_eq!(f.reasons[0].code, 2);
    assert_eq!(f.suggestions, vec!["use Tile_0".to_string()]);
}

#[test]
fn test_context() {
    let engine = TetherEngine::new();
    let ctx = engine.get_context();
    assert_eq!(ctx.total_luts, 256_000);
    assert_eq!(ctx.storage.len(), 2);
}

#[test]
fn test_mount_unmount() {
    let mut engine = TetherEngine::new();
    engine.mount_bitstream("RP_1", "GPU", 80000).unwrap();
    let ctx = engine.get_context();
    assert_eq!(ctx.mounted.len(), 1);
    engine.unmount_bitstream("RP_1").unwrap();
    let ctx = engine.get_context();
    assert_eq!(ctx.mounted.len(), 0);
}

#[test]
fn test_tether_query() {
    let engine = TetherEngine::new();
    let resp = engine.query("kernel_version").unwrap();
    match resp.result {
        TetherResult::Kernel(k) => assert_eq!(k.version, "0.1.0"),
        _ => panic!("Expected Kernel result"),
    }
}

#[test]
fn mounting_takes_luts_and_unmounting_gives_them_back() {
    let mut engine = TetherEngine::new();
    let before = engine.get_context().available_luts;
    engine.mount_bitstream("RP_1", "GPU", 80000).unwrap();
    assert_eq!(engine.get_context().available_luts, before - 80000);
    engine.unmount_bitstream("RP_1").unwrap();
    assert_eq!(engine.get_context().available_luts, before);
}

#[test]
fn unknown_tethers_are_refused() {
    let engine = TetherEngine::new();
    assert!(engine.query("no_such_tether").is_err());
}
